use std::sync::atomic::{AtomicUsize, Ordering};
use std::sync::{Arc, RwLock};
use worker_pool::identifier::to_identifier;
use worker_pool::pool::Pool;
use worker_pool::sizing::{default_worker_count, optimised_worker_count};

type Log = Arc<RwLock<Vec<String>>>;

fn new_log() -> Log {
    Arc::new(RwLock::new(Vec::new()))
}

/// Drains `pool` with stub clients: the index stub records each identifier, the store
/// stub each payload. Waits for the jobs and returns both records.
fn drain_with_stubs(pool: &mut Pool, message: &str) -> (Vec<String>, Vec<String>) {
    let index = new_log();
    let store = new_log();
    pool.embed_message(
        Arc::clone(&index),
        Arc::clone(&store),
        message.to_string(),
        Arc::new(|i: Log, s: Log, payload: String, id: String| {
            i.write().unwrap().push(id);
            s.write().unwrap().push(payload);
        }),
    );
    pool.join();
    let ids = index.read().unwrap().clone();
    let payloads = store.read().unwrap().clone();
    (ids, payloads)
}

#[test]
fn undetected_parallelism_gives_one_worker() {
    assert_eq!(Pool::optimised(None, 1, 1).worker_count(), 1);
    assert_eq!(Pool::optimised(None, 1, 0).worker_count(), 1);
    assert_eq!(Pool::default(None).worker_count(), 1);
    assert_eq!(Pool::new(1).worker_count(), 1);
}

#[test]
fn half_of_eight_cores_is_four_workers() {
    assert_eq!(Pool::optimised(Some(8), 1, 1).worker_count(), 4);
    assert_eq!(optimised_worker_count(Some(8), 1, 1), 4);
}

#[test]
fn tenth_of_eight_cores_is_clamped_to_one_worker() {
    assert_eq!(optimised_worker_count(Some(8), 7205759403792794, 56), 1);
    assert_eq!(Pool::optimised(Some(8), 7205759403792794, 56).worker_count(), 1);
}

#[test]
fn fraction_of_cores_rounds_down() {
    assert_eq!(optimised_worker_count(Some(7), 1, 1), 3);
    assert_eq!(optimised_worker_count(Some(3), 1, 1), 1);
    assert_eq!(optimised_worker_count(Some(8), 1, 0), 8);
    assert_eq!(optimised_worker_count(Some(10), 3, 2), 7);
    assert_eq!(optimised_worker_count(Some(usize::MAX), 1, 0), usize::MAX);
    assert_eq!(optimised_worker_count(Some(usize::MAX), 1, 1), usize::MAX / 2);
    // 0.666 as an f64 is 5998794703657501 / 2^53; 0.666 of three cores is 1.998, rounded down to one.
    assert_eq!(optimised_worker_count(Some(3), 5998794703657501, 53), 1);
    // A fraction far below any core count still leaves one worker.
    assert_eq!(optimised_worker_count(Some(64), 1, 1074), 1);
}

#[test]
fn f64_fraction_bits_match_exact_arguments() {
    let f = 0.1f64;
    assert_eq!(f.to_bits() & ((1u64 << 52) - 1) | (1u64 << 52), 7205759403792794);
    assert_eq!(1075 - ((f.to_bits() >> 52) & 0x7ff), 56);
    let g = 0.666f64;
    assert_eq!(g.to_bits() & ((1u64 << 52) - 1) | (1u64 << 52), 5998794703657501);
    assert_eq!(1075 - ((g.to_bits() >> 52) & 0x7ff), 53);
}

#[test]
fn default_uses_all_detected_cores() {
    assert_eq!(default_worker_count(Some(8)), 8);
    assert_eq!(default_worker_count(Some(0)), 1);
    assert_eq!(default_worker_count(None), 1);
    assert_eq!(Pool::default(Some(3)).worker_count(), 3);
}

#[test]
fn fixed_pool_has_given_size() {
    let pool = Pool::new(2);
    assert_eq!(pool.worker_count(), 2);
    assert_eq!(pool.size(), 0);
}

#[test]
fn identifier_is_utf8_text() {
    assert_eq!(to_identifier(b"abc".to_vec()), Some("abc".to_string()));
    assert_eq!(to_identifier("é-1".as_bytes().to_vec()), Some("é-1".to_string()));
    assert_eq!(to_identifier(Vec::new()), Some(String::new()));
    assert_eq!(to_identifier(vec![0xff, 0xfe]), None);
    assert_eq!(to_identifier(vec![b'a', 0xc3]), None);
}

#[test]
fn enqueue_grows_queue() {
    let mut pool = Pool::new(1);
    pool.enqueue(b"a".to_vec());
    assert_eq!(pool.size(), 1);
    pool.enqueue(b"a".to_vec());
    pool.enqueue(vec![0xff]);
    assert_eq!(pool.size(), 3);
}

#[test]
fn end_to_end_three_items_two_workers() {
    let mut pool = Pool::new(2);
    for item in ["a", "b", "c"] {
        pool.enqueue(item.as_bytes().to_vec());
    }
    let (mut ids, payloads) = drain_with_stubs(&mut pool, "payload");
    ids.sort();
    assert_eq!(ids, vec!["a".to_string(), "b".to_string(), "c".to_string()]);
    assert_eq!(payloads, vec!["payload".to_string(); 3]);
    assert_eq!(pool.size(), 0);
}

#[test]
fn unconvertible_item_is_discarded() {
    let mut pool = Pool::new(2);
    pool.enqueue(b"a".to_vec());
    pool.enqueue(vec![0xff, 0xfe]);
    pool.enqueue(b"c".to_vec());
    let jobs = Arc::new(AtomicUsize::new(0));
    let counter = Arc::clone(&jobs);
    pool.embed_message(
        new_log(),
        new_log(),
        "m".to_string(),
        Arc::new(move |_: Log, _: Log, _: String, _: String| {
            counter.fetch_add(1, Ordering::SeqCst);
        }),
    );
    pool.join();
    assert_eq!(jobs.load(Ordering::SeqCst), 2);
    assert_eq!(pool.size(), 0);
}

#[test]
fn only_unconvertible_items_submit_nothing() {
    let mut pool = Pool::new(2);
    pool.enqueue(vec![0x80]);
    pool.enqueue(vec![0xff, 0xff]);
    let (ids, payloads) = drain_with_stubs(&mut pool, "m");
    assert!(ids.is_empty());
    assert!(payloads.is_empty());
    assert_eq!(pool.size(), 0);
}

#[test]
fn drain_empties_queue_and_takes_every_item() {
    let mut pool = Pool::new(3);
    for n in 0..20 {
        pool.enqueue(format!("item-{}", n).into_bytes());
    }
    assert_eq!(pool.size(), 20);
    let (mut ids, _) = drain_with_stubs(&mut pool, "m");
    assert_eq!(pool.size(), 0);
    ids.sort();
    let mut expected: Vec<String> = (0..20).map(|n| format!("item-{}", n)).collect();
    expected.sort();
    assert_eq!(ids, expected);
}

#[test]
fn drain_of_empty_queue_submits_nothing() {
    let mut pool = Pool::new(2);
    let (ids, _) = drain_with_stubs(&mut pool, "m");
    assert!(ids.is_empty());
    assert_eq!(pool.size(), 0);
}

#[test]
fn single_worker_runs_jobs_in_queue_order() {
    let mut pool = Pool::new(1);
    pool.enqueue(b"first".to_vec());
    pool.enqueue(vec![0xff]);
    pool.enqueue(b"second".to_vec());
    pool.enqueue(b"third".to_vec());
    let (ids, _) = drain_with_stubs(&mut pool, "m");
    assert_eq!(ids, vec!["first".to_string(), "second".to_string(), "third".to_string()]);
}

#[test]
fn pool_is_reusable_after_drain() {
    let mut pool = Pool::new(2);
    pool.enqueue(b"x".to_vec());
    let (ids, _) = drain_with_stubs(&mut pool, "one");
    assert_eq!(ids, vec!["x".to_string()]);
    pool.enqueue(b"y".to_vec());
    let (ids, payloads) = drain_with_stubs(&mut pool, "two");
    assert_eq!(ids, vec!["y".to_string()]);
    assert_eq!(payloads, vec!["two".to_string()]);
}
