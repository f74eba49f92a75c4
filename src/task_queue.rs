//! The FIFO queue of pending work descriptors, held in a `queues::Queue`.

use queues::IsQueue;
use queues::Queue;
use vstd::prelude::*;

verus! {

#[verifier::external_type_specification]
#[verifier::external_body]
#[verifier::reject_recursive_types(T)]
pub struct ExQueue<T: Clone>(Queue<T>);

/// The descriptors a queue holds, oldest first.
pub uninterp spec fn queue_items(q: Queue<Vec<u8>>) -> Seq<Seq<u8>>;

/// Relies on `queues::Queue::new`: the queue starts empty.
#[verifier::external_body]
pub(crate) fn queue_new() -> (q: Queue<Vec<u8>>)
    ensures
        queue_items(q) == Seq::<Seq<u8>>::empty(),
{
    Queue::new()
}

/// Relies on `IsQueue::add` of `queues::Queue`: it pushes the item at the back of its
/// vector and always returns `Ok(None)`.
#[verifier::external_body]
pub(crate) fn queue_add(q: &mut Queue<Vec<u8>>, item: Vec<u8>) -> (added: bool)
    ensures
        added,
        queue_items(*final(q)) == queue_items(*old(q)).push(item@),
{
    q.add(item).is_ok()
}

/// Relies on `IsQueue::remove` of `queues::Queue`: it takes the oldest item out of a
/// non-empty queue, and fails, leaving the queue as it is, on an empty one.
#[verifier::external_body]
pub(crate) fn queue_remove(q: &mut Queue<Vec<u8>>) -> (r: Option<Vec<u8>>)
    ensures
        match r {
            Some(item) => queue_items(*old(q)).len() > 0 && item@ == queue_items(*old(q))[0]
                && queue_items(*final(q)) == queue_items(*old(q)).drop_first(),
            None => queue_items(*old(q)).len() == 0 && queue_items(*final(q)) == queue_items(
                *old(q),
            ),
        },
{
    q.remove().ok()
}

/// Relies on `IsQueue::size` of `queues::Queue`: the length of its vector.
#[verifier::external_body]
pub(crate) fn queue_size(q: &Queue<Vec<u8>>) -> (n: usize)
    ensures
        n == queue_items(*q).len(),
{
    q.size()
}

} // verus!
