//! Resolving a work descriptor to the identifier a job is submitted under.

use vstd::prelude::*;

verus! {

/// The characters that the UTF-8 bytes `b` decode to, or `None` where `b` is not
/// valid UTF-8.
pub uninterp spec fn utf8_decoded(b: Seq<u8>) -> Option<Seq<char>>;

/// Relies on `String::from_utf8`: it succeeds exactly on valid UTF-8 and then holds
/// the decoded characters.
#[verifier::external_body]
fn string_from_utf8(bytes: Vec<u8>) -> (r: Option<String>)
    ensures
        match r {
            Some(s) => utf8_decoded(bytes@) == Some(s@),
            None => utf8_decoded(bytes@) is None,
        },
{
    String::from_utf8(bytes).ok()
}

/// The identifier of one descriptor, if it has one.
pub open spec fn identifier_of(b: Seq<u8>) -> Option<Seq<char>> {
    utf8_decoded(b)
}

/// The identifiers of a run of descriptors, in the same order, with every descriptor
/// that has no identifier left out.
pub open spec fn identifiers_of(items: Seq<Seq<u8>>) -> Seq<Seq<char>> {
    items.filter_map(|b: Seq<u8>| identifier_of(b))
}

/// Resolves a descriptor to its identifier: its bytes read as UTF-8 text, or `None`
/// where they are not valid UTF-8.
pub fn to_identifier(task: Vec<u8>) -> (id: Option<String>)
    ensures
        match id {
            Some(s) => identifier_of(task@) == Some(s@),
            None => identifier_of(task@) is None,
        },
{
    string_from_utf8(task)
}


/// The identifiers of two runs one after the other are those of the first run
/// followed by those of the second.
pub proof fn lemma_identifiers_of_concat(a: Seq<Seq<u8>>, b: Seq<Seq<u8>>)
    ensures
        identifiers_of(a + b) == identifiers_of(a) + identifiers_of(b),
    decreases b.len(),
{
    if b.len() == 0 {
        assert(a + b =~= a);
        assert(identifiers_of(a) + identifiers_of(b) =~= identifiers_of(a));
    } else {
        lemma_identifiers_of_concat(a, b.drop_last());
        assert((a + b).drop_last() =~= a + b.drop_last());
        assert((a + b).last() == b.last());
        match identifier_of(b.last()) {
            Some(s) => {
                assert(identifiers_of(a) + identifiers_of(b) =~= identifiers_of(a)
                    + identifiers_of(b.drop_last()) + seq![s]);
            },
            None => {},
        }
    }
}

/// A descriptor without an identifier is never submitted: taking it out of the run
/// changes none of the identifiers, nor their order.
pub proof fn lemma_unresolvable_never_submitted(items: Seq<Seq<u8>>, i: int)
    requires
        0 <= i < items.len(),
        identifier_of(items[i]) is None,
    ensures
        identifiers_of(items) == identifiers_of(items.remove(i)),
{
    let front = items.take(i);
    let back = items.skip(i + 1);
    assert(items =~= front + seq![items[i]] + back);
    assert(items.remove(i) =~= front + back);
    lemma_identifiers_of_concat(front + seq![items[i]], back);
    lemma_identifiers_of_concat(front, seq![items[i]]);
    lemma_identifiers_of_concat(front, back);
    Seq::lemma_filter_map_singleton(items[i], |b: Seq<u8>| identifier_of(b));
    assert(identifiers_of(front) + Seq::<Seq<char>>::empty() =~= identifiers_of(front));
}

/// Submission keeps queue order: of two descriptors that both have an identifier, the
/// one earlier in the run has its identifier submitted first. The identifier of the
/// descriptor at `i` stands at the index given by the number of identifiers before it.
pub proof fn lemma_submission_keeps_queue_order(items: Seq<Seq<u8>>, i: int, j: int)
    requires
        0 <= i < j < items.len(),
        identifier_of(items[i]) is Some,
        identifier_of(items[j]) is Some,
    ensures
        ({
            let ids = identifiers_of(items);
            let p = identifiers_of(items.take(i)).len() as int;
            let q = identifiers_of(items.take(j)).len() as int;
            &&& p < q < ids.len()
            &&& Some(ids[p]) == identifier_of(items[i])
            &&& Some(ids[q]) == identifier_of(items[j])
        }),
{
    lemma_position_of_identifier(items, i);
    lemma_position_of_identifier(items, j);
    let upto_j = items.take(j);
    assert(upto_j =~= items.take(i + 1) + items.subrange(i + 1, j));
    lemma_identifiers_of_concat(items.take(i + 1), items.subrange(i + 1, j));
}

/// The identifier of the descriptor at `i`, if it has one, stands in the identifiers of
/// the run right after those of the descriptors before it.
proof fn lemma_position_of_identifier(items: Seq<Seq<u8>>, i: int)
    requires
        0 <= i < items.len(),
        identifier_of(items[i]) is Some,
    ensures
        identifiers_of(items.take(i + 1)) == identifiers_of(items.take(i)).push(
            identifier_of(items[i])->0,
        ),
        identifiers_of(items.take(i)).len() < identifiers_of(items).len(),
        identifiers_of(items)[identifiers_of(items.take(i)).len() as int] == identifier_of(
            items[i],
        )->0,
{
    items.lemma_filter_map_take_succ(|b: Seq<u8>| identifier_of(b), i);
    assert(identifiers_of(items.take(i + 1)) =~= identifiers_of(items.take(i)).push(
        identifier_of(items[i])->0,
    ));
    assert(items =~= items.take(i + 1) + items.skip(i + 1));
    lemma_identifiers_of_concat(items.take(i + 1), items.skip(i + 1));
}

} // verus!
