//! Lists in which some places are empty: what is there, in order, and where
//! each item comes from.

use vstd::prelude::*;

verus! {

/// What is there among `slots`, in their order.
pub open spec fn present<T>(slots: Seq<Option<T>>) -> Seq<T>
    decreases slots.len(),
{
    if slots.len() == 0 {
        Seq::<T>::empty()
    } else {
        present(slots.drop_last()) + match slots.last() {
            Some(item) => seq![item],
            None => Seq::<T>::empty(),
        }
    }
}

/// The slot that the item at index `at` of `present(slots)` comes from.
pub open spec fn origin<T>(slots: Seq<Option<T>>, at: int) -> int
    decreases slots.len(),
{
    if slots.len() == 0 {
        0
    } else if slots.last() is Some && at == present(slots).len() - 1 {
        slots.len() - 1
    } else {
        origin(slots.drop_last(), at)
    }
}

/// Each item of `present(slots)` is what its slot of origin holds.
pub proof fn lemma_origin<T>(slots: Seq<Option<T>>, at: int)
    requires
        0 <= at < present(slots).len(),
    ensures
        0 <= origin(slots, at) < slots.len(),
        slots[origin(slots, at)] == Some(present(slots)[at]),
    decreases slots.len(),
{
    if slots.len() == 0 {
    } else if slots.last() is Some && at == present(slots).len() - 1 {
    } else {
        lemma_origin(slots.drop_last(), at);
    }
}

/// Items of `present(slots)` stand in the order of the slots they come from.
pub proof fn lemma_origin_increases<T>(slots: Seq<Option<T>>, first: int, second: int)
    requires
        0 <= first < second < present(slots).len(),
    ensures
        origin(slots, first) < origin(slots, second),
    decreases slots.len(),
{
    if slots.len() == 0 {
    } else if slots.last() is Some && second == present(slots).len() - 1 {
        lemma_origin(slots.drop_last(), first);
    } else {
        lemma_origin_increases(slots.drop_last(), first, second);
    }
}

/// What is there among two lists of slots is what is there in the first,
/// then what is there in the second.
pub proof fn lemma_present_concat<T>(a: Seq<Option<T>>, b: Seq<Option<T>>)
    ensures
        present(a + b) == present(a) + present(b),
    decreases b.len(),
{
    if b.len() == 0 {
        assert(a + b =~= a);
        assert(present(a) + present(b) =~= present(a));
    } else {
        lemma_present_concat(a, b.drop_last());
        assert((a + b).drop_last() =~= a + b.drop_last());
        assert((a + b).last() == b.last());
        let tail = match b.last() {
            Some(item) => seq![item],
            None => Seq::<T>::empty(),
        };
        assert(present(a + b) =~= present(a) + (present(b.drop_last()) + tail));
    }
}

/// What is there in a single slot.
pub proof fn lemma_present_one<T>(slot: Option<T>)
    ensures
        present(seq![slot]) == match slot {
            Some(item) => seq![item],
            None => Seq::<T>::empty(),
        },
{
    assert(seq![slot].drop_last() =~= Seq::<Option<T>>::empty());
    assert(present(Seq::<Option<T>>::empty()) =~= Seq::<T>::empty());
    assert(seq![slot].last() == slot);
    assert(present(seq![slot]) =~= match slot {
        Some(item) => seq![item],
        None => Seq::<T>::empty(),
    });
}

/// Where nothing is there, nothing is present.
pub proof fn lemma_present_none<T>(slots: Seq<Option<T>>)
    requires
        forall|k: int| 0 <= k < slots.len() ==> (#[trigger] slots[k]) is None,
    ensures
        present(slots) == Seq::<T>::empty(),
    decreases slots.len(),
{
    if slots.len() > 0 {
        lemma_present_none(slots.drop_last());
        assert(slots[slots.len() - 1] is None);
        assert(present(slots) =~= Seq::<T>::empty());
    }
}

/// How many of the slots before slot `k` hold something: the index in
/// `present(slots)` of what slot `k` holds.
pub open spec fn rank<T>(slots: Seq<Option<T>>, k: int) -> int {
    present(slots.take(k)).len() as int
}

/// What a slot holds is present, at the index that is the slot's rank, and
/// the slot is its origin.
pub proof fn lemma_rank<T>(slots: Seq<Option<T>>, k: int)
    requires
        0 <= k < slots.len(),
        slots[k] is Some,
    ensures
        0 <= rank(slots, k) < present(slots).len(),
        present(slots)[rank(slots, k)] == slots[k].unwrap(),
        origin(slots, rank(slots, k)) == k,
    decreases slots.len(),
{
    let before = slots.drop_last();
    if k == slots.len() - 1 {
        assert(slots.take(k) =~= before);
    } else {
        lemma_rank(before, k);
        assert(before.take(k) =~= slots.take(k));
    }
}

} // verus!
