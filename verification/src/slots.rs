//! Numbered slots that fill up one by one.
use vstd::prelude::*;

verus! {

/// Every slot is filled.
pub open spec fn all_filled<A>(slots: Seq<Option<A>>) -> bool {
    forall|i: int| 0 <= i < slots.len() ==> (#[trigger] slots[i]) is Some
}

/// How many slots are filled.
pub open spec fn filled<A>(slots: Seq<Option<A>>) -> nat
    decreases slots.len(),
{
    if slots.len() == 0 {
        0
    } else {
        filled(slots.drop_last()) + if slots.last() is Some {
            1nat
        } else {
            0nat
        }
    }
}

pub proof fn lemma_filled_bound<A>(slots: Seq<Option<A>>)
    ensures
        filled(slots) <= slots.len(),
        filled(slots) == slots.len() <==> all_filled(slots),
    decreases slots.len(),
{
    if slots.len() > 0 {
        let rest = slots.drop_last();
        lemma_filled_bound(rest);
        if all_filled(slots) {
            assert forall|i: int| 0 <= i < rest.len() implies (#[trigger] rest[i]) is Some by {
                assert(slots[i] is Some);
            }
        }
        if filled(slots) == slots.len() {
            assert forall|i: int| 0 <= i < slots.len() implies (#[trigger] slots[i]) is Some by {
                if i < rest.len() {
                    assert(rest[i] is Some);
                }
            }
        }
    }
}

pub proof fn lemma_filled_grows<A>(slots: Seq<Option<A>>, k: int, a: A)
    requires
        0 <= k < slots.len(),
        slots[k] is None,
    ensures
        filled(slots.update(k, Some(a))) == filled(slots) + 1,
    decreases slots.len(),
{
    let after = slots.update(k, Some(a));
    if k == slots.len() - 1 {
        assert(after.drop_last() =~= slots.drop_last());
    } else {
        assert(after.drop_last() =~= slots.drop_last().update(k, Some(a)));
        lemma_filled_grows(slots.drop_last(), k, a);
    }
}

pub proof fn lemma_filled_none<A>(slots: Seq<Option<A>>)
    requires
        forall|i: int| 0 <= i < slots.len() ==> (#[trigger] slots[i]) is None,
    ensures
        filled(slots) == 0,
    decreases slots.len(),
{
    if slots.len() > 0 {
        assert forall|i: int| 0 <= i < slots.drop_last().len() implies (
        #[trigger] slots.drop_last()[i]) is None by {
            assert(slots[i] is None);
        }
        lemma_filled_none(slots.drop_last());
    }
}

} // verus!
