//! Positions in ascending sequences.

use vstd::prelude::*;

verus! {

/// Whether the keys never decrease.
pub open spec fn ascending(keys: Seq<int>) -> bool {
    forall|i: int, j: int| 0 <= i <= j < keys.len() ==> keys[i] <= keys[j]
}

/// The number of keys at the front that are below `bound`. In an ascending
/// sequence these are all the keys below `bound`.
pub open spec fn leading_below(keys: Seq<int>, bound: int) -> nat
    decreases keys.len(),
{
    if keys.len() > 0 && keys[0] < bound {
        1 + leading_below(keys.drop_first(), bound)
    } else {
        0
    }
}

/// A position with only keys below `bound` before it, and at it a key that is
/// not, is the number of leading keys below `bound`.
pub proof fn lemma_leading_below(keys: Seq<int>, bound: int, p: int)
    requires
        0 <= p <= keys.len(),
        forall|i: int| 0 <= i < p ==> keys[i] < bound,
        p < keys.len() ==> keys[p] >= bound,
    ensures
        leading_below(keys, bound) == p,
    decreases keys.len(),
{
    if p > 0 {
        let rest = keys.drop_first();
        assert forall|i: int| 0 <= i < p - 1 implies rest[i] < bound by {
            assert(rest[i] == keys[i + 1]);
        }
        lemma_leading_below(rest, bound, p - 1);
    }
}

/// The number of leading keys below a bound is a position in the sequence;
/// the keys before it are below the bound and, in an ascending sequence, the
/// others are not.
pub proof fn lemma_leading_below_splits(keys: Seq<int>, bound: int)
    ensures
        leading_below(keys, bound) <= keys.len(),
        forall|i: int| 0 <= i < leading_below(keys, bound) ==> keys[i] < bound,
        ascending(keys) ==> forall|i: int|
            leading_below(keys, bound) <= i < keys.len() ==> keys[i] >= bound,
    decreases keys.len(),
{
    if keys.len() > 0 && keys[0] < bound {
        let rest = keys.drop_first();
        lemma_leading_below_splits(rest, bound);
        assert forall|i: int| 0 <= i < leading_below(keys, bound) implies keys[i] < bound by {
            if i > 0 {
                assert(rest[i - 1] == keys[i]);
            }
        }
        if ascending(keys) {
            assert forall|i: int, j: int| 0 <= i <= j < rest.len() implies rest[i] <= rest[j] by {
                assert(keys[i + 1] <= keys[j + 1]);
            }
            assert forall|i: int| leading_below(keys, bound) <= i < keys.len() implies keys[i]
                >= bound by {
                assert(rest[i - 1] == keys[i]);
            }
        }
    } else if ascending(keys) {
        assert forall|i: int| 0 <= i < keys.len() implies keys[i] >= bound by {
            assert(keys[0] <= keys[i]);
        }
    }
}

} // verus!
