//! First and last matches of a predicate over a range of positions.

use vstd::prelude::*;

verus! {

/// The least position in `lo..hi` at which `p` holds.
pub open spec fn first_in(p: spec_fn(int) -> bool, lo: int, hi: int) -> Option<int>
    decreases hi - lo,
{
    if lo >= hi {
        None
    } else if p(lo) {
        Some(lo)
    } else {
        first_in(p, lo + 1, hi)
    }
}

/// The greatest position in `lo..hi` at which `p` holds.
pub open spec fn last_in(p: spec_fn(int) -> bool, lo: int, hi: int) -> Option<int>
    decreases hi - lo,
{
    if lo >= hi {
        None
    } else if p(hi - 1) {
        Some(hi - 1)
    } else {
        last_in(p, lo, hi - 1)
    }
}

/// `first_in` gives a match with none before it, or there is no match at all.
pub proof fn lemma_first_in(p: spec_fn(int) -> bool, lo: int, hi: int)
    ensures
        match first_in(p, lo, hi) {
            Some(i) => lo <= i < hi && p(i) && forall|j: int| lo <= j < i ==> !#[trigger] p(j),
            None => forall|j: int| lo <= j < hi ==> !#[trigger] p(j),
        },
    decreases hi - lo,
{
    if lo < hi && !p(lo) {
        lemma_first_in(p, lo + 1, hi);
    }
}

/// `last_in` gives a match with none after it, or there is no match at all.
pub proof fn lemma_last_in(p: spec_fn(int) -> bool, lo: int, hi: int)
    ensures
        match last_in(p, lo, hi) {
            Some(i) => lo <= i < hi && p(i) && forall|j: int| i < j < hi ==> !#[trigger] p(j),
            None => forall|j: int| lo <= j < hi ==> !#[trigger] p(j),
        },
    decreases hi - lo,
{
    if lo < hi && !p(hi - 1) {
        lemma_last_in(p, lo, hi - 1);
    }
}

} // verus!
