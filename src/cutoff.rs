//! The cutoff: the rank of the last quotient that wins a seat.

use vstd::prelude::*;
use crate::count::{total_above, total_at, exceeds, lemma_total_step, lemma_total_monotone,
    lemma_total_extremes};

verus! {

/// `t` is the rank of the `seats`-th quotient when the whole table is sorted
/// in descending order: fewer than `seats` quotients rank above it, and
/// together with those at it they reach `seats`.
pub open spec fn is_cutoff(table: Seq<Vec<u64>>, seats: nat, t: int) -> bool {
    total_above(table, t) < seats <= total_above(table, t) + total_at(table, t)
}

/// The cutoff of the table for `seats` seats.
pub open spec fn cutoff(table: Seq<Vec<u64>>, seats: nat) -> int {
    choose|t: int| is_cutoff(table, seats, t)
}

/// More quotients rank at or above the cutoff than there are seats.
pub open spec fn is_tied(table: Seq<Vec<u64>>, seats: nat) -> bool {
    let t = cutoff(table, seats);
    total_above(table, t) + total_at(table, t) > seats
}

/// A table has at most one cutoff for a seat count.
pub proof fn lemma_cutoff_unique(table: Seq<Vec<u64>>, seats: nat, t: int)
    requires
        is_cutoff(table, seats, t),
    ensures
        cutoff(table, seats) == t,
{
    let u = cutoff(table, seats);
    assert(is_cutoff(table, seats, u));
    if u < t {
        lemma_total_monotone(table, u, t);
    } else if t < u {
        lemma_total_monotone(table, t, u);
    }
}

/// Finds the cutoff by bisection over the range of ranks.
pub fn find_cutoff(table: &Vec<Vec<u64>>, seats: usize) -> (t: i64)
    requires
        seats > 0,
        total_above(table@, i64::MIN - 1) >= seats,
    ensures
        is_cutoff(table@, seats as nat, t as int),
        cutoff(table@, seats as nat) == t,
{
    let mut lo: i128 = i64::MIN as i128 - 1;
    let mut hi: i128 = i64::MAX as i128;
    proof {
        lemma_total_extremes(table@);
    }
    while hi - lo > 1
        invariant
            i64::MIN - 1 <= lo < hi <= i64::MAX,
            total_above(table@, lo as int) >= seats,
            total_above(table@, hi as int) < seats,
        decreases hi - lo,
    {
        let mid: i128 = lo + (hi - lo) / 2;
        if exceeds(table, mid, seats - 1) {
            lo = mid;
        } else {
            hi = mid;
        }
    }
    proof {
        lemma_total_step(table@, hi as int);
        lemma_cutoff_unique(table@, seats as nat, hi as int);
    }
    hi as i64
}

} // verus!
