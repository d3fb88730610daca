//! What holds of every outcome of [`crate::distribute`].

use vstd::prelude::*;
use crate::apportion::{is_outcome, is_quotient_table, sum};
use crate::count::lemma_count_below;
use crate::cutoff::{cutoff, is_tied};
use crate::error::DistributionError;
use crate::float::{is_zero, rank};

verus! {

/// Conservation: an apportionment hands out exactly the seats asked for.
pub proof fn law_conservation(
    votes: Seq<u64>,
    table: Seq<Vec<u64>>,
    seats: nat,
    draw_on_tie: bool,
    r: Result<Vec<usize>, DistributionError>,
)
    requires
        is_outcome(votes, table, seats, draw_on_tie, r),
        r is Ok,
    ensures
        sum(r->Ok_0@) == seats,
{
}

/// Shape: an apportionment has one seat count per party, none below zero.
pub proof fn law_shape(
    votes: Seq<u64>,
    table: Seq<Vec<u64>>,
    seats: nat,
    draw_on_tie: bool,
    r: Result<Vec<usize>, DistributionError>,
)
    requires
        is_quotient_table(votes, table, seats),
        is_outcome(votes, table, seats, draw_on_tie, r),
        r is Ok,
    ensures
        r->Ok_0@.len() == votes.len(),
        forall|i: int| 0 <= i < votes.len() ==> #[trigger] r->Ok_0@[i] >= 0,
{
}

/// A party without votes wins no seat. Its quotients are all zero, as
/// division makes them; the law needs the cutoff to rank above zero, that is
/// at least as many quotients above zero as there are seats.
pub proof fn law_zero_vote_excluded(
    votes: Seq<u64>,
    table: Seq<Vec<u64>>,
    seats: nat,
    draw_on_tie: bool,
    r: Result<Vec<usize>, DistributionError>,
    i: int,
)
    requires
        is_quotient_table(votes, table, seats),
        0 <= i < votes.len(),
        is_zero(votes[i]),
        forall|k: int| 0 <= k < seats ==> rank(#[trigger] table[i]@[k]) == 0,
        cutoff(table, seats) > 0,
        is_outcome(votes, table, seats, draw_on_tie, r),
        r is Ok,
    ensures
        r->Ok_0@[i] == 0,
{
    let row = table[i]@;
    assert forall|k: int| 0 <= k < row.len() implies rank(#[trigger] row[k]) < cutoff(
        table,
        seats,
    ) by {}
    lemma_count_below(row, cutoff(table, seats));
}

/// Without a tie at the cutoff the outcome is determined by the input alone,
/// whatever the tie policy.
pub proof fn law_determined_without_tie(
    votes: Seq<u64>,
    table: Seq<Vec<u64>>,
    seats: nat,
    draw_a: bool,
    draw_b: bool,
    a: Result<Vec<usize>, DistributionError>,
    b: Result<Vec<usize>, DistributionError>,
)
    requires
        !is_tied(table, seats),
        is_outcome(votes, table, seats, draw_a, a),
        is_outcome(votes, table, seats, draw_b, b),
    ensures
        a is Ok <==> b is Ok,
        a is Err ==> a == b,
        a is Ok ==> a->Ok_0@ == b->Ok_0@,
{
    if a is Ok {
        assert(a->Ok_0@ =~= b->Ok_0@);
    }
}

} // verus!
