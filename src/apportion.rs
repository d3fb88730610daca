//! The Sainte-Laguë apportionment itself.

use vstd::prelude::*;
use crate::count::{count_above, count_at, total_above, total_at, row_above, exceeds,
    lemma_count_step, lemma_count_above_len, lemma_total_step, lemma_total_prefix,
    lemma_total_covers_row};
use crate::cutoff::{cutoff, is_tied, find_cutoff};
use crate::draw::{occurrences, choose_multiple, lemma_occurrences_count, lemma_occurrences_prefix};
use crate::error::DistributionError;
use crate::float::{is_negative, is_zero, is_negative_bits, is_zero_bits, rank, rank_of};

verus! {

/// The sum of a sequence of seat counts.
pub open spec fn sum(s: Seq<usize>) -> int
    decreases s.len(),
{
    if s.len() == 0 {
        0
    } else {
        sum(s.drop_last()) + s.last()
    }
}

/// Some vote is below zero.
pub open spec fn has_negative(votes: Seq<u64>) -> bool {
    exists|i: int| 0 <= i < votes.len() && is_negative(#[trigger] votes[i])
}

/// Every vote is zero (so also when there are none).
pub open spec fn all_zero(votes: Seq<u64>) -> bool {
    forall|i: int| 0 <= i < votes.len() ==> is_zero(#[trigger] votes[i])
}

/// The table holds one row per party, and each row one quotient per seat:
/// row `i` holds the bit patterns of `votes[i] / 0.5`, `votes[i] / 1.5`, ...
pub open spec fn is_quotient_table(votes: Seq<u64>, table: Seq<Vec<u64>>, seats: nat) -> bool {
    &&& table.len() == votes.len()
    &&& forall|i: int| 0 <= i < table.len() ==> (#[trigger] table[i])@.len() == seats
}

/// `s` gives each party the seats of its quotients above the cutoff, and
/// some of those at it, `seats` in all; when there is no tie, all of those
/// at it.
pub open spec fn fills_seats(table: Seq<Vec<u64>>, seats: nat, s: Seq<usize>) -> bool {
    let t = cutoff(table, seats);
    &&& s.len() == table.len()
    &&& sum(s) == seats
    &&& forall|i: int|
        0 <= i < s.len() ==> count_above(table[i]@, t) <= #[trigger] s[i] <= count_above(
            table[i]@,
            t,
        ) + count_at(table[i]@, t)
    &&& !is_tied(table, seats) ==> forall|i: int|
        0 <= i < s.len() ==> #[trigger] s[i] == count_above(table[i]@, t) + count_at(table[i]@, t)
}

/// What [`distribute`] may return: the checks in their order, then the
/// apportionment.
pub open spec fn is_outcome(
    votes: Seq<u64>,
    table: Seq<Vec<u64>>,
    seats: nat,
    draw_on_tie: bool,
    r: Result<Vec<usize>, DistributionError>,
) -> bool {
    if seats < 1 {
        r == Err::<Vec<usize>, DistributionError>(DistributionError::InvalidSeatCount)
    } else if has_negative(votes) {
        r == Err::<Vec<usize>, DistributionError>(DistributionError::NegativeVotes)
    } else if all_zero(votes) {
        r == Err::<Vec<usize>, DistributionError>(DistributionError::NoVotes)
    } else if is_tied(table, seats) && !draw_on_tie {
        r == Err::<Vec<usize>, DistributionError>(DistributionError::Tied)
    } else {
        r is Ok && fills_seats(table, seats, r->Ok_0@)
    }
}

proof fn lemma_sum_update(s: Seq<usize>, j: int, v: usize)
    requires
        0 <= j < s.len(),
    ensures
        sum(s.update(j, v)) == sum(s) - s[j] + v,
    decreases s.len(),
{
    if j < s.len() - 1 {
        assert(s.update(j, v).drop_last() =~= s.drop_last().update(j, v));
        lemma_sum_update(s.drop_last(), j, v);
    } else {
        assert(s.update(j, v).drop_last() =~= s.drop_last());
    }
}

/// Apportions `*seat_count` seats by the Sainte-Laguë method.
///
/// `votes[i]` is the bit pattern of party `i`'s vote, and `quotients[i][k]`
/// that of `votes[i] / (k + 0.5)`. A quotient wins a seat when it ranks above
/// the cutoff, the rank of the `*seat_count`-th quotient in descending order.
/// When the quotients at the cutoff are more than the seats left for them,
/// the result is [`DistributionError::Tied`], or with `*draw_on_tie` a
/// random draw among them. A NaN quotient ranks below every number, so it
/// wins a seat only when fewer numbers than seats are left.
pub fn distribute(
    votes: &[u64],
    quotients: &Vec<Vec<u64>>,
    seat_count: &usize,
    draw_on_tie: &bool,
) -> (r: Result<Vec<usize>, DistributionError>)
    requires
        is_quotient_table(votes@, quotients@, *seat_count as nat),
    ensures
        is_outcome(votes@, quotients@, *seat_count as nat, *draw_on_tie, r),
{
    let seats = *seat_count;
    if seats < 1 {
        return Err(DistributionError::InvalidSeatCount);
    }
    let mut i: usize = 0;
    while i < votes.len()
        invariant
            seats == *seat_count,
            seats >= 1,
            i <= votes@.len(),
            forall|j: int| 0 <= j < i ==> !is_negative(#[trigger] votes@[j]),
        decreases votes@.len() - i,
    {
        if is_negative_bits(votes[i]) {
            assert(is_negative(votes@[i as int]));
            assert(has_negative(votes@));
            return Err(DistributionError::NegativeVotes);
        }
        i = i + 1;
    }
    let mut i: usize = 0;
    let mut found: bool = false;
    while i < votes.len() && !found
        invariant
            seats == *seat_count,
            seats >= 1,
            !has_negative(votes@),
            i <= votes@.len(),
            found ==> 0 < i && !is_zero(votes@[i - 1]),
            !found ==> forall|j: int| 0 <= j < i ==> is_zero(#[trigger] votes@[j]),
        decreases votes@.len() - i,
    {
        found = !is_zero_bits(votes[i]);
        i = i + 1;
    }
    if !found {
        return Err(DistributionError::NoVotes);
    }
    assert(!all_zero(votes@));
    let ghost table = quotients@;
    proof {
        lemma_total_covers_row(table, 0, i64::MIN - 1);
        lemma_count_above_len(table[0]@, i64::MIN - 1);
    }
    let t = find_cutoff(quotients, seats);
    proof {
        lemma_total_step(table, t as int);
    }
    let tied = exceeds(quotients, t as i128 - 1, seats);
    if tied && !*draw_on_tie {
        return Err(DistributionError::Tied);
    }
    let parties = quotients.len();
    let mut r: Vec<usize> = Vec::new();
    if !tied {
        let mut i: usize = 0;
        while i < parties
            invariant
                parties == table.len(),
                table == quotients@,
                i <= parties,
                r@.len() == i,
                sum(r@) == total_above(table.subrange(0, i as int), t - 1),
                forall|p: int|
                    0 <= p < i ==> #[trigger] r@[p] == count_above(table[p]@, t - 1),
            decreases parties - i,
        {
            assert(table.subrange(0, i + 1).drop_last() =~= table.subrange(0, i as int));
            let seats_here = row_above(&quotients[i], t as i128 - 1);
            let ghost before = r@;
            r.push(seats_here);
            assert(r@.drop_last() =~= before);
            i = i + 1;
        }
        assert(table.subrange(0, parties as int) =~= table);
        assert forall|p: int| 0 <= p < r@.len() implies #[trigger] r@[p] == count_above(
            table[p]@,
            t as int,
        ) + count_at(table[p]@, t as int) by {
            lemma_count_step(table[p]@, t as int);
        }
        return Ok(r);
    }
    // A draw: every party keeps the seats above the cutoff, and lots are
    // drawn among the quotients at it for the seats that are left.

    let mut above: usize = 0;
    let mut pool: Vec<usize> = Vec::new();
    let mut i: usize = 0;
    while i < parties
        invariant
            parties == table.len(),
            table == quotients@,
            i <= parties,
            total_above(table, t as int) < seats,
            r@.len() == i,
            above == sum(r@),
            above == total_above(table.subrange(0, i as int), t as int),
            pool@.len() == total_at(table.subrange(0, i as int), t as int),
            forall|p: int| 0 <= p < i ==> #[trigger] r@[p] == count_above(table[p]@, t as int),
            forall|p: usize|
                #[trigger] occurrences(pool@, p) == if p < i {
                    count_at(table[p as int]@, t as int)
                } else {
                    0
                },
        decreases parties - i,
    {
        assert(table.subrange(0, i + 1).drop_last() =~= table.subrange(0, i as int));
        let row = &quotients[i];
        let seats_here = row_above(row, t as i128);
        proof {
            lemma_total_prefix(table, i + 1, t as int);
        }
        let ghost before = r@;
        r.push(seats_here);
        assert(r@.drop_last() =~= before);
        above = above + seats_here;
        let ghost pool_before = pool@;
        let mut k: usize = 0;
        while k < row.len()
            invariant
                parties == table.len(),
                table == quotients@,
                i < parties,
                row@ == table[i as int]@,
                k <= row@.len(),
                pool@.len() == pool_before.len() + count_at(row@.subrange(0, k as int), t as int),
                forall|p: usize|
                    #[trigger] occurrences(pool@, p) == if p < i {
                        count_at(table[p as int]@, t as int)
                    } else if p == i {
                        count_at(row@.subrange(0, k as int), t as int)
                    } else {
                        0
                    },
            decreases row@.len() - k,
        {
            assert(row@.subrange(0, k + 1).drop_last() =~= row@.subrange(0, k as int));
            let ghost before = pool@;
            if rank_of(row[k]) == t {
                pool.push(i);
                assert(pool@.drop_last() =~= before);
            }
            proof {
                assert forall|p: usize|
                    #[trigger] occurrences(pool@, p) == if p < i {
                        count_at(table[p as int]@, t as int)
                    } else if p == i {
                        count_at(row@.subrange(0, k + 1), t as int)
                    } else {
                        0
                    } by {
                    assert(occurrences(before, p) == if p < i {
                        count_at(table[p as int]@, t as int)
                    } else if p == i {
                        count_at(row@.subrange(0, k as int), t as int)
                    } else {
                        0
                    });
                }
            }
            k = k + 1;
        }
        assert(row@.subrange(0, k as int) =~= row@);
        i = i + 1;
    }
    assert(table.subrange(0, parties as int) =~= table);
    let amount = seats - above;
    let drawn = choose_multiple(&pool, amount);
    let mut j: usize = 0;
    while j < drawn.len()
        invariant
            parties == table.len(),
            table == quotients@,
            drawn@.len() == amount,
            above + amount == seats,
            is_quotient_table(votes@, table, seats as nat),
            drawn@.to_multiset().subset_of(pool@.to_multiset()),
            j <= drawn@.len(),
            r@.len() == parties,
            sum(r@) == above + j,
            forall|p: usize| #[trigger] occurrences(pool@, p) == if p < parties {
                count_at(table[p as int]@, t as int)
            } else {
                0
            },
            forall|p: int|
                0 <= p < parties ==> #[trigger] r@[p] == count_above(table[p]@, t as int)
                    + occurrences(drawn@.subrange(0, j as int), p as usize),
        decreases drawn@.len() - j,
    {
        let p = drawn[j];
        proof {
            lemma_occurrences_count(drawn@, p);
            lemma_occurrences_count(pool@, p);
            assert(drawn@.subrange(0, j + 1).drop_last() =~= drawn@.subrange(0, j as int));
            lemma_occurrences_prefix(drawn@, j + 1, p);
            assert(drawn@.to_multiset().count(p) >= 1) by {
                broadcast use vstd::seq_lib::group_to_multiset_ensures;
                assert(drawn@.contains(p));
            }
            lemma_count_step(table[p as int]@, t as int);
            lemma_count_above_len(table[p as int]@, t - 1);
            assert(occurrences(drawn@.subrange(0, j as int), p) < occurrences(drawn@, p));
            assert(occurrences(drawn@, p) <= occurrences(pool@, p));
            assert(p < parties);
            assert(r@[p as int] < count_above(table[p as int]@, t - 1));
        }
        let v = r[p] + 1;
        proof {
            lemma_sum_update(r@, p as int, v);
        }
        r.set(p, v);
        proof {
            assert forall|q: int| 0 <= q < parties implies #[trigger] r@[q] == count_above(
                table[q]@,
                t as int,
            ) + occurrences(drawn@.subrange(0, j + 1), q as usize) by {
                assert(drawn@.subrange(0, j + 1).drop_last() =~= drawn@.subrange(0, j as int));
            }
        }
        j = j + 1;
    }
    proof {
        assert(drawn@.subrange(0, j as int) =~= drawn@);
        assert forall|p: int| 0 <= p < parties implies #[trigger] r@[p] <= count_above(
            table[p]@,
            t as int,
        ) + count_at(table[p]@, t as int) by {
            lemma_occurrences_count(drawn@, p as usize);
            lemma_occurrences_count(pool@, p as usize);
        }
    }
    Ok(r)
}

} // verus!
