//! Counting quotients against a rank: per party (a row) and over the table.

use vstd::prelude::*;
use crate::float::{rank, rank_of, lemma_rank_bounds};

verus! {

/// Number of quotients in `row` that rank strictly above `t`.
pub open spec fn count_above(row: Seq<u64>, t: int) -> nat
    decreases row.len(),
{
    if row.len() == 0 {
        0
    } else {
        count_above(row.drop_last(), t) + if rank(row.last()) > t {
            1nat
        } else {
            0nat
        }
    }
}

/// Number of quotients in `row` that rank exactly at `t`.
pub open spec fn count_at(row: Seq<u64>, t: int) -> nat
    decreases row.len(),
{
    if row.len() == 0 {
        0
    } else {
        count_at(row.drop_last(), t) + if rank(row.last()) == t {
            1nat
        } else {
            0nat
        }
    }
}

/// Number of quotients of the whole table that rank strictly above `t`.
pub open spec fn total_above(table: Seq<Vec<u64>>, t: int) -> nat
    decreases table.len(),
{
    if table.len() == 0 {
        0
    } else {
        total_above(table.drop_last(), t) + count_above(table.last()@, t)
    }
}

/// Number of quotients of the whole table that rank exactly at `t`.
pub open spec fn total_at(table: Seq<Vec<u64>>, t: int) -> nat
    decreases table.len(),
{
    if table.len() == 0 {
        0
    } else {
        total_at(table.drop_last(), t) + count_at(table.last()@, t)
    }
}

pub proof fn lemma_count_above_len(row: Seq<u64>, t: int)
    ensures
        count_above(row, t) <= row.len(),
        t < i64::MIN ==> count_above(row, t) == row.len(),
        t >= i64::MAX ==> count_above(row, t) == 0,
    decreases row.len(),
{
    if row.len() > 0 {
        lemma_rank_bounds(row.last());
        lemma_count_above_len(row.drop_last(), t);
    }
}

/// Lowering the rank by one takes in the quotients that stood at it.
pub proof fn lemma_count_step(row: Seq<u64>, t: int)
    ensures
        count_above(row, t - 1) == count_above(row, t) + count_at(row, t),
    decreases row.len(),
{
    if row.len() > 0 {
        lemma_count_step(row.drop_last(), t);
    }
}

/// Below a rank stand at least the quotients above and at it.
pub proof fn lemma_count_monotone(row: Seq<u64>, lo: int, hi: int)
    requires
        lo < hi,
    ensures
        count_above(row, lo) >= count_above(row, hi) + count_at(row, hi),
    decreases row.len(),
{
    if row.len() > 0 {
        lemma_count_monotone(row.drop_last(), lo, hi);
    }
}

/// A row whose quotients all rank below `t` has none above or at it.
pub proof fn lemma_count_below(row: Seq<u64>, t: int)
    requires
        forall|k: int| 0 <= k < row.len() ==> rank(#[trigger] row[k]) < t,
    ensures
        count_above(row, t) == 0,
        count_at(row, t) == 0,
    decreases row.len(),
{
    if row.len() > 0 {
        assert(rank(row[row.len() - 1]) < t);
        lemma_count_below(row.drop_last(), t);
    }
}

pub proof fn lemma_total_step(table: Seq<Vec<u64>>, t: int)
    ensures
        total_above(table, t - 1) == total_above(table, t) + total_at(table, t),
    decreases table.len(),
{
    if table.len() > 0 {
        lemma_count_step(table.last()@, t);
        lemma_total_step(table.drop_last(), t);
    }
}

pub proof fn lemma_total_monotone(table: Seq<Vec<u64>>, lo: int, hi: int)
    requires
        lo < hi,
    ensures
        total_above(table, lo) >= total_above(table, hi) + total_at(table, hi),
    decreases table.len(),
{
    if table.len() > 0 {
        lemma_count_monotone(table.last()@, lo, hi);
        lemma_total_monotone(table.drop_last(), lo, hi);
    }
}

pub proof fn lemma_total_prefix(table: Seq<Vec<u64>>, j: int, t: int)
    requires
        0 <= j <= table.len(),
    ensures
        total_above(table.subrange(0, j), t) <= total_above(table, t),
        total_at(table.subrange(0, j), t) <= total_at(table, t),
    decreases table.len(),
{
    if j == table.len() {
        assert(table.subrange(0, j) =~= table);
    } else {
        assert(table.drop_last().subrange(0, j) =~= table.subrange(0, j));
        lemma_total_prefix(table.drop_last(), j, t);
    }
}

pub proof fn lemma_total_covers_row(table: Seq<Vec<u64>>, j: int, t: int)
    requires
        0 <= j < table.len(),
    ensures
        count_above(table[j]@, t) <= total_above(table, t),
    decreases table.len(),
{
    if j < table.len() - 1 {
        lemma_total_covers_row(table.drop_last(), j, t);
    }
}

pub proof fn lemma_total_extremes(table: Seq<Vec<u64>>)
    ensures
        total_above(table, i64::MAX as int) == 0,
    decreases table.len(),
{
    if table.len() > 0 {
        lemma_count_above_len(table.last()@, i64::MAX as int);
        lemma_total_extremes(table.drop_last());
    }
}

/// Counts the quotients of `row` that rank strictly above `t`.
pub fn row_above(row: &Vec<u64>, t: i128) -> (c: usize)
    ensures
        c == count_above(row@, t as int),
        c <= row@.len(),
{
    let mut c: usize = 0;
    let mut k: usize = 0;
    while k < row.len()
        invariant
            k <= row@.len(),
            c <= k,
            c == count_above(row@.subrange(0, k as int), t as int),
        decreases row@.len() - k,
    {
        assert(row@.subrange(0, k + 1).drop_last() =~= row@.subrange(0, k as int));
        if rank_of(row[k]) as i128 > t {
            c = c + 1;
        }
        k = k + 1;
    }
    assert(row@.subrange(0, k as int) =~= row@);
    c
}

/// Counts the quotients of `row` that rank exactly at `t`.
pub fn row_at(row: &Vec<u64>, t: i64) -> (c: usize)
    ensures
        c == count_at(row@, t as int),
        c <= row@.len(),
{
    let mut c: usize = 0;
    let mut k: usize = 0;
    while k < row.len()
        invariant
            k <= row@.len(),
            c <= k,
            c == count_at(row@.subrange(0, k as int), t as int),
        decreases row@.len() - k,
    {
        assert(row@.subrange(0, k + 1).drop_last() =~= row@.subrange(0, k as int));
        if rank_of(row[k]) == t {
            c = c + 1;
        }
        k = k + 1;
    }
    assert(row@.subrange(0, k as int) =~= row@);
    c
}

/// Decides whether more than `n` quotients of the table rank strictly above `t`.
pub fn exceeds(table: &Vec<Vec<u64>>, t: i128, n: usize) -> (b: bool)
    ensures
        b == (total_above(table@, t as int) > n),
{
    let mut c: usize = 0;
    let mut i: usize = 0;
    while i < table.len()
        invariant
            i <= table@.len(),
            c <= n,
            c == total_above(table@.subrange(0, i as int), t as int),
        decreases table@.len() - i,
    {
        assert(table@.subrange(0, i + 1).drop_last() =~= table@.subrange(0, i as int));
        let here = row_above(&table[i], t);
        if here > n - c {
            proof {
                lemma_total_prefix(table@, i + 1, t as int);
            }
            return true;
        }
        c = c + here;
        i = i + 1;
    }
    assert(table@.subrange(0, i as int) =~= table@);
    false
}

} // verus!
