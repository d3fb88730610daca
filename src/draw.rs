//! Drawing lots among tied candidates.

use rand::seq::SliceRandom;
use vstd::prelude::*;

verus! {

/// How often `p` occurs in `s`.
pub open spec fn occurrences(s: Seq<usize>, p: usize) -> nat
    decreases s.len(),
{
    if s.len() == 0 {
        0
    } else {
        occurrences(s.drop_last(), p) + if s.last() == p {
            1nat
        } else {
            0nat
        }
    }
}

pub proof fn lemma_occurrences_count(s: Seq<usize>, p: usize)
    ensures
        occurrences(s, p) == s.to_multiset().count(p),
    decreases s.len(),
{
    broadcast use vstd::seq_lib::group_to_multiset_ensures;

    if s.len() > 0 {
        lemma_occurrences_count(s.drop_last(), p);
        assert(s.drop_last().push(s.last()) =~= s);
    } else {
        assert(s.to_multiset().len() == 0);
    }
}

pub proof fn lemma_occurrences_prefix(s: Seq<usize>, j: int, p: usize)
    requires
        0 <= j <= s.len(),
    ensures
        occurrences(s.subrange(0, j), p) <= occurrences(s, p),
    decreases s.len(),
{
    if j == s.len() {
        assert(s.subrange(0, j) =~= s);
    } else {
        assert(s.drop_last().subrange(0, j) =~= s.subrange(0, j));
        lemma_occurrences_prefix(s.drop_last(), j, p);
    }
}

/// Relies on rand's `SliceRandom::choose_multiple` for slices, with the
/// thread-local generator: it samples `min(amount, len)` distinct positions
/// of the slice and yields the items there, so that the result holds
/// `amount` of the pool's items, each at most as often as the pool does.
#[verifier::external_body]
pub(crate) fn choose_multiple(pool: &Vec<usize>, amount: usize) -> (r: Vec<usize>)
    requires
        amount <= pool@.len(),
    ensures
        r@.len() == amount,
        r@.to_multiset().subset_of(pool@.to_multiset()),
{
    pool.as_slice().choose_multiple(&mut rand::thread_rng(), amount).cloned().collect()
}

} // verus!
