//! Ascending order on nanosecond quantities, and the one call into std's sort.
use vstd::prelude::*;
use vstd::relations::{sorted_by, total_ordering};

verus! {

/// The order in which timestamps and intervals are sorted: ascending.
pub open spec fn ascending_le() -> spec_fn(u64, u64) -> bool {
    |a: u64, b: u64| a <= b
}

/// The values of `s` in ascending order (a sorted permutation of `s`).
pub open spec fn ascending(s: Seq<u64>) -> Seq<u64> {
    s.sort_by(ascending_le())
}

/// `s` is in ascending order.
pub open spec fn is_ascending(s: Seq<u64>) -> bool {
    sorted_by(s, ascending_le())
}

pub proof fn lemma_ascending_le_total()
    ensures
        total_ordering(ascending_le()),
{
}

/// `ascending(s)` is sorted and holds exactly the values of `s`.
pub proof fn lemma_ascending_properties(s: Seq<u64>)
    ensures
        is_ascending(ascending(s)),
        ascending(s).to_multiset() == s.to_multiset(),
        ascending(s).len() == s.len(),
{
    lemma_ascending_le_total();
    s.lemma_sort_by_ensures(ascending_le());
    assert(ascending(s).len() == s.len()) by {
        broadcast use vstd::seq_lib::group_to_multiset_ensures;

        assert(ascending(s).to_multiset().len() == ascending(s).len());
        assert(s.to_multiset().len() == s.len());
    }
}

/// A sorted permutation of `s` is `ascending(s)`.
pub proof fn lemma_ascending_unique(s: Seq<u64>, t: Seq<u64>)
    requires
        is_ascending(t),
        t.to_multiset() == s.to_multiset(),
    ensures
        t == ascending(s),
{
    lemma_ascending_le_total();
    lemma_ascending_properties(s);
    vstd::seq_lib::lemma_sorted_unique(t, ascending(s), ascending_le());
}

/// Sorts `v` in ascending order with `slice::sort`.
/// Claim on std's `sort`: afterwards the slice is in ascending order and holds the same
/// values as before, each as many times.
#[verifier::external_body]
fn std_sort_u64(v: &mut Vec<u64>)
    ensures
        is_ascending(final(v)@),
        final(v)@.to_multiset() == old(v)@.to_multiset(),
{
    v.sort();
}

/// Sorts `v` in ascending order.
pub fn sort_ascending(v: &mut Vec<u64>)
    ensures
        final(v)@ == ascending(old(v)@),
        final(v)@.len() == old(v)@.len(),
{
    std_sort_u64(v);
    proof {
        lemma_ascending_unique(old(v)@, v@);
        lemma_ascending_properties(old(v)@);
    }
}

} // verus!
