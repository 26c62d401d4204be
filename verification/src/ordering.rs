//! Sorting whole numbers and finding their middle.
use vstd::prelude::*;

use crate::arbitrage::ascending;

verus! {

/// Whether the second sequence is the first in ascending order.
pub open spec fn sorts(values: Seq<i64>, sorted: Seq<i64>) -> bool {
    ascending(sorted) && sorted.to_multiset() == values.to_multiset()
}

fn merge(a: &Vec<i64>, b: &Vec<i64>) -> (merged: Vec<i64>)
    requires
        ascending(a@),
        ascending(b@),
    ensures
        ascending(merged@),
        merged@.to_multiset() == a@.to_multiset().add(b@.to_multiset()),
{
    broadcast use vstd::seq_lib::group_to_multiset_ensures;

    let mut merged: Vec<i64> = Vec::with_capacity(a.len().saturating_add(b.len()));
    let mut i: usize = 0;
    let mut j: usize = 0;
    proof {
        assert(a@.take(0) =~= Seq::<i64>::empty());
        assert(b@.take(0) =~= Seq::<i64>::empty());
        assert(merged@.to_multiset() =~= a@.take(0).to_multiset().add(b@.take(0).to_multiset()));
    }
    while i < a.len() || j < b.len()
        invariant
            i <= a@.len(),
            j <= b@.len(),
            ascending(a@),
            ascending(b@),
            ascending(merged@),
            merged@.to_multiset() == a@.take(i as int).to_multiset().add(
                b@.take(j as int).to_multiset(),
            ),
            forall|k: int, l: int|
                0 <= k < merged@.len() && i <= l < a@.len() ==> #[trigger] merged@[k]
                    <= #[trigger] a@[l],
            forall|k: int, l: int|
                0 <= k < merged@.len() && j <= l < b@.len() ==> #[trigger] merged@[k]
                    <= #[trigger] b@[l],
        decreases a@.len() - i + b@.len() - j,
    {
        broadcast use vstd::seq_lib::group_to_multiset_ensures;

        let ghost before = merged@;
        if j >= b.len() || (i < a.len() && a[i] <= b[j]) {
            merged.push(a[i]);
            proof {
                assert(a@.take(i + 1) =~= a@.take(i as int).push(a@[i as int]));
                assert(merged@.to_multiset() =~= a@.take(i + 1).to_multiset().add(
                    b@.take(j as int).to_multiset(),
                ));
            }
            i = i + 1;
        } else {
            merged.push(b[j]);
            proof {
                assert(b@.take(j + 1) =~= b@.take(j as int).push(b@[j as int]));
                assert(merged@.to_multiset() =~= a@.take(i as int).to_multiset().add(
                    b@.take(j + 1).to_multiset(),
                ));
            }
            j = j + 1;
        }
    }
    proof {
        assert(a@.take(i as int) =~= a@);
        assert(b@.take(j as int) =~= b@);
    }
    merged
}

fn sort_range(values: &Vec<i64>, low: usize, high: usize) -> (sorted: Vec<i64>)
    requires
        low <= high <= values@.len(),
    ensures
        sorts(values@.subrange(low as int, high as int), sorted@),
    decreases high - low,
{
    if high - low <= 1 {
        let mut sorted: Vec<i64> = Vec::new();
        if high > low {
            sorted.push(values[low]);
        }
        proof {
            assert(sorted@ =~= values@.subrange(low as int, high as int));
        }
        return sorted;
    }
    let middle: usize = low + (high - low) / 2;
    let left = sort_range(values, low, middle);
    let right = sort_range(values, middle, high);
    proof {
        let a = values@.subrange(low as int, middle as int);
        let b = values@.subrange(middle as int, high as int);
        assert(a + b =~= values@.subrange(low as int, high as int));
        vstd::seq_lib::lemma_multiset_commutative(a, b);
    }
    merge(&left, &right)
}

/// The values in ascending order.
pub fn sort(values: &Vec<i64>) -> (sorted: Vec<i64>)
    ensures
        sorts(values@, sorted@),
        sorted@.len() == values@.len(),
{
    let sorted = sort_range(values, 0, values.len());
    proof {
        broadcast use vstd::seq_lib::group_to_multiset_ensures;

        assert(values@.subrange(0, values@.len() as int) =~= values@);
        assert(sorted@.to_multiset().len() == values@.to_multiset().len());
    }
    sorted
}

/// There is one ascending order of values.
pub proof fn law_sorted_unique(values: Seq<i64>, a: Seq<i64>, b: Seq<i64>)
    requires
        sorts(values, a),
        sorts(values, b),
    ensures
        a == b,
{
    let leq = |x: i64, y: i64| x <= y;
    assert(vstd::relations::sorted_by(a, leq));
    assert(vstd::relations::sorted_by(b, leq));
    vstd::seq_lib::lemma_sorted_unique(a, b, leq);
}

/// The two middle values in ascending order, which are one where the number of
/// values is odd; nothing where there are none.
pub fn median_sample_count(values: &Vec<i64>) -> (middle: Option<(i64, i64)>)
    ensures
        match middle {
            Some((low, high)) => values@.len() > 0 && exists|sorted: Seq<i64>|
                #[trigger] sorts(values@, sorted) && sorted.len() == values@.len() && low
                    == sorted[(values@.len() - 1) / 2] && high == sorted[values@.len() as int / 2],
            None => values@.len() == 0,
        },
{
    let count: usize = values.len();
    if count == 0 {
        return None;
    }
    let sorted = sort(values);
    proof {
        assert(sorts(values@, sorted@));
    }
    Some((sorted[(count - 1) / 2], sorted[count / 2]))
}

} // verus!
