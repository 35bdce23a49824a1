//! Orderings: pairs of numbers in ascending order, and the records of a run
//! from the most frequent to the least.

use vstd::prelude::*;
use vstd::relations::{sorted_by, total_ordering};
use vstd::seq_lib::lemma_sorted_unique;
use itertools::Itertools;
use crate::record::{record_views, Record, RecordView};

verus! {

/// `a` is not after `b`: pairs go by their first number, then by their
/// second.
pub open spec fn pair_le(a: (usize, usize), b: (usize, usize)) -> bool {
    a.0 < b.0 || (a.0 == b.0 && a.1 <= b.1)
}

/// `items` in ascending order.
pub open spec fn ascending(items: Seq<(usize, usize)>) -> Seq<(usize, usize)> {
    items.sort_by(|a: (usize, usize), b: (usize, usize)| pair_le(a, b))
}

/// `Itertools::sorted` on pairs of numbers: the result holds the same pairs
/// as `items`, each as often, and no pair in it stands before a smaller one.
/// Tuples compare by their first field, then by their second.
#[verifier::external_body]
fn sorted_pairs(items: Vec<(usize, usize)>) -> (r: Vec<(usize, usize)>)
    ensures
        r@.to_multiset() == items@.to_multiset(),
        forall|a: int, b: int| 0 <= a < b < r.len() ==> pair_le(r[a], r[b]),
{
    items.into_iter().sorted().collect()
}

pub proof fn lemma_pair_le_total()
    ensures
        total_ordering(|a: (usize, usize), b: (usize, usize)| pair_le(a, b)),
{
    let leq = |a: (usize, usize), b: (usize, usize)| pair_le(a, b);
    assert forall|x: (usize, usize), y: (usize, usize)| #[trigger]
        leq(x, y) && #[trigger] leq(y, x) implies x == y by {
        assert(x.0 == y.0 && x.1 == y.1);
    }
}

/// Sorts pairs of numbers in ascending order.
pub fn sort_pairs(items: Vec<(usize, usize)>) -> (r: Vec<(usize, usize)>)
    ensures
        r@ == ascending(items@),
{
    let ghost before = items@;
    let r = sorted_pairs(items);
    proof {
        let leq = |a: (usize, usize), b: (usize, usize)| pair_le(a, b);
        lemma_pair_le_total();
        before.lemma_sort_by_ensures(leq);
        assert(sorted_by(r@, leq)) by {
            assert forall|i: int, j: int| 0 <= i < j < r@.len() implies #[trigger] leq(
                r@[i],
                r@[j],
            ) by {
                assert(pair_le(r[i], r[j]));
            }
        }
        lemma_sorted_unique(r@, before.sort_by(leq), leq);
    }
    r
}

/// For each record its sort key: the frequency counted down from the
/// largest number, then the position.
pub open spec fn ranking(rs: Seq<RecordView>) -> Seq<(usize, usize)> {
    Seq::new(rs.len(), |i: int| ((usize::MAX - rs[i].frequency) as usize, i as usize))
}

/// The positions of the records from the most frequent to the least; among
/// records of one frequency the earlier one first.
pub open spec fn frequency_order(rs: Seq<RecordView>) -> Seq<int> {
    ascending(ranking(rs)).map_values(|p: (usize, usize)| p.1 as int)
}

/// Every member of the frequency order is the position of a record.
pub proof fn lemma_frequency_order_in_range(rs: Seq<RecordView>)
    requires
        rs.len() <= usize::MAX,
    ensures
        frequency_order(rs).len() == rs.len(),
        forall|a: int|
            0 <= a < rs.len() ==> 0 <= #[trigger] frequency_order(rs)[a] < rs.len(),
{
    let leq = |a: (usize, usize), b: (usize, usize)| pair_le(a, b);
    let keys = ranking(rs);
    let sorted = ascending(keys);
    lemma_pair_le_total();
    keys.lemma_sort_by_ensures(leq);
    keys.to_multiset_ensures();
    sorted.to_multiset_ensures();
    assert(sorted.len() == keys.len());
    assert forall|a: int| 0 <= a < rs.len() implies 0 <= #[trigger] frequency_order(rs)[a]
        < rs.len() by {
        let x = sorted[a];
        assert(sorted.contains(x));
        assert(keys.contains(x));
        let j = choose|j: int| 0 <= j < keys.len() && keys[j] == x;
        assert(x.1 == j);
    }
}

/// The positions of the records from the most frequent to the least; among
/// records of one frequency the earlier one first.
pub fn records_by_frequency(records: &Vec<Record>) -> (order: Vec<usize>)
    ensures
        order@.map_values(|p: usize| p as int) == frequency_order(record_views(records@)),
        order.len() == records.len(),
        forall|a: int| 0 <= a < order.len() ==> order[a] < records.len(),
{
    let ghost rs = record_views(records@);
    let mut keys: Vec<(usize, usize)> = Vec::new();
    let mut i: usize = 0;
    while i < records.len()
        invariant
            i <= records.len(),
            rs == record_views(records@),
            keys.len() == i,
            forall|k: int| 0 <= k < i ==> keys[k] == ranking(rs)[k],
        decreases records.len() - i,
    {
        assert(rs[i as int] == records[i as int]@);
        keys.push((usize::MAX - records[i].frequency, i));
        i = i + 1;
    }
    assert(keys@ =~= ranking(rs));
    let sorted = sort_pairs(keys);
    proof {
        lemma_frequency_order_in_range(rs);
    }
    let mut order: Vec<usize> = Vec::new();
    let mut a: usize = 0;
    while a < sorted.len()
        invariant
            a <= sorted.len(),
            sorted@ == ascending(ranking(rs)),
            sorted.len() == rs.len(),
            order.len() == a,
            forall|k: int| 0 <= k < a ==> order[k] as int == frequency_order(rs)[k],
        decreases sorted.len() - a,
    {
        order.push(sorted[a].1);
        a = a + 1;
    }
    assert(order@.map_values(|p: usize| p as int) =~= frequency_order(rs));
    order
}

} // verus!
