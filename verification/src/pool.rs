//! The label pool: the records grouped by their labels.

use vstd::prelude::*;
use crate::groups::{group_views, groups_of, TextGroups};
use crate::oracle::AliasPool;
use crate::record::{record_views, Record, RecordView};

verus! {

/// The labels of the records.
pub open spec fn labels_of(rs: Seq<RecordView>) -> Seq<Seq<char>> {
    rs.map_values(|r: RecordView| r.label)
}

/// The label groups: for each label the positions of the records that have
/// it, in ascending order; the groups in the order of their first records.
pub open spec fn label_groups(rs: Seq<RecordView>) -> Seq<Seq<int>> {
    groups_of(labels_of(rs))
}

/// Files the records under their labels.
pub fn file_labels(records: &Vec<Record>) -> (r: TextGroups)
    ensures
        r.well_formed(),
        r.keys() == labels_of(record_views(records@)),
{
    let ghost rs = record_views(records@);
    let mut filed = TextGroups::new();
    let mut i: usize = 0;
    assert(labels_of(rs).take(0) =~= Seq::<Seq<char>>::empty());
    while i < records.len()
        invariant
            i <= records.len(),
            rs == record_views(records@),
            filed.well_formed(),
            filed.keys() == labels_of(rs).take(i as int),
        decreases records.len() - i,
    {
        assert(rs[i as int] == records[i as int]@);
        filed.add(records[i].label.as_str());
        assert(labels_of(rs).take(i + 1) =~= labels_of(rs).take(i as int).push(rs[i as int].label));
        i = i + 1;
    }
    assert(labels_of(rs).take(records.len() as int) =~= labels_of(rs));
    filed
}

/// The pools of a run: the records filed under their labels, and their
/// aliases filed under their texts.
pub struct Pools {
    pub labels: TextGroups,
    pub aliases: AliasPool,
}

impl Pools {
    /// The pools hold the labels and the aliases of the records `rs`.
    pub open spec fn describe(&self, rs: Seq<RecordView>) -> bool {
        &&& self.labels.well_formed()
        &&& self.labels.keys() == labels_of(rs)
        &&& self.aliases.describes(rs)
    }

    /// Files the labels and the aliases of the records.
    pub fn build(records: &Vec<Record>) -> (r: Pools)
        ensures
            r.describe(record_views(records@)),
    {
        Pools { labels: file_labels(records), aliases: AliasPool::build(records) }
    }
}

/// Groups the records by their labels: for each label the positions of the
/// records that have it, in ascending order; the groups in the order of
/// their first records.
pub fn group_by_label(records: &Vec<Record>) -> (r: Vec<Vec<usize>>)
    ensures
        group_views(r@) == label_groups(record_views(records@)),
{
    file_labels(records).into_lists()
}

} // verus!
