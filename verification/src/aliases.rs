//! Alias keys: each record in turn, from the most frequent down, takes the
//! aliases that nobody has taken yet.

use vstd::prelude::*;
use crate::index::{has_key, Assignment, Entry, EntryView, Index};
use crate::record::{record_views, Record, RecordView};

verus! {

/// The entry that gives record `p` its alias number `a`, bare.
pub open spec fn alias_entry(rs: Seq<RecordView>, p: int, a: int) -> EntryView {
    EntryView { text: rs[p].aliases[a], qualifier: None, record: p, kind: Assignment::Alias }
}

/// The entry that gives record `p` its alias number `a` with its qualifier.
pub open spec fn qualified_alias_entry(rs: Seq<RecordView>, p: int, a: int) -> EntryView {
    EntryView {
        text: rs[p].aliases[a],
        qualifier: Some(rs[p].qualifier),
        record: p,
        kind: Assignment::AliasQualified,
    }
}

/// The index after record `p` has had its turn at its alias number `a`: the
/// bare alias if that key is free; else, where the record has a qualifier,
/// the alias with the qualifier if that key is free; else nothing.
pub open spec fn alias_step(idx: Seq<EntryView>, rs: Seq<RecordView>, p: int, a: int) -> Seq<
    EntryView,
> {
    if !has_key(idx, rs[p].aliases[a], None) {
        idx.push(alias_entry(rs, p, a))
    } else if rs[p].qualifier.len() > 0 && !has_key(
        idx,
        rs[p].aliases[a],
        Some(rs[p].qualifier),
    ) {
        idx.push(qualified_alias_entry(rs, p, a))
    } else {
        idx
    }
}

/// The index after record `p` has had its turn at its first `n` aliases, in
/// the order in which the record lists them.
pub open spec fn backfill_record(idx: Seq<EntryView>, rs: Seq<RecordView>, p: int, n: nat) -> Seq<
    EntryView,
>
    decreases n,
{
    if n == 0 {
        idx
    } else {
        alias_step(backfill_record(idx, rs, p, (n - 1) as nat), rs, p, n - 1)
    }
}

/// The index after the first `n` records of `order` have had their turn at
/// all their aliases.
pub open spec fn backfill(idx: Seq<EntryView>, rs: Seq<RecordView>, order: Seq<int>, n: nat) -> Seq<
    EntryView,
>
    decreases n,
{
    if n == 0 {
        idx
    } else {
        let p = order[n - 1];
        backfill_record(backfill(idx, rs, order, (n - 1) as nat), rs, p, rs[p].aliases.len())
    }
}

/// Gives record `p` its turn at each of its aliases.
pub fn backfill_one(records: &Vec<Record>, p: usize, index: &mut Index)
    requires
        p < records.len(),
        old(index).well_formed(),
    ensures
        final(index).well_formed(),
        final(index)@ == backfill_record(
            old(index)@,
            record_views(records@),
            p as int,
            record_views(records@)[p as int].aliases.len(),
        ),
{
    let ghost rs = record_views(records@);
    let ghost start = index@;
    let record = &records[p];
    assert(rs[p as int] == record@);
    let mut a: usize = 0;
    while a < record.aliases.len()
        invariant
            a <= record.aliases.len(),
            p < records.len(),
            rs == record_views(records@),
            rs[p as int] == record@,
            index.well_formed(),
            index@ == backfill_record(start, rs, p as int, a as nat),
        decreases record.aliases.len() - a,
    {
        let alias = &record.aliases[a];
        assert(rs[p as int].aliases[a as int] == alias@);
        if !index.contains_key(alias.as_str(), None) {
            index.commit(
                Entry { text: alias.clone(), qualifier: None, record: p, kind: Assignment::Alias },
            );
        } else if !record.qualifier.as_str().is_empty() && !index.contains_key(
            alias.as_str(),
            Some(record.qualifier.as_str()),
        ) {
            index.commit(
                Entry {
                    text: alias.clone(),
                    qualifier: Some(record.qualifier.clone()),
                    record: p,
                    kind: Assignment::AliasQualified,
                },
            );
        }
        a = a + 1;
    }
}

/// Gives the records their turns at their aliases, in the given order.
pub fn backfill_aliases(records: &Vec<Record>, order: &Vec<usize>, index: Index) -> (r: Index)
    requires
        index.well_formed(),
        forall|a: int| 0 <= a < order.len() ==> order[a] < records.len(),
    ensures
        r.well_formed(),
        r@ == backfill(
            index@,
            record_views(records@),
            order@.map_values(|p: usize| p as int),
            order.len() as nat,
        ),
{
    let ghost rs = record_views(records@);
    let ghost positions = order@.map_values(|p: usize| p as int);
    let ghost start = index@;
    let mut index = index;
    let mut a: usize = 0;
    while a < order.len()
        invariant
            a <= order.len(),
            rs == record_views(records@),
            positions == order@.map_values(|p: usize| p as int),
            forall|k: int| 0 <= k < order.len() ==> order[k] < records.len(),
            index.well_formed(),
            index@ == backfill(start, rs, positions, a as nat),
        decreases order.len() - a,
    {
        assert(positions[a as int] == order[a as int]);
        backfill_one(records, order[a], &mut index);
        a = a + 1;
    }
    index
}

} // verus!
