//! Own-label keys: the bare label where a record wins it, the label with
//! the qualifier where it does not.
//!
//! A record takes its bare label when it is the only record with that label
//! or, with `keep_most_common_non_unique`, the most frequent one, unless the
//! oracle withholds it. Every other record is pooled. A pooled record with a
//! qualifier takes the key `(label, qualifier)` when it is the only pooled
//! record with that label and qualifier or, with
//! `keep_most_common_non_unique`, the most frequent one. A pooled record
//! never takes the bare key: it was pooled because its bare label is
//! contested or withheld. Nor is it considered where its qualified text
//! already stands in the index as a bare label.
//!
//! Which record leads a label is settled group by group in the label pool;
//! the keys are then committed in input order.

use vstd::prelude::*;
use crate::groups::{
    group_views, groups_of, heads, law_groups_part_the_positions, lemma_heads,
    lemma_positions_with, positions, positions_with,
};
use crate::index::{has_key, Assignment, Entry, EntryView, Index};
use crate::oracle::alias_veto;
use crate::pool::{labels_of, Pools};
use crate::record::{record_views, Config, Record, RecordView};
use crate::text::{qualified_text, render_qualified};

verus! {

/// Record `i` is preferred to record `j`: it is more frequent, or as
/// frequent and not later in the input.
pub open spec fn outranks(rs: Seq<RecordView>, i: int, j: int) -> bool {
    rs[i].frequency > rs[j].frequency || (rs[i].frequency == rs[j].frequency && i <= j)
}

/// No other record has the label of record `i`.
pub open spec fn label_is_unique(rs: Seq<RecordView>, i: int) -> bool {
    forall|j: int| 0 <= j < rs.len() && j != i ==> (#[trigger] rs[j]).label != rs[i].label
}

/// Record `i` is preferred to every record with its label.
pub open spec fn leads_label(rs: Seq<RecordView>, i: int) -> bool {
    forall|j: int|
        0 <= j < rs.len() && (#[trigger] rs[j]).label == rs[i].label ==> outranks(rs, i, j)
}

/// The oracle withholds the bare label from record `i`.
pub open spec fn vetoed(rs: Seq<RecordView>, cfg: Config, i: int) -> bool {
    cfg.check_for_popular_aliases && alias_veto(rs, rs[i].label, i) is Some
}

/// Record `i` takes its bare label.
pub open spec fn claims_label(rs: Seq<RecordView>, cfg: Config, i: int) -> bool {
    &&& 0 <= i < rs.len()
    &&& label_is_unique(rs, i) || (cfg.keep_most_common_non_unique && leads_label(rs, i))
    &&& !vetoed(rs, cfg, i)
}

/// The entry that gives record `i` its bare label.
pub open spec fn own_label_entry(rs: Seq<RecordView>, i: int) -> EntryView {
    EntryView { text: rs[i].label, qualifier: None, record: i, kind: Assignment::OwnLabel }
}

/// The bare-label keys of the first `n` records, in input order.
pub open spec fn label_pass(rs: Seq<RecordView>, cfg: Config, n: nat) -> Seq<EntryView>
    decreases n,
{
    if n == 0 {
        Seq::empty()
    } else if claims_label(rs, cfg, n - 1) {
        label_pass(rs, cfg, (n - 1) as nat).push(own_label_entry(rs, n - 1))
    } else {
        label_pass(rs, cfg, (n - 1) as nat)
    }
}

/// The index once every record has had its turn at its bare label.
pub open spec fn labels_done(rs: Seq<RecordView>, cfg: Config) -> Seq<EntryView> {
    label_pass(rs, cfg, rs.len())
}

/// Record `i` is pooled for a qualified key: it did not take its bare
/// label, it has a qualifier, and its qualified text is not a bare label in
/// the index.
pub open spec fn pending(rs: Seq<RecordView>, cfg: Config, i: int) -> bool {
    &&& 0 <= i < rs.len()
    &&& !claims_label(rs, cfg, i)
    &&& rs[i].qualifier.len() > 0
    &&& !has_key(labels_done(rs, cfg), qualified_text(rs[i].label, rs[i].qualifier), None)
}

/// Records `i` and `j` have the same label and the same qualifier.
pub open spec fn same_qualified(rs: Seq<RecordView>, i: int, j: int) -> bool {
    rs[i].label == rs[j].label && rs[i].qualifier == rs[j].qualifier
}

/// No other pooled record has the label and qualifier of record `i`.
pub open spec fn qualified_is_unique(rs: Seq<RecordView>, cfg: Config, i: int) -> bool {
    forall|j: int| #[trigger] pending(rs, cfg, j) && j != i ==> !same_qualified(rs, i, j)
}

/// Record `i` is preferred to every pooled record with its label and
/// qualifier.
pub open spec fn leads_qualified(rs: Seq<RecordView>, cfg: Config, i: int) -> bool {
    forall|j: int| #[trigger] pending(rs, cfg, j) && same_qualified(rs, i, j) ==> outranks(rs, i, j)
}

/// Record `i` takes the key of its label and qualifier.
pub open spec fn claims_qualified(rs: Seq<RecordView>, cfg: Config, i: int) -> bool {
    &&& pending(rs, cfg, i)
    &&& qualified_is_unique(rs, cfg, i) || (cfg.keep_most_common_non_unique && leads_qualified(
        rs,
        cfg,
        i,
    ))
}

/// The entry that gives record `i` its label with its qualifier.
pub open spec fn qualified_entry(rs: Seq<RecordView>, i: int) -> EntryView {
    EntryView {
        text: rs[i].label,
        qualifier: Some(rs[i].qualifier),
        record: i,
        kind: Assignment::OwnLabelQualified,
    }
}

/// The bare-label keys of all records, then the qualified keys of the first
/// `n` records, in input order.
pub open spec fn qualified_pass(rs: Seq<RecordView>, cfg: Config, n: nat) -> Seq<EntryView>
    decreases n,
{
    if n == 0 {
        labels_done(rs, cfg)
    } else if claims_qualified(rs, cfg, n - 1) {
        qualified_pass(rs, cfg, (n - 1) as nat).push(qualified_entry(rs, n - 1))
    } else {
        qualified_pass(rs, cfg, (n - 1) as nat)
    }
}

/// The index once every record has had its turn at an own-label key.
pub open spec fn own_labels_done(rs: Seq<RecordView>, cfg: Config) -> Seq<EntryView> {
    qualified_pass(rs, cfg, rs.len())
}

/// Position `i` is a member of one of the first `g` of `groups`.
pub open spec fn in_first(groups: Seq<Seq<int>>, g: int, i: int) -> bool {
    exists|h: int| 0 <= h < g && h < groups.len() && (#[trigger] groups[h]).contains(i)
}

/// The member of a label group that is preferred to all its members.
fn group_leader(records: &Vec<Record>, list: &Vec<usize>) -> (r: usize)
    requires
        list.len() > 0,
        forall|c: int| 0 <= c < list.len() ==> (#[trigger] list[c]) < records.len(),
        forall|c: int, d: int| 0 <= c < d < list.len() ==> #[trigger] list[c] < #[trigger] list[d],
    ensures
        r < records.len(),
        exists|c: int| 0 <= c < list.len() && #[trigger] list[c] == r,
        forall|c: int|
            0 <= c < list.len() ==> outranks(
                record_views(records@),
                r as int,
                (#[trigger] list[c]) as int,
            ),
{
    let ghost rs = record_views(records@);
    let mut best = list[0];
    let ghost mut at: int = 0;
    let mut b: usize = 1;
    assert(rs[best as int] == records[best as int]@);
    while b < list.len()
        invariant
            1 <= b <= list.len(),
            rs == record_views(records@),
            0 <= at < b,
            list[at] == best,
            best < records.len(),
            forall|c: int| 0 <= c < list.len() ==> (#[trigger] list[c]) < records.len(),
            forall|c: int, d: int|
                0 <= c < d < list.len() ==> #[trigger] list[c] < #[trigger] list[d],
            forall|c: int| 0 <= c < b ==> outranks(rs, best as int, (#[trigger] list[c]) as int),
        decreases list.len() - b,
    {
        let j = list[b];
        assert(rs[j as int] == records[j as int]@);
        assert(rs[best as int] == records[best as int]@);
        assert(list[at] < list[b as int]);
        if records[j].frequency > records[best].frequency {
            assert forall|c: int| 0 <= c < b + 1 implies outranks(
                rs,
                j as int,
                (#[trigger] list[c]) as int,
            ) by {
                if c < b {
                    assert(outranks(rs, best as int, list[c] as int));
                }
            }
            best = j;
            proof {
                at = b as int;
            }
        }
        b = b + 1;
    }
    best
}

/// For each record, whether it takes its bare label.
pub fn label_claims(records: &Vec<Record>, cfg: &Config, pools: &Pools) -> (r: Vec<bool>)
    requires
        pools.describe(record_views(records@)),
    ensures
        r.len() == records.len(),
        forall|i: int|
            0 <= i < records.len() ==> r[i] == claims_label(record_views(records@), *cfg, i),
{
    let ghost rs = record_views(records@);
    let ghost keys = labels_of(rs);
    let ghost n = keys.len();
    let ghost hs = heads(keys, n);
    let ghost groups = groups_of(keys);
    let lists = pools.labels.lists();
    let mut claimed: Vec<bool> = Vec::new();
    let mut k: usize = 0;
    while k < records.len()
        invariant
            k <= records.len(),
            claimed.len() == k,
            forall|i: int| 0 <= i < k ==> !claimed[i],
        decreases records.len() - k,
    {
        claimed.push(false);
        k = k + 1;
    }
    proof {
        law_groups_part_the_positions(keys);
        lemma_heads(keys, n);
    }
    let mut g: usize = 0;
    while g < lists.len()
        invariant
            g <= lists.len(),
            rs == record_views(records@),
            keys == labels_of(rs),
            n == keys.len(),
            hs == heads(keys, n),
            groups == groups_of(keys),
            group_views(lists@) == groups,
            pools.describe(rs),
            claimed.len() == records.len(),
            forall|i: int|
                0 <= i < records.len() ==> claimed[i] == (in_first(groups, g as int, i)
                    && claims_label(rs, *cfg, i)),
        decreases lists.len() - g,
    {
        let list = &lists[g];
        let ghost label = keys[hs[g as int]];
        let ghost members = positions_with(keys, label, n);
        proof {
            law_groups_part_the_positions(keys);
            lemma_heads(keys, n);
            lemma_positions_with(keys, label, n);
            assert(group_views(lists@).len() == lists.len());
            assert(groups.len() == hs.len());
            assert(group_views(lists@)[g as int] == positions(list@));
            assert(groups[g as int] == members);
            assert forall|c: int| 0 <= c < list.len() implies (#[trigger] list[c]) < records.len() by {
                assert(members[c] == list[c]);
            }
            assert forall|c: int, d: int| 0 <= c < d < list.len() implies #[trigger] list[c]
                < #[trigger] list[d] by {
                assert(members[c] == list[c] && members[d] == list[d]);
            }
        }
        let best = group_leader(records, list);
        assert(rs[best as int] == records[best as int]@);
        let ghost at = choose|c: int| 0 <= c < list.len() && #[trigger] list[c] == best;
        proof {
            assert(members[at] == best);
            assert(keys[best as int] == label);
            assert(rs[best as int].label == label);
        }
        let alone = list.len() == 1;
        let mut takes = alone || cfg.keep_most_common_non_unique;
        if takes && cfg.check_for_popular_aliases {
            takes = pools.aliases.more_popular(records, records[best].label.as_str(), best).is_none();
        }
        proof {
            crate::laws::law_unique_label_is_a_group_of_one(rs, best as int);
            assert(leads_label(rs, best as int)) by {
                assert forall|j: int|
                    0 <= j < rs.len() && (#[trigger] rs[j]).label == rs[best as int].label implies outranks(
                    rs,
                    best as int,
                    j,
                ) by {
                    assert(keys[j] == label);
                    assert(members.contains(j));
                    let c = choose|c: int| 0 <= c < members.len() && members[c] == j;
                    assert(list[c] == j);
                }
            }
            assert(takes == claims_label(rs, *cfg, best as int));
        }
        let ghost before = claimed@;
        claimed.set(best, takes);
        proof {
            assert forall|i: int| 0 <= i < records.len() implies claimed[i] == (in_first(
                groups,
                g + 1,
                i,
            ) && claims_label(rs, *cfg, i)) by {
                if members.contains(i) {
                    assert(groups[g as int].contains(i));
                    assert(in_first(groups, g + 1, i));
                    if in_first(groups, g as int, i) {
                        let h = choose|h: int|
                            0 <= h < g && h < groups.len() && (#[trigger] groups[h]).contains(i);
                        assert(!groups[g as int].contains(i));
                    }
                    if i != best {
                        let c = choose|c: int| 0 <= c < members.len() && members[c] == i;
                        assert(list[c] == i);
                        assert(outranks(rs, best as int, i));
                        assert(keys[i] == label);
                        assert(rs[i].label == rs[best as int].label);
                        assert(!label_is_unique(rs, i));
                        assert(!leads_label(rs, i));
                        assert(before[i] == false);
                    }
                } else {
                    assert(i != best);
                    if in_first(groups, g + 1, i) {
                        let h = choose|h: int|
                            0 <= h < g + 1 && h < groups.len() && (#[trigger] groups[h]).contains(
                                i,
                            );
                        assert(h < g);
                        assert(in_first(groups, g as int, i));
                    }
                    if in_first(groups, g as int, i) {
                        let h = choose|h: int|
                            0 <= h < g && h < groups.len() && (#[trigger] groups[h]).contains(i);
                        assert(in_first(groups, g + 1, i));
                    }
                }
            }
        }
        g = g + 1;
    }
    proof {
        assert forall|i: int| 0 <= i < records.len() implies claimed[i] == claims_label(
            rs,
            *cfg,
            i,
        ) by {
            assert(crate::groups::grouped(groups, i));
            let h = choose|h: int| 0 <= h < groups.len() && (#[trigger] groups[h]).contains(i);
            assert(in_first(groups, lists.len() as int, i));
        }
    }
    claimed
}

/// Commits the bare-label keys, in input order. Returns the index and, for
/// each record, whether it took its bare label.
pub fn commit_labels(records: &Vec<Record>, cfg: &Config, pools: &Pools) -> (r: (Index, Vec<bool>))
    requires
        pools.describe(record_views(records@)),
    ensures
        r.0.well_formed(),
        r.0@ == labels_done(record_views(records@), *cfg),
        r.1.len() == records.len(),
        forall|i: int|
            0 <= i < records.len() ==> r.1[i] == claims_label(record_views(records@), *cfg, i),
{
    let ghost rs = record_views(records@);
    let claimed = label_claims(records, cfg, pools);
    let mut index = Index::new();
    let mut i: usize = 0;
    while i < records.len()
        invariant
            i <= records.len(),
            rs == record_views(records@),
            index.well_formed(),
            index@ == label_pass(rs, *cfg, i as nat),
            claimed.len() == records.len(),
            forall|k: int| 0 <= k < records.len() ==> claimed[k] == claims_label(rs, *cfg, k),
        decreases records.len() - i,
    {
        if claimed[i] {
            assert(rs[i as int] == records[i as int]@);
            index.commit(
                Entry {
                    text: records[i].label.clone(),
                    qualifier: None,
                    record: i,
                    kind: Assignment::OwnLabel,
                },
            );
        }
        i = i + 1;
    }
    (index, claimed)
}

/// For each record, whether it is pooled for a qualified key.
fn pooled(records: &Vec<Record>, cfg: &Config, labels: &Index, claimed: &Vec<bool>) -> (r: Vec<bool>)
    requires
        labels.well_formed(),
        labels@ == labels_done(record_views(records@), *cfg),
        claimed.len() == records.len(),
        forall|i: int|
            0 <= i < records.len() ==> claimed[i] == claims_label(record_views(records@), *cfg, i),
    ensures
        r.len() == records.len(),
        forall|i: int| #![auto] 0 <= i < records.len() ==> r[i] == pending(record_views(records@), *cfg, i),
{
    let ghost rs = record_views(records@);
    let mut pool: Vec<bool> = Vec::new();
    let mut i: usize = 0;
    while i < records.len()
        invariant
            i <= records.len(),
            rs == record_views(records@),
            labels.well_formed(),
            labels@ == labels_done(rs, *cfg),
            claimed.len() == records.len(),
            forall|k: int| 0 <= k < records.len() ==> claimed[k] == claims_label(rs, *cfg, k),
            pool.len() == i,
            forall|k: int| #![auto] 0 <= k < i ==> pool[k] == pending(rs, *cfg, k),
        decreases records.len() - i,
    {
        assert(rs[i as int] == records[i as int]@);
        let record = &records[i];
        let mut waits = false;
        if !claimed[i] && !record.qualifier.as_str().is_empty() {
            let rendered = render_qualified(record.label.as_str(), record.qualifier.as_str());
            waits = !labels.contains_key(rendered.as_str(), None);
        }
        pool.push(waits);
        i = i + 1;
    }
    pool
}

/// Whether pooled record `i` is alone with its label and qualifier, and
/// whether it is preferred to every pooled record with them.
fn qualified_standing(
    records: &Vec<Record>,
    cfg: &Config,
    pools: &Pools,
    pool: &Vec<bool>,
    i: usize,
) -> (r: (bool, bool))
    requires
        i < records.len(),
        pools.describe(record_views(records@)),
        pool.len() == records.len(),
        forall|k: int| #![auto] 0 <= k < records.len() ==> pool[k] == pending(record_views(records@), *cfg, k),
    ensures
        r.0 == qualified_is_unique(record_views(records@), *cfg, i as int),
        r.1 == leads_qualified(record_views(records@), *cfg, i as int),
{
    let ghost rs = record_views(records@);
    let ghost keys = labels_of(rs);
    assert(rs[i as int] == records[i as int]@);
    assert(keys[i as int] == rs[i as int].label);
    proof {
        lemma_positions_with(keys, rs[i as int].label, keys.len());
    }
    let list = match pools.labels.group(records[i].label.as_str()) {
        Some(list) => list,
        None => {
            // The record itself has the label, so its group is there.
            assert(false);
            return (true, true);
        },
    };
    let ghost members = positions(list@);
    let mut unique = true;
    let mut leads = true;
    let mut c: usize = 0;
    while c < list.len()
        invariant
            c <= list.len(),
            i < records.len(),
            rs == record_views(records@),
            keys == labels_of(rs),
            members == positions(list@),
            members == positions_with(keys, rs[i as int].label, keys.len()),
            pool.len() == records.len(),
            forall|k: int| #![auto] 0 <= k < records.len() ==> pool[k] == pending(rs, *cfg, k),
            unique == (forall|d: int|
                0 <= d < c && pending(rs, *cfg, #[trigger] members[d]) && members[d] != i
                    ==> !same_qualified(rs, i as int, members[d])),
            leads == (forall|d: int|
                0 <= d < c && pending(rs, *cfg, #[trigger] members[d]) && same_qualified(
                    rs,
                    i as int,
                    members[d],
                ) ==> outranks(rs, i as int, members[d])),
        decreases list.len() - c,
    {
        proof {
            lemma_positions_with(keys, rs[i as int].label, keys.len());
            assert(members[c as int] == list[c as int]);
        }
        let j = list[c];
        assert(rs[j as int] == records[j as int]@);
        assert(keys[j as int] == rs[j as int].label);
        assert(rs[i as int] == records[i as int]@);
        if pool[j] && records[j].qualifier == records[i].qualifier {
            if j != i {
                unique = false;
            }
            let fj = records[j].frequency;
            let fi = records[i].frequency;
            if !(fi > fj || (fi == fj && i <= j)) {
                leads = false;
            }
        }
        c = c + 1;
    }
    proof {
        lemma_positions_with(keys, rs[i as int].label, keys.len());
        if unique {
            assert forall|j: int| #[trigger] pending(rs, *cfg, j) && j != i implies !same_qualified(
                rs,
                i as int,
                j,
            ) by {
                if same_qualified(rs, i as int, j) {
                    assert(keys[j] == rs[i as int].label);
                    assert(members.contains(j));
                    let d = choose|d: int| 0 <= d < members.len() && members[d] == j;
                    assert(pending(rs, *cfg, members[d]));
                }
            }
        } else {
            let d = choose|d: int|
                0 <= d < list.len() && pending(rs, *cfg, #[trigger] members[d]) && members[d] != i
                    && same_qualified(rs, i as int, members[d]);
            assert(pending(rs, *cfg, members[d]));
        }
        if leads {
            assert forall|j: int| #[trigger]
                pending(rs, *cfg, j) && same_qualified(rs, i as int, j) implies outranks(
                rs,
                i as int,
                j,
            ) by {
                assert(keys[j] == rs[i as int].label);
                assert(members.contains(j));
                let d = choose|d: int| 0 <= d < members.len() && members[d] == j;
                assert(pending(rs, *cfg, members[d]));
            }
        } else {
            let d = choose|d: int|
                0 <= d < list.len() && pending(rs, *cfg, #[trigger] members[d]) && same_qualified(
                    rs,
                    i as int,
                    members[d],
                ) && !outranks(rs, i as int, members[d]);
            assert(pending(rs, *cfg, members[d]));
        }
    }
    (unique, leads)
}

/// Commits the qualified keys of the pooled records after the bare labels,
/// in input order.
pub fn commit_qualified_labels(
    records: &Vec<Record>,
    cfg: &Config,
    pools: &Pools,
    labels: Index,
    claimed: &Vec<bool>,
) -> (r: Index)
    requires
        pools.describe(record_views(records@)),
        labels.well_formed(),
        labels@ == labels_done(record_views(records@), *cfg),
        claimed.len() == records.len(),
        forall|i: int|
            0 <= i < records.len() ==> claimed[i] == claims_label(record_views(records@), *cfg, i),
    ensures
        r.well_formed(),
        r@ == own_labels_done(record_views(records@), *cfg),
{
    let ghost rs = record_views(records@);
    let pool = pooled(records, cfg, &labels, claimed);
    let mut index = labels;
    let mut i: usize = 0;
    while i < records.len()
        invariant
            i <= records.len(),
            rs == record_views(records@),
            pools.describe(rs),
            pool.len() == records.len(),
            forall|k: int| #![auto] 0 <= k < records.len() ==> pool[k] == pending(rs, *cfg, k),
            index.well_formed(),
            index@ == qualified_pass(rs, *cfg, i as nat),
        decreases records.len() - i,
    {
        if pool[i] {
            let (unique, leads) = qualified_standing(records, cfg, pools, &pool, i);
            if unique || (cfg.keep_most_common_non_unique && leads) {
                assert(rs[i as int] == records[i as int]@);
                index.commit(
                    Entry {
                        text: records[i].label.clone(),
                        qualifier: Some(records[i].qualifier.clone()),
                        record: i,
                        kind: Assignment::OwnLabelQualified,
                    },
                );
            }
        }
        i = i + 1;
    }
    index
}

} // verus!
