//! What holds of every index that the builder makes.

use vstd::prelude::*;
use crate::aliases::{alias_step, backfill, backfill_record};
use crate::builder::{covered, index_entries, is_covered, Coverage};
use crate::groups::{lemma_positions_with, positions_with};
use crate::pool::labels_of;
use crate::index::{extends, has_key, key_at, keys_distinct, records_in_range, EntryView};
use crate::labels::{
    claims_label, claims_qualified, label_pass, labels_done, own_label_entry, own_labels_done,
    pending, qualified_entry, qualified_pass, same_qualified,
};
use crate::oracle::{alias_veto, holds_alias, overrides};
use crate::order::{frequency_order, lemma_frequency_order_in_range};
use crate::record::{Config, RecordView};

verus! {

/// No record has two own-label keys in `idx`.
pub open spec fn own_key_once(idx: Seq<EntryView>) -> bool {
    forall|a: int, b: int|
        0 <= a < idx.len() && 0 <= b < idx.len() && a != b && (#[trigger] idx[a]).kind.is_own()
            && (#[trigger] idx[b]).kind.is_own() ==> idx[a].record != idx[b].record
}

/// Every entry of the bare-label pass is the bare label of a record that
/// claims it, and the entries stand in input order.
proof fn lemma_label_pass_shape(rs: Seq<RecordView>, cfg: Config, n: nat)
    requires
        n <= rs.len(),
    ensures
        forall|e: int|
            0 <= e < label_pass(rs, cfg, n).len() ==> {
                let entry = #[trigger] label_pass(rs, cfg, n)[e];
                &&& 0 <= entry.record < n
                &&& claims_label(rs, cfg, entry.record)
                &&& entry == own_label_entry(rs, entry.record)
            },
        forall|a: int, b: int|
            0 <= a < b < label_pass(rs, cfg, n).len() ==> (#[trigger] label_pass(
                rs,
                cfg,
                n,
            )[a]).record < (#[trigger] label_pass(rs, cfg, n)[b]).record,
        label_pass(rs, cfg, n).len() <= n,
    decreases n,
{
    if n > 0 {
        lemma_label_pass_shape(rs, cfg, (n - 1) as nat);
    }
}

/// Every entry that the qualified pass adds is the qualified label of a
/// record that claims it, and those entries stand in input order.
proof fn lemma_qualified_pass_shape(rs: Seq<RecordView>, cfg: Config, n: nat)
    requires
        n <= rs.len(),
    ensures
        extends(labels_done(rs, cfg), qualified_pass(rs, cfg, n)),
        forall|e: int|
            labels_done(rs, cfg).len() <= e < qualified_pass(rs, cfg, n).len() ==> {
                let entry = #[trigger] qualified_pass(rs, cfg, n)[e];
                &&& 0 <= entry.record < n
                &&& claims_qualified(rs, cfg, entry.record)
                &&& entry == qualified_entry(rs, entry.record)
            },
        forall|a: int, b: int|
            labels_done(rs, cfg).len() <= a < b < qualified_pass(rs, cfg, n).len() ==> (
            #[trigger] qualified_pass(rs, cfg, n)[a]).record < (#[trigger] qualified_pass(
                rs,
                cfg,
                n,
            )[b]).record,
        qualified_pass(rs, cfg, n).len() - labels_done(rs, cfg).len() + label_pass(
            rs,
            cfg,
            n,
        ).len() <= n,
    decreases n,
{
    if n > 0 {
        lemma_qualified_pass_shape(rs, cfg, (n - 1) as nat);
        lemma_label_pass_shape(rs, cfg, (n - 1) as nat);
    }
}

/// The own-label keys are at most as many as the records.
pub proof fn lemma_own_labels_count(rs: Seq<RecordView>, cfg: Config)
    ensures
        labels_done(rs, cfg).len() <= own_labels_done(rs, cfg).len() <= rs.len(),
{
    lemma_qualified_pass_shape(rs, cfg, rs.len());
}

/// After the own-label passes no key stands twice, no record has two
/// own-label keys, and every entry names a record.
proof fn lemma_own_labels_sound(rs: Seq<RecordView>, cfg: Config)
    ensures
        keys_distinct(own_labels_done(rs, cfg)),
        own_key_once(own_labels_done(rs, cfg)),
        records_in_range(own_labels_done(rs, cfg), rs.len() as int),
{
    let idx = own_labels_done(rs, cfg);
    let m = labels_done(rs, cfg).len();
    lemma_label_pass_shape(rs, cfg, rs.len());
    lemma_qualified_pass_shape(rs, cfg, rs.len());
    assert forall|a: int, b: int|
        0 <= a < idx.len() && 0 <= b < idx.len() && a != b implies !(#[trigger] idx[a].text
        == #[trigger] idx[b].text && idx[a].qualifier == idx[b].qualifier) && ((
    #[trigger] idx[a]).kind.is_own() && (#[trigger] idx[b]).kind.is_own() ==> idx[a].record
        != idx[b].record) by {
        let i = idx[a].record;
        let j = idx[b].record;
        if a < m {
            assert(idx[a] == labels_done(rs, cfg)[a]);
        }
        if b < m {
            assert(idx[b] == labels_done(rs, cfg)[b]);
        }
        if a < m && b < m {
            assert(i != j);
        } else if a >= m && b >= m {
            assert(i != j);
            if same_qualified(rs, i, j) {
                assert(pending(rs, cfg, i));
                assert(pending(rs, cfg, j));
            }
        }
    }
}

/// One turn at an alias keeps what came before and keeps the index sound.
proof fn lemma_alias_step(idx: Seq<EntryView>, rs: Seq<RecordView>, p: int, a: int)
    requires
        0 <= p < rs.len(),
    ensures
        extends(idx, alias_step(idx, rs, p, a)),
        keys_distinct(idx) ==> keys_distinct(alias_step(idx, rs, p, a)),
        own_key_once(idx) ==> own_key_once(alias_step(idx, rs, p, a)),
        records_in_range(idx, rs.len() as int) ==> records_in_range(
            alias_step(idx, rs, p, a),
            rs.len() as int,
        ),
{
    let next = alias_step(idx, rs, p, a);
    if next.len() > idx.len() {
        let added = next[idx.len() as int];
        assert(!has_key(idx, added.text, added.qualifier));
        assert forall|e: int| 0 <= e < idx.len() implies !(idx[e].text == added.text
            && idx[e].qualifier == added.qualifier) by {
            assert(!key_at(idx, e, added.text, added.qualifier));
        }
    }
}

proof fn lemma_backfill_record(idx: Seq<EntryView>, rs: Seq<RecordView>, p: int, n: nat)
    requires
        0 <= p < rs.len(),
    ensures
        extends(idx, backfill_record(idx, rs, p, n)),
        keys_distinct(idx) ==> keys_distinct(backfill_record(idx, rs, p, n)),
        own_key_once(idx) ==> own_key_once(backfill_record(idx, rs, p, n)),
        records_in_range(idx, rs.len() as int) ==> records_in_range(
            backfill_record(idx, rs, p, n),
            rs.len() as int,
        ),
    decreases n,
{
    if n > 0 {
        lemma_backfill_record(idx, rs, p, (n - 1) as nat);
        lemma_alias_step(backfill_record(idx, rs, p, (n - 1) as nat), rs, p, n - 1);
    }
}

/// The alias pass keeps what came before and keeps the index sound.
pub proof fn lemma_backfill(idx: Seq<EntryView>, rs: Seq<RecordView>, order: Seq<int>, n: nat)
    requires
        n <= order.len(),
        forall|a: int| 0 <= a < order.len() ==> 0 <= #[trigger] order[a] < rs.len(),
    ensures
        extends(idx, backfill(idx, rs, order, n)),
        keys_distinct(idx) ==> keys_distinct(backfill(idx, rs, order, n)),
        own_key_once(idx) ==> own_key_once(backfill(idx, rs, order, n)),
        records_in_range(idx, rs.len() as int) ==> records_in_range(
            backfill(idx, rs, order, n),
            rs.len() as int,
        ),
    decreases n,
{
    if n > 0 {
        lemma_backfill(idx, rs, order, (n - 1) as nat);
        let p = order[n - 1];
        lemma_backfill_record(backfill(idx, rs, order, (n - 1) as nat), rs, p, rs[p].aliases.len());
    }
}

/// Every entry of the index names one of the records.
pub proof fn lemma_index_names_records(rs: Seq<RecordView>, cfg: Config)
    requires
        rs.len() <= usize::MAX,
    ensures
        records_in_range(index_entries(rs, cfg), rs.len() as int),
{
    lemma_own_labels_sound(rs, cfg);
    lemma_frequency_order_in_range(rs);
    lemma_backfill(own_labels_done(rs, cfg), rs, frequency_order(rs), rs.len());
}

/// The index begins with the own-label keys.
pub proof fn lemma_index_keeps_own_labels(rs: Seq<RecordView>, cfg: Config)
    requires
        rs.len() <= usize::MAX,
    ensures
        extends(own_labels_done(rs, cfg), index_entries(rs, cfg)),
{
    lemma_frequency_order_in_range(rs);
    lemma_backfill(own_labels_done(rs, cfg), rs, frequency_order(rs), rs.len());
}

/// Uniqueness: no key stands twice in the index, so every key has exactly
/// one owner.
pub proof fn law_keys_are_unique(rs: Seq<RecordView>, cfg: Config)
    requires
        rs.len() <= usize::MAX,
    ensures
        keys_distinct(index_entries(rs, cfg)),
{
    lemma_own_labels_sound(rs, cfg);
    lemma_frequency_order_in_range(rs);
    lemma_backfill(own_labels_done(rs, cfg), rs, frequency_order(rs), rs.len());
}

/// No record has more than one own-label key, bare or qualified.
pub proof fn law_one_own_label_per_record(rs: Seq<RecordView>, cfg: Config)
    requires
        rs.len() <= usize::MAX,
    ensures
        own_key_once(index_entries(rs, cfg)),
{
    lemma_own_labels_sound(rs, cfg);
    lemma_frequency_order_in_range(rs);
    lemma_backfill(own_labels_done(rs, cfg), rs, frequency_order(rs), rs.len());
}

/// A longer index covers at least the records that its beginning covers.
pub proof fn lemma_covered_grows(a: Seq<EntryView>, b: Seq<EntryView>, n: nat)
    requires
        extends(a, b),
    ensures
        covered(a, n) <= covered(b, n),
    decreases n,
{
    if n > 0 {
        lemma_covered_grows(a, b, (n - 1) as nat);
        if is_covered(a, n - 1) {
            let e = choose|e: int| 0 <= e < a.len() && a[e].record == n - 1;
            assert(b[e].record == n - 1);
        }
    }
}

/// No more records own a key than there are records.
pub proof fn lemma_covered_is_bounded(idx: Seq<EntryView>, n: nat)
    ensures
        covered(idx, n) <= n,
    decreases n,
{
    if n > 0 {
        lemma_covered_is_bounded(idx, (n - 1) as nat);
    }
}

/// The counts of a run add up: every record has its bare label, its
/// qualified label or neither; every key is an own label or an alias; and
/// no more records own a key than there are records.
pub proof fn law_counts_add_up(c: Coverage, rs: Seq<RecordView>, cfg: Config)
    requires
        rs.len() <= usize::MAX,
        c.describes(rs, cfg),
    ensures
        c.by_label + c.by_qualified_label + c.leftover == c.records,
        c.by_label + c.by_qualified_label + c.alias_keys == c.index_size,
        c.covered <= c.records,
{
    lemma_own_labels_count(rs, cfg);
    lemma_index_keeps_own_labels(rs, cfg);
    lemma_covered_is_bounded(index_entries(rs, cfg), rs.len());
}

/// Monotonic coverage: the number of records that have a key does not fall
/// from the bare-label pass to the qualified pass to the alias pass.
pub proof fn law_coverage_is_monotonic(rs: Seq<RecordView>, cfg: Config)
    requires
        rs.len() <= usize::MAX,
    ensures
        covered(labels_done(rs, cfg), rs.len()) <= covered(own_labels_done(rs, cfg), rs.len())
            <= covered(index_entries(rs, cfg), rs.len()),
{
    lemma_qualified_pass_shape(rs, cfg, rs.len());
    lemma_covered_grows(labels_done(rs, cfg), own_labels_done(rs, cfg), rs.len());
    lemma_frequency_order_in_range(rs);
    lemma_backfill(own_labels_done(rs, cfg), rs, frequency_order(rs), rs.len());
    lemma_covered_grows(own_labels_done(rs, cfg), index_entries(rs, cfg), rs.len());
}

/// Priority: where a record has an own-label key, its row begins with it,
/// whatever aliases follow.
pub proof fn law_own_label_leads_row(
    own: Seq<char>,
    aliases: Seq<Seq<char>>,
    alias_distances: Seq<usize>,
    qualified: Seq<Seq<char>>,
    qualified_distances: Seq<usize>,
)
    ensures
        crate::projection::row_forms(
            Some(own),
            aliases,
            alias_distances,
            qualified,
            qualified_distances,
        )[0] == own,
{
}

/// After record `p` has had its turn at its first `n` aliases, each of
/// them is a key, its own or another record's.
proof fn lemma_turn_covers_aliases(idx: Seq<EntryView>, rs: Seq<RecordView>, p: int, n: nat)
    requires
        0 <= p < rs.len(),
        n <= rs[p].aliases.len(),
    ensures
        forall|a: int|
            0 <= a < n ==> has_key(backfill_record(idx, rs, p, n), #[trigger] rs[p].aliases[a], None),
    decreases n,
{
    if n > 0 {
        let before = backfill_record(idx, rs, p, (n - 1) as nat);
        let after = backfill_record(idx, rs, p, n);
        lemma_turn_covers_aliases(idx, rs, p, (n - 1) as nat);
        lemma_alias_step(before, rs, p, n - 1);
        assert forall|a: int| 0 <= a < n implies has_key(
            after,
            #[trigger] rs[p].aliases[a],
            None,
        ) by {
            let text = rs[p].aliases[a];
            if a < n - 1 || has_key(before, text, None) {
                let e = choose|e: int| key_at(before, e, text, None);
                assert(key_at(after, e, text, None));
            } else {
                assert(key_at(after, before.len() as int, text, None));
            }
        }
    }
}

/// What is a key stays a key when the index grows.
pub proof fn lemma_key_stays(a: Seq<EntryView>, b: Seq<EntryView>, text: Seq<char>, q: Option<Seq<char>>)
    requires
        extends(a, b),
        has_key(a, text, q),
    ensures
        has_key(b, text, q),
{
    let e = choose|e: int| key_at(a, e, text, q);
    assert(key_at(b, e, text, q));
}

/// After the first `n` records of `order` have had their turns, every alias
/// of each of them is a key.
proof fn lemma_backfill_covers_aliases(
    idx: Seq<EntryView>,
    rs: Seq<RecordView>,
    order: Seq<int>,
    n: nat,
)
    requires
        n <= order.len(),
        forall|a: int| 0 <= a < order.len() ==> 0 <= #[trigger] order[a] < rs.len(),
    ensures
        forall|t: int, a: int|
            0 <= t < n && 0 <= a < rs[order[t]].aliases.len() ==> has_key(
                backfill(idx, rs, order, n),
                #[trigger] rs[#[trigger] order[t]].aliases[a],
                None,
            ),
    decreases n,
{
    if n > 0 {
        let before = backfill(idx, rs, order, (n - 1) as nat);
        let after = backfill(idx, rs, order, n);
        let p = order[n - 1];
        lemma_backfill_covers_aliases(idx, rs, order, (n - 1) as nat);
        lemma_backfill_record(before, rs, p, rs[p].aliases.len());
        lemma_turn_covers_aliases(before, rs, p, rs[p].aliases.len());
        assert forall|t: int, a: int|
            0 <= t < n && 0 <= a < rs[order[t]].aliases.len() implies has_key(
            after,
            #[trigger] rs[#[trigger] order[t]].aliases[a],
            None,
        ) by {
            if t < n - 1 {
                lemma_key_stays(before, after, rs[order[t]].aliases[a], None);
            }
        }
    }
}

/// Every alias of every record in `order` is a bare key once the alias pass
/// is over: the record's own, unless another had it first.
pub proof fn law_every_alias_is_a_key(
    idx: Seq<EntryView>,
    rs: Seq<RecordView>,
    order: Seq<int>,
    t: int,
    a: int,
)
    requires
        forall|k: int| 0 <= k < order.len() ==> 0 <= #[trigger] order[k] < rs.len(),
        0 <= t < order.len(),
        0 <= a < rs[order[t]].aliases.len(),
    ensures
        has_key(backfill(idx, rs, order, order.len()), rs[order[t]].aliases[a], None),
{
    lemma_backfill_covers_aliases(idx, rs, order, order.len());
}

/// A record is alone with its label exactly when its label group has one
/// member.
pub proof fn law_unique_label_is_a_group_of_one(rs: Seq<RecordView>, i: int)
    requires
        0 <= i < rs.len(),
    ensures
        crate::labels::label_is_unique(rs, i) <==> positions_with(
            labels_of(rs),
            rs[i].label,
            rs.len(),
        ).len() == 1,
{
    let keys = labels_of(rs);
    let group = positions_with(keys, rs[i].label, rs.len());
    lemma_positions_with(keys, rs[i].label, rs.len());
    assert(keys[i] == rs[i].label);
    assert(group.contains(i));
    let a = choose|a: int| 0 <= a < group.len() && group[a] == i;
    if crate::labels::label_is_unique(rs, i) {
        if group.len() > 1 {
            let b = if a == 0 {
                1
            } else {
                0
            };
            assert(keys[group[b]] == rs[i].label);
            assert(rs[group[b]].label == rs[i].label);
            assert(group[b] != group[a]);
        }
    }
    if group.len() == 1 {
        assert forall|j: int| 0 <= j < rs.len() && j != i implies (#[trigger] rs[j]).label
            != rs[i].label by {
            if rs[j].label == rs[i].label {
                assert(keys[j] == rs[i].label);
                assert(group.contains(j));
                let b = choose|b: int| 0 <= b < group.len() && group[b] == j;
            }
        }
    }
}

/// An alias that two records share is in nobody's favour: the oracle
/// withholds no label on its account.
pub proof fn law_shared_alias_never_vetoes(
    rs: Seq<RecordView>,
    text: Seq<char>,
    j: int,
    k: int,
    i: int,
)
    requires
        j != k,
        holds_alias(rs, j, text),
        holds_alias(rs, k, text),
    ensures
        alias_veto(rs, text, i) is None,
{
    assert forall|m: int| !overrides(rs, text, i, m) by {
        if overrides(rs, text, i, m) {
            assert(j == m);
            assert(k == m);
        }
    }
}

} // verus!

