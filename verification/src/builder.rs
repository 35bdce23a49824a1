//! The whole run: bare labels, qualified labels, aliases, and the counts
//! that describe the outcome.

use vstd::prelude::*;
use crate::aliases::{backfill, backfill_aliases};
use crate::index::{keys_distinct, records_in_range, EntryView, Index};
use crate::labels::{commit_labels, commit_qualified_labels, labels_done, own_labels_done};
use crate::laws::{
    law_keys_are_unique, lemma_index_keeps_own_labels, lemma_index_names_records,
    lemma_own_labels_count,
};
use crate::order::{frequency_order, records_by_frequency};
use crate::pool::Pools;
use crate::record::{record_views, Config, Record, RecordView};

verus! {

/// The index of a run: the own-label keys, then, unless `no_aliases` is
/// set, the alias keys taken in order of frequency.
pub open spec fn index_entries(rs: Seq<RecordView>, cfg: Config) -> Seq<EntryView> {
    if cfg.no_aliases {
        own_labels_done(rs, cfg)
    } else {
        backfill(own_labels_done(rs, cfg), rs, frequency_order(rs), rs.len())
    }
}

/// Record `p` owns a key of `idx`.
pub open spec fn is_covered(idx: Seq<EntryView>, p: int) -> bool {
    exists|e: int| 0 <= e < idx.len() && (#[trigger] idx[e]).record == p
}

/// How many of the first `n` records own a key of `idx`.
pub open spec fn covered(idx: Seq<EntryView>, n: nat) -> nat
    decreases n,
{
    if n == 0 {
        0
    } else {
        covered(idx, (n - 1) as nat) + if is_covered(idx, n - 1) {
            1nat
        } else {
            0nat
        }
    }
}

/// The counts of a run.
#[derive(Clone, Copy, Debug)]
pub struct Coverage {
    /// Records in the input.
    pub records: usize,
    /// Records that have their bare label as a key.
    pub by_label: usize,
    /// Records that have their label with the qualifier as a key.
    pub by_qualified_label: usize,
    /// Records without an own-label key.
    pub leftover: usize,
    /// Keys that come from aliases.
    pub alias_keys: usize,
    /// All keys.
    pub index_size: usize,
    /// Records that own at least one key.
    pub covered: usize,
}

impl Coverage {
    /// The counts that belong to the records `rs` under `cfg`.
    pub open spec fn describes(self, rs: Seq<RecordView>, cfg: Config) -> bool {
        &&& self.records == rs.len()
        &&& self.by_label == labels_done(rs, cfg).len()
        &&& self.by_qualified_label == own_labels_done(rs, cfg).len() - labels_done(rs, cfg).len()
        &&& self.leftover == rs.len() - own_labels_done(rs, cfg).len()
        &&& self.alias_keys == index_entries(rs, cfg).len() - own_labels_done(rs, cfg).len()
        &&& self.index_size == index_entries(rs, cfg).len()
        &&& self.covered == covered(index_entries(rs, cfg), rs.len())
    }
}

/// How many of the `n` records own a key of `index`.
pub fn count_covered(index: &Index, n: usize) -> (r: usize)
    ensures
        r == covered(index@, n as nat),
{
    let mut marks: Vec<bool> = Vec::new();
    let mut p: usize = 0;
    while p < n
        invariant
            p <= n,
            marks.len() == p,
            forall|k: int| 0 <= k < p ==> !marks[k],
        decreases n - p,
    {
        marks.push(false);
        p = p + 1;
    }
    let mut e: usize = 0;
    while e < index.entries.len()
        invariant
            e <= index.entries.len(),
            marks.len() == n,
            forall|k: int|
                0 <= k < n ==> (marks[k] <==> exists|d: int|
                    0 <= d < e && (#[trigger] index@[d]).record == k),
        decreases index.entries.len() - e,
    {
        let owner = index.entries[e].record;
        assert(index@[e as int] == index.entries[e as int]@);
        if owner < n {
            marks.set(owner, true);
        }
        assert forall|k: int| 0 <= k < n implies (marks[k] <==> exists|d: int|
            0 <= d < e + 1 && (#[trigger] index@[d]).record == k) by {
            if k == owner {
                assert(index@[e as int].record == k);
            } else if marks[k] {
                let d = choose|d: int| 0 <= d < e && (#[trigger] index@[d]).record == k;
                assert(0 <= d < e + 1 && index@[d].record == k);
            }
        }
        e = e + 1;
    }
    let mut count: usize = 0;
    let mut q: usize = 0;
    while q < n
        invariant
            q <= n,
            count <= q,
            marks.len() == n,
            forall|k: int| 0 <= k < n ==> (marks[k] <==> is_covered(index@, k)),
            count == covered(index@, q as nat),
        decreases n - q,
    {
        if marks[q] {
            count = count + 1;
        }
        q = q + 1;
    }
    count
}

/// Builds the index of `records` under `cfg` and counts the outcome. The
/// index is the one that `index_entries` describes: the same records and
/// options give the same entries in the same order. No key stands in it
/// twice, and every entry names one of the records.
pub fn build_index(records: &Vec<Record>, cfg: &Config) -> (r: (Index, Coverage))
    ensures
        r.0.well_formed(),
        r.0@ == index_entries(record_views(records@), *cfg),
        keys_distinct(r.0@),
        records_in_range(r.0@, records.len() as int),
        r.1.describes(record_views(records@), *cfg),
{
    let ghost rs = record_views(records@);
    let pools = Pools::build(records);
    let (labels, claimed) = commit_labels(records, cfg, &pools);
    let by_label = labels.len();
    let own = commit_qualified_labels(records, cfg, &pools, labels, &claimed);
    let own_keys = own.len();
    proof {
        lemma_own_labels_count(rs, *cfg);
    }
    let index = if cfg.no_aliases {
        own
    } else {
        let order = records_by_frequency(records);
        backfill_aliases(records, &order, own)
    };
    proof {
        lemma_index_names_records(rs, *cfg);
        lemma_index_keeps_own_labels(rs, *cfg);
        law_keys_are_unique(rs, *cfg);
    }
    let coverage = Coverage {
        records: records.len(),
        by_label,
        by_qualified_label: own_keys - by_label,
        leftover: records.len() - own_keys,
        alias_keys: index.len() - own_keys,
        index_size: index.len(),
        covered: count_covered(&index, records.len()),
    };
    (index, coverage)
}

} // verus!
