//! The popular-alias oracle: does a more frequent record go by this text as
//! an alias, and is it the only record that does?

use vstd::prelude::*;
use crate::groups::{lemma_positions_with, positions, positions_with, TextGroups};
use crate::record::{record_views, Record, RecordView};

verus! {

/// Record `k` lists `text` among its aliases.
pub open spec fn holds_alias(rs: Seq<RecordView>, k: int, text: Seq<char>) -> bool {
    0 <= k < rs.len() && rs[k].aliases.contains(text)
}

/// Record `k` lists `text` among its aliases and no other record does.
pub open spec fn sole_alias_holder(rs: Seq<RecordView>, text: Seq<char>, k: int) -> bool {
    holds_alias(rs, k, text) && forall|j: int| #[trigger] holds_alias(rs, j, text) ==> j == k
}

/// Record `k` overrides the claim of record `i` to the bare key `text`: `k`
/// is another record, the only one with the alias `text`, and strictly more
/// frequent than `i`.
pub open spec fn overrides(rs: Seq<RecordView>, text: Seq<char>, i: int, k: int) -> bool {
    sole_alias_holder(rs, text, k) && k != i && rs[k].frequency > rs[i].frequency
}

/// The record that overrides the claim of record `i` to `text`, if there is
/// one.
pub open spec fn alias_veto(rs: Seq<RecordView>, text: Seq<char>, i: int) -> Option<int> {
    if exists|k: int| overrides(rs, text, i, k) {
        Some(choose|k: int| overrides(rs, text, i, k))
    } else {
        None
    }
}

/// The aliases of the first `n` records in one row: record after record,
/// each record's aliases in the order in which it lists them.
pub open spec fn alias_texts(rs: Seq<RecordView>, n: nat) -> Seq<Seq<char>>
    decreases n,
{
    if n == 0 {
        Seq::empty()
    } else {
        alias_texts(rs, (n - 1) as nat) + rs[n - 1].aliases
    }
}

/// For each alias in that row the position of the record that lists it.
pub open spec fn alias_owners(rs: Seq<RecordView>, n: nat) -> Seq<int>
    decreases n,
{
    if n == 0 {
        Seq::empty()
    } else {
        alias_owners(rs, (n - 1) as nat) + Seq::new(rs[n - 1].aliases.len(), |a: int| n - 1)
    }
}

/// Place `j` of the row of aliases holds `text` as an alias of record `k`.
pub open spec fn row_entry(rs: Seq<RecordView>, n: nat, j: int, k: int, text: Seq<char>) -> bool {
    0 <= j < alias_texts(rs, n).len() && alias_texts(rs, n)[j] == text && alias_owners(rs, n)[j]
        == k
}

/// The row of aliases holds `text` as an alias of record `k`.
pub open spec fn in_row(rs: Seq<RecordView>, n: nat, k: int, text: Seq<char>) -> bool {
    exists|j: int| row_entry(rs, n, j, k, text)
}

/// The row of aliases holds each alias of each record with its owner, and
/// the owners never fall along the row.
pub proof fn lemma_alias_row(rs: Seq<RecordView>, n: nat)
    requires
        n <= rs.len(),
    ensures
        alias_owners(rs, n).len() == alias_texts(rs, n).len(),
        forall|j: int|
            0 <= j < alias_owners(rs, n).len() ==> 0 <= #[trigger] alias_owners(rs, n)[j] < n
                && rs[alias_owners(rs, n)[j]].aliases.contains(alias_texts(rs, n)[j]),
        forall|k: int, a: int|
            0 <= k < n && 0 <= a < rs[k].aliases.len() ==> in_row(
                rs,
                n,
                k,
                #[trigger] rs[k].aliases[a],
            ),
        forall|i: int, j: int|
            0 <= i <= j < alias_owners(rs, n).len() ==> #[trigger] alias_owners(rs, n)[i]
                <= #[trigger] alias_owners(rs, n)[j],
    decreases n,
{
    if n > 0 {
        let texts = alias_texts(rs, n);
        let owners = alias_owners(rs, n);
        let before = alias_texts(rs, (n - 1) as nat);
        let owned = alias_owners(rs, (n - 1) as nat);
        let last = rs[n - 1].aliases;
        lemma_alias_row(rs, (n - 1) as nat);
        assert forall|j: int| 0 <= j < owners.len() implies 0 <= #[trigger] owners[j] < n
            && rs[owners[j]].aliases.contains(texts[j]) by {
            if j < owned.len() {
                assert(owners[j] == owned[j]);
                assert(texts[j] == before[j]);
            } else {
                assert(texts[j] == last[j - before.len()]);
            }
        }
        assert forall|k: int, a: int| 0 <= k < n && 0 <= a < rs[k].aliases.len() implies in_row(
            rs,
            n,
            k,
            #[trigger] rs[k].aliases[a],
        ) by {
            let text = rs[k].aliases[a];
            if k < n - 1 {
                let m = (n - 1) as nat;
                assert(in_row(rs, m, k, text));
                let j = choose|j: int| row_entry(rs, m, j, k, text);
                assert(texts[j] == before[j] && owners[j] == owned[j]);
                assert(row_entry(rs, n, j, k, text));
            } else {
                let j = before.len() + a;
                assert(texts[j] == last[a] && owners[j] == k);
                assert(row_entry(rs, n, j, k, text));
            }
        }
        assert forall|i: int, j: int| 0 <= i <= j < owners.len() implies #[trigger] owners[i]
            <= #[trigger] owners[j] by {
            if j < owned.len() {
                assert(owners[i] == owned[i] && owners[j] == owned[j]);
            } else if i < owned.len() {
                assert(owners[i] == owned[i]);
            }
        }
    }
}

/// All aliases of a run, filed under their texts, each with the record
/// that lists it.
pub struct AliasPool {
    pub filed: TextGroups,
    pub owners: Vec<usize>,
}

impl AliasPool {
    /// The pool holds the aliases of the records `rs`.
    pub open spec fn describes(&self, rs: Seq<RecordView>) -> bool {
        &&& self.filed.well_formed()
        &&& self.filed.keys() == alias_texts(rs, rs.len())
        &&& positions(self.owners@) == alias_owners(rs, rs.len())
    }

    /// Files all aliases of the records.
    pub fn build(records: &Vec<Record>) -> (r: AliasPool)
        ensures
            r.describes(record_views(records@)),
    {
        let ghost rs = record_views(records@);
        let mut filed = TextGroups::new();
        let mut owners: Vec<usize> = Vec::new();
        let mut p: usize = 0;
        assert(positions(owners@) =~= alias_owners(rs, 0));
        while p < records.len()
            invariant
                p <= records.len(),
                rs == record_views(records@),
                filed.well_formed(),
                filed.keys() == alias_texts(rs, p as nat),
                positions(owners@) == alias_owners(rs, p as nat),
            decreases records.len() - p,
        {
            let record = &records[p];
            assert(rs[p as int] == record@);
            let ghost texts = alias_texts(rs, p as nat);
            let ghost owned = alias_owners(rs, p as nat);
            let ghost listed = rs[p as int].aliases;
            proof {
                lemma_alias_row(rs, p as nat);
            }
            let mut a: usize = 0;
            assert(listed.take(0) =~= Seq::<Seq<char>>::empty());
            assert(texts + Seq::<Seq<char>>::empty() =~= texts);
            assert(owned + Seq::new(0, |x: int| p as int) =~= owned);
            while a < record.aliases.len()
                invariant
                    a <= record.aliases.len(),
                    p < records.len(),
                    rs[p as int] == record@,
                    listed == rs[p as int].aliases,
                    texts.len() == owned.len(),
                    filed.well_formed(),
                    filed.keys() == texts + listed.take(a as int),
                    positions(owners@) == owned + Seq::new(a as nat, |x: int| p as int),
                decreases record.aliases.len() - a,
            {
                let alias = &record.aliases[a];
                assert(listed[a as int] == alias@);
                let ghost before = owners@;
                owners.push(p);
                let filled = owners.len();
                assert(filed.keys().len() == positions(before).len());
                assert(filled == before.len() + 1);
                filed.add(alias.as_str());
                assert(listed.take(a + 1) =~= listed.take(a as int).push(alias@));
                assert(texts + listed.take(a + 1) =~= (texts + listed.take(a as int)).push(alias@));
                assert(positions(owners@) =~= positions(before).push(p as int));
                assert(positions(owners@) =~= owned + Seq::new((a + 1) as nat, |x: int| p as int));
                a = a + 1;
            }
            assert(listed.take(record.aliases.len() as int) =~= listed);
            p = p + 1;
        }
        AliasPool { filed, owners }
    }

    /// The record that lists `text` among its aliases, where exactly one
    /// does: the pool of aliases that tell a record apart holds no alias of
    /// two records.
    pub fn sole_holder(&self, records: &Vec<Record>, text: &str) -> (r: Option<usize>)
        requires
            self.describes(record_views(records@)),
        ensures
            match r {
                Some(k) => k < records.len() && sole_alias_holder(
                    record_views(records@),
                    text@,
                    k as int,
                ),
                None => forall|k: int| !sole_alias_holder(record_views(records@), text@, k),
            },
    {
        let ghost rs = record_views(records@);
        let ghost texts = alias_texts(rs, rs.len());
        let ghost owners = alias_owners(rs, rs.len());
        proof {
            lemma_alias_row(rs, rs.len());
            lemma_positions_with(texts, text@, texts.len());
        }
        let list = match self.filed.group(text) {
            Some(list) => list,
            None => {
                assert forall|k: int| !holds_alias(rs, k, text@) by {
                    if holds_alias(rs, k, text@) {
                        let a = choose|a: int|
                            0 <= a < rs[k].aliases.len() && rs[k].aliases[a] == text@;
                        assert(in_row(rs, rs.len(), k, rs[k].aliases[a]));
                        let j = choose|j: int| row_entry(rs, rs.len(), j, k, text@);
                        assert(texts[j] == text@);
                    }
                }
                return None;
            },
        };
        let ghost found = positions(list@);
        let last = list.len() - 1;
        assert(found[0] == list[0] && found[last as int] == list[last as int]);
        assert(positions(self.owners@)[list[0] as int] == self.owners[list[0] as int]);
        assert(positions(self.owners@)[list[last as int] as int] == self.owners[list[last as int] as int]);
        let first_owner = self.owners[list[0]];
        let last_owner = self.owners[list[last]];
        assert(holds_alias(rs, first_owner as int, text@)) by {
            assert(texts[found[0]] == text@);
            assert(owners[found[0]] == first_owner);
        }
        assert(holds_alias(rs, last_owner as int, text@)) by {
            assert(texts[found[last as int]] == text@);
            assert(owners[found[last as int]] == last_owner);
        }
        if first_owner == last_owner {
            assert forall|k: int| #[trigger] holds_alias(rs, k, text@) implies k == first_owner by {
                let a = choose|a: int| 0 <= a < rs[k].aliases.len() && rs[k].aliases[a] == text@;
                assert(in_row(rs, rs.len(), k, rs[k].aliases[a]));
                let j = choose|j: int| row_entry(rs, rs.len(), j, k, text@);
                assert(texts[j] == text@ && owners[j] == k);
                assert(found.contains(j));
                let b = choose|b: int| 0 <= b < found.len() && found[b] == j;
                if 0 < b {
                    assert(found[0] < found[b]);
                }
                if b < last {
                    assert(found[b] < found[last as int]);
                }
                assert(owners[found[0]] <= owners[j]);
                assert(owners[j] <= owners[found[last as int]]);
            }
            Some(first_owner)
        } else {
            assert forall|k: int| !sole_alias_holder(rs, text@, k) by {
                if sole_alias_holder(rs, text@, k) {
                    assert(holds_alias(rs, first_owner as int, text@));
                    assert(holds_alias(rs, last_owner as int, text@));
                }
            }
            None
        }
    }

    /// Asks the oracle: the position of the record that is more frequent
    /// than record `i` and is the only record with the alias `text`, if
    /// there is such a record. Equal frequency does not count.
    pub fn more_popular(&self, records: &Vec<Record>, text: &str, i: usize) -> (r: Option<usize>)
        requires
            self.describes(record_views(records@)),
            i < records.len(),
        ensures
            match r {
                Some(k) => alias_veto(record_views(records@), text@, i as int) == Some(k as int),
                None => alias_veto(record_views(records@), text@, i as int) is None,
            },
            r matches Some(k) ==> k < records.len() && overrides(
                record_views(records@),
                text@,
                i as int,
                k as int,
            ),
    {
        let ghost rs = record_views(records@);
        assert(rs[i as int] == records[i as int]@);
        match self.sole_holder(records, text) {
            Some(k) => {
                assert(rs[k as int] == records[k as int]@);
                if k != i && records[k].frequency > records[i].frequency {
                    assert(overrides(rs, text@, i as int, k as int));
                    assert forall|m: int| overrides(rs, text@, i as int, m) implies m == k by {
                        assert(holds_alias(rs, k as int, text@));
                    }
                    Some(k)
                } else {
                    assert forall|m: int| !overrides(rs, text@, i as int, m) by {
                        if overrides(rs, text@, i as int, m) {
                            assert(holds_alias(rs, k as int, text@));
                        }
                    }
                    None
                }
            },
            None => {
                assert forall|m: int| !overrides(rs, text@, i as int, m) by {
                    if overrides(rs, text@, i as int, m) {
                        assert(sole_alias_holder(rs, text@, m));
                    }
                }
                None
            },
        }
    }
}

/// The record that lists `text` among its aliases, where exactly one does.
pub fn sole_holder(records: &Vec<Record>, text: &str) -> (r: Option<usize>)
    ensures
        match r {
            Some(k) => k < records.len() && sole_alias_holder(
                record_views(records@),
                text@,
                k as int,
            ),
            None => forall|k: int| !sole_alias_holder(record_views(records@), text@, k),
        },
{
    AliasPool::build(records).sole_holder(records, text)
}

/// Asks the oracle: the position of the record that is more frequent than
/// record `i` and is the only record with the alias `text`, if there is
/// such a record. Equal frequency does not count.
pub fn more_popular_alias_holder(records: &Vec<Record>, text: &str, i: usize) -> (r: Option<usize>)
    requires
        i < records.len(),
    ensures
        match r {
            Some(k) => alias_veto(record_views(records@), text@, i as int) == Some(k as int),
            None => alias_veto(record_views(records@), text@, i as int) is None,
        },
        r matches Some(k) ==> k < records.len() && overrides(
            record_views(records@),
            text@,
            i as int,
            k as int,
        ),
{
    AliasPool::build(records).more_popular(records, text, i)
}

} // verus!
