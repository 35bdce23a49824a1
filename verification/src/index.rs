//! The index: surface keys, each owned by one record.

use vstd::prelude::*;
use crate::groups::{lemma_positions_with, positions, positions_with, TextGroups};

verus! {

/// How a record came by a key. Declared from strongest to weakest.
#[derive(Clone, Copy, Debug, PartialEq, Eq, Structural)]
pub enum Assignment {
    /// The record's label, bare.
    OwnLabel,
    /// The record's label with its qualifier.
    OwnLabelQualified,
    /// One of the record's aliases, bare.
    Alias,
    /// One of the record's aliases with the record's qualifier.
    AliasQualified,
}

impl Assignment {
    /// Position in the order `OwnLabel < OwnLabelQualified < Alias < AliasQualified`.
    pub open spec fn rank_of(self) -> nat {
        match self {
            Assignment::OwnLabel => 0,
            Assignment::OwnLabelQualified => 1,
            Assignment::Alias => 2,
            Assignment::AliasQualified => 3,
        }
    }

    pub fn rank(self) -> (r: u8)
        ensures
            r == self.rank_of(),
    {
        match self {
            Assignment::OwnLabel => 0,
            Assignment::OwnLabelQualified => 1,
            Assignment::Alias => 2,
            Assignment::AliasQualified => 3,
        }
    }

    /// Whether the key is the record's own label, bare or qualified.
    pub open spec fn is_own(self) -> bool {
        self == Assignment::OwnLabel || self == Assignment::OwnLabelQualified
    }
}

/// One committed key: its text, its qualifier if it has one, the position of
/// the owning record among the records of the run, and how it was assigned.
#[derive(Clone, Debug)]
pub struct Entry {
    pub text: String,
    pub qualifier: Option<String>,
    pub record: usize,
    pub kind: Assignment,
}

pub struct EntryView {
    pub text: Seq<char>,
    pub qualifier: Option<Seq<char>>,
    pub record: int,
    pub kind: Assignment,
}

/// The view of an optional string.
pub open spec fn opt_text(q: Option<String>) -> Option<Seq<char>> {
    match q {
        Some(s) => Some(s@),
        None => None,
    }
}

/// The view of an optional string slice.
pub open spec fn opt_str(q: Option<&str>) -> Option<Seq<char>> {
    match q {
        Some(s) => Some(s@),
        None => None,
    }
}

impl View for Entry {
    type V = EntryView;

    open spec fn view(&self) -> EntryView {
        EntryView {
            text: self.text@,
            qualifier: opt_text(self.qualifier),
            record: self.record as int,
            kind: self.kind,
        }
    }
}

pub open spec fn entry_views(entries: Seq<Entry>) -> Seq<EntryView> {
    entries.map_values(|e: Entry| e@)
}

/// Whether entry `e` of `idx` has the key `(text, qualifier)`.
pub open spec fn key_at(
    idx: Seq<EntryView>,
    e: int,
    text: Seq<char>,
    qualifier: Option<Seq<char>>,
) -> bool {
    0 <= e < idx.len() && idx[e].text == text && idx[e].qualifier == qualifier
}

/// Whether `(text, qualifier)` is a key of `idx`.
pub open spec fn has_key(idx: Seq<EntryView>, text: Seq<char>, qualifier: Option<Seq<char>>) -> bool {
    exists|e: int| key_at(idx, e, text, qualifier)
}

/// No key stands twice in `idx`.
pub open spec fn keys_distinct(idx: Seq<EntryView>) -> bool {
    forall|a: int, b: int|
        0 <= a < idx.len() && 0 <= b < idx.len() && a != b ==> !(#[trigger] idx[a].text
            == #[trigger] idx[b].text && idx[a].qualifier == idx[b].qualifier)
}

/// Every entry of `idx` names one of `n` records.
pub open spec fn records_in_range(idx: Seq<EntryView>, n: int) -> bool {
    forall|e: int| 0 <= e < idx.len() ==> 0 <= (#[trigger] idx[e]).record < n
}

/// `a` is the beginning of `b`.
pub open spec fn extends(a: Seq<EntryView>, b: Seq<EntryView>) -> bool {
    a.len() <= b.len() && forall|e: int| 0 <= e < a.len() ==> a[e] == b[e]
}

/// The texts of the entries.
pub open spec fn entry_texts(idx: Seq<EntryView>) -> Seq<Seq<char>> {
    idx.map_values(|e: EntryView| e.text)
}

/// The committed keys, in the order in which they were committed, and the
/// entries filed under their texts.
pub struct Index {
    pub entries: Vec<Entry>,
    /// The positions of the entries, filed under their texts.
    pub by_text: TextGroups,
}

impl View for Index {
    type V = Seq<EntryView>;

    open spec fn view(&self) -> Seq<EntryView> {
        entry_views(self.entries@)
    }
}

impl Index {
    /// The entries are filed under their texts.
    pub closed spec fn well_formed(&self) -> bool {
        self.by_text.well_formed() && self.by_text.keys() == entry_texts(self@)
    }

    pub fn new() -> (r: Index)
        ensures
            r.well_formed(),
            r@ == Seq::<EntryView>::empty(),
    {
        let r = Index { entries: Vec::new(), by_text: TextGroups::new() };
        assert(r@ =~= Seq::<EntryView>::empty());
        assert(entry_texts(r@) =~= Seq::<Seq<char>>::empty());
        r
    }

    pub fn len(&self) -> (n: usize)
        ensures
            n == self@.len(),
    {
        self.entries.len()
    }

    /// The first entry with the key `(text, qualifier)`.
    pub fn find(&self, text: &str, qualifier: Option<&str>) -> (r: Option<usize>)
        requires
            self.well_formed(),
        ensures
            match r {
                Some(e) => key_at(self@, e as int, text@, opt_str(qualifier)) && forall|d: int|
                    0 <= d < e ==> !key_at(self@, d, text@, opt_str(qualifier)),
                None => !has_key(self@, text@, opt_str(qualifier)),
            },
    {
        let ghost idx = self@;
        let ghost keys = entry_texts(idx);
        let ghost q = opt_str(qualifier);
        let list = match self.by_text.group(text) {
            Some(list) => list,
            None => {
                assert forall|d: int| !key_at(idx, d, text@, q) by {
                    if key_at(idx, d, text@, q) {
                        assert(keys[d] == text@);
                    }
                }
                return None;
            },
        };
        proof {
            lemma_positions_with(keys, text@, keys.len());
        }
        let mut a: usize = 0;
        while a < list.len()
            invariant
                a <= list.len(),
                idx == self@,
                keys == entry_texts(idx),
                q == opt_str(qualifier),
                positions(list@) == positions_with(keys, text@, keys.len()),
                forall|b: int| 0 <= b < a ==> !key_at(idx, list[b] as int, text@, q),
            decreases list.len() - a,
        {
            proof {
                lemma_positions_with(keys, text@, keys.len());
                assert(positions(list@)[a as int] == list[a as int]);
            }
            let e = list[a];
            let entry = &self.entries[e];
            assert(idx[e as int] == entry@);
            assert(keys[e as int] == text@);
            let same_qualifier = match (&entry.qualifier, qualifier) {
                (Some(x), Some(y)) => *x.as_str() == *y,
                (None, None) => true,
                _ => false,
            };
            if same_qualifier {
                assert forall|d: int| 0 <= d < e implies !key_at(idx, d, text@, q) by {
                    if key_at(idx, d, text@, q) {
                        assert(keys[d] == text@);
                        assert(positions(list@).contains(d));
                        let b = choose|b: int| 0 <= b < list.len() && positions(list@)[b] == d;
                        assert(positions(list@)[b] == list[b]);
                        if b >= a {
                            if b > a {
                                assert(positions(list@)[a as int] < positions(list@)[b]);
                            }
                        }
                    }
                }
                return Some(e);
            }
            a = a + 1;
        }
        assert forall|d: int| !key_at(idx, d, text@, q) by {
            if key_at(idx, d, text@, q) {
                assert(keys[d] == text@);
                assert(positions(list@).contains(d));
                let b = choose|b: int| 0 <= b < list.len() && positions(list@)[b] == d;
                assert(positions(list@)[b] == list[b]);
            }
        }
        None
    }

    /// Whether `(text, qualifier)` is a key.
    pub fn contains_key(&self, text: &str, qualifier: Option<&str>) -> (r: bool)
        requires
            self.well_formed(),
        ensures
            r == has_key(self@, text@, opt_str(qualifier)),
    {
        self.find(text, qualifier).is_some()
    }

    /// The position of the record that owns `(text, qualifier)`: the one
    /// that the first entry with that key names.
    pub fn owner(&self, text: &str, qualifier: Option<&str>) -> (r: Option<usize>)
        requires
            self.well_formed(),
        ensures
            r is Some <==> has_key(self@, text@, opt_str(qualifier)),
            r matches Some(p) ==> exists|e: int|
                {
                    &&& #[trigger] key_at(self@, e, text@, opt_str(qualifier))
                    &&& forall|d: int| 0 <= d < e ==> !key_at(self@, d, text@, opt_str(qualifier))
                    &&& self@[e].record == p
                },
    {
        match self.find(text, qualifier) {
            Some(e) => {
                assert(self@[e as int] == self.entries[e as int]@);
                assert(key_at(self@, e as int, text@, opt_str(qualifier)));
                Some(self.entries[e].record)
            },
            None => None,
        }
    }

    /// Commits a key as the last entry.
    pub fn commit(&mut self, entry: Entry)
        requires
            old(self).well_formed(),
        ensures
            final(self).well_formed(),
            final(self)@ == old(self)@.push(entry@),
    {
        let ghost before = self@;
        let n = self.entries.len();
        self.entries.push(entry);
        assert(self@ =~= before.push(entry@));
        assert(self.by_text.keys().len() == before.len());
        // The length after the push is a machine number, so the length
        // before it was not the largest one.
        let now = self.entries.len();
        assert(now == n + 1);
        self.by_text.add(self.entries[n].text.as_str());
        assert(entry_texts(self@) =~= entry_texts(before).push(entry@.text));
    }
}

} // verus!
