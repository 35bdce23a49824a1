//! Output rows: for one record, the surface forms that resolve to it, in
//! the order in which a row lists them.

use vstd::prelude::*;
use crate::index::{opt_text, Assignment, EntryView, Index};
use crate::order::{ascending, sort_pairs};
use crate::record::{record_views, Record, RecordView};
use crate::text::{clone_texts, qualified_text, render_qualified, texts};

verus! {

/// The surface form that an entry stands for: its text, followed by the
/// qualifier in parentheses where it has one.
pub open spec fn surface(e: EntryView) -> Seq<char> {
    match e.qualifier {
        None => e.text,
        Some(q) => qualified_text(e.text, q),
    }
}

/// The surface forms of the keys of kind `kind` that record `p` owns among
/// the first `n` entries, in index order.
pub open spec fn forms_of(idx: Seq<EntryView>, p: int, kind: Assignment, n: nat) -> Seq<Seq<char>>
    decreases n,
{
    if n == 0 {
        Seq::empty()
    } else if idx[n - 1].record == p && idx[n - 1].kind == kind {
        forms_of(idx, p, kind, (n - 1) as nat).push(surface(idx[n - 1]))
    } else {
        forms_of(idx, p, kind, (n - 1) as nat)
    }
}

/// The surface form of the first own-label key, bare or qualified, that
/// record `p` owns among the first `n` entries.
pub open spec fn own_form(idx: Seq<EntryView>, p: int, n: nat) -> Option<Seq<char>>
    decreases n,
{
    if n == 0 {
        None
    } else if own_form(idx, p, (n - 1) as nat) is Some {
        own_form(idx, p, (n - 1) as nat)
    } else if idx[n - 1].record == p && idx[n - 1].kind.is_own() {
        Some(surface(idx[n - 1]))
    } else {
        None
    }
}

/// The label under which record `p` is displayed: its own-label key where
/// it has one; else its stored label where it has an alias key; else its
/// stored label, followed by its qualifier in parentheses where it has one.
pub open spec fn canonical_label(idx: Seq<EntryView>, rs: Seq<RecordView>, p: int) -> Seq<char> {
    if own_form(idx, p, idx.len()) is Some {
        own_form(idx, p, idx.len())->0
    } else if forms_of(idx, p, Assignment::Alias, idx.len()).len() > 0 || forms_of(
        idx,
        p,
        Assignment::AliasQualified,
        idx.len(),
    ).len() > 0 {
        rs[p].label
    } else if rs[p].qualifier.len() > 0 {
        qualified_text(rs[p].label, rs[p].qualifier)
    } else {
        rs[p].label
    }
}

/// What a row is made from.
#[derive(Clone, Debug)]
pub struct RowParts {
    /// The label under which the record is displayed.
    pub canonical: String,
    /// The own-label key, bare or qualified.
    pub own: Option<String>,
    /// The bare alias keys, in index order.
    pub aliases: Vec<String>,
    /// The qualified alias keys, in index order.
    pub qualified_aliases: Vec<String>,
}

impl RowParts {
    /// The parts of the row of record `p` under the index `idx`.
    pub open spec fn describes(self, idx: Seq<EntryView>, rs: Seq<RecordView>, p: int) -> bool {
        &&& self.canonical@ == canonical_label(idx, rs, p)
        &&& opt_text(self.own) == own_form(idx, p, idx.len())
        &&& texts(self.aliases@) == forms_of(idx, p, Assignment::Alias, idx.len())
        &&& texts(self.qualified_aliases@) == forms_of(
            idx,
            p,
            Assignment::AliasQualified,
            idx.len(),
        )
    }

    /// Whether the record has a row at all: whether it owns a key.
    pub fn has_row(&self) -> (r: bool)
        ensures
            r == (self.own is Some || self.aliases@.len() > 0 || self.qualified_aliases@.len()
                > 0),
    {
        self.own.is_some() || self.aliases.len() > 0 || self.qualified_aliases.len() > 0
    }
}

/// Collects the parts of the row of record `p`.
pub fn row_parts(index: &Index, records: &Vec<Record>, p: usize) -> (r: RowParts)
    requires
        p < records.len(),
    ensures
        r.describes(index@, record_views(records@), p as int),
{
    let ghost idx = index@;
    let ghost rs = record_views(records@);
    let mut own: Option<String> = None;
    let mut aliases: Vec<String> = Vec::new();
    let mut qualified_aliases: Vec<String> = Vec::new();
    let mut e: usize = 0;
    while e < index.entries.len()
        invariant
            e <= index.entries.len(),
            idx == index@,
            opt_text(own) == own_form(idx, p as int, e as nat),
            texts(aliases@) == forms_of(idx, p as int, Assignment::Alias, e as nat),
            texts(qualified_aliases@) == forms_of(
                idx,
                p as int,
                Assignment::AliasQualified,
                e as nat,
            ),
        decreases index.entries.len() - e,
    {
        let entry = &index.entries[e];
        assert(idx[e as int] == entry@);
        if entry.record == p {
            let form = match &entry.qualifier {
                None => entry.text.clone(),
                Some(q) => render_qualified(entry.text.as_str(), q.as_str()),
            };
            assert(form@ == surface(idx[e as int]));
            match entry.kind {
                Assignment::OwnLabel | Assignment::OwnLabelQualified => {
                    if own.is_none() {
                        own = Some(form);
                    }
                },
                Assignment::Alias => {
                    let ghost before = aliases@;
                    aliases.push(form);
                    assert(texts(aliases@) =~= texts(before).push(form@));
                },
                Assignment::AliasQualified => {
                    let ghost before = qualified_aliases@;
                    qualified_aliases.push(form);
                    assert(texts(qualified_aliases@) =~= texts(before).push(form@));
                },
            }
        }
        e = e + 1;
    }
    assert(rs[p as int] == records[p as int]@);
    let record = &records[p];
    let canonical = match &own {
        Some(form) => form.clone(),
        None => {
            if aliases.len() > 0 || qualified_aliases.len() > 0
                || record.qualifier.as_str().is_empty() {
                record.label.clone()
            } else {
                render_qualified(record.label.as_str(), record.qualifier.as_str())
            }
        },
    };
    RowParts { canonical, own, aliases, qualified_aliases }
}

/// Collects the parts of the rows of all records in one pass over the
/// index.
pub fn all_row_parts(index: &Index, records: &Vec<Record>) -> (r: Vec<RowParts>)
    ensures
        r.len() == records.len(),
        forall|p: int|
            0 <= p < records.len() ==> (#[trigger] r[p]).describes(
                index@,
                record_views(records@),
                p,
            ),
{
    let ghost idx = index@;
    let ghost rs = record_views(records@);
    let n = records.len();
    let mut own: Vec<Option<String>> = Vec::new();
    let mut aliases: Vec<Vec<String>> = Vec::new();
    let mut qualified: Vec<Vec<String>> = Vec::new();
    let mut p: usize = 0;
    while p < n
        invariant
            p <= n,
            own.len() == p,
            aliases.len() == p,
            qualified.len() == p,
            forall|q: int| 0 <= q < p ==> (#[trigger] own[q]) is None,
            forall|q: int| 0 <= q < p ==> (#[trigger] aliases[q]).len() == 0,
            forall|q: int| 0 <= q < p ==> (#[trigger] qualified[q]).len() == 0,
        decreases n - p,
    {
        own.push(None);
        aliases.push(Vec::new());
        qualified.push(Vec::new());
        p = p + 1;
    }
    assert forall|q: int| 0 <= q < n implies texts((#[trigger] aliases[q])@) == forms_of(
        idx,
        q,
        Assignment::Alias,
        0,
    ) by {
        assert(texts(aliases[q]@) =~= Seq::<Seq<char>>::empty());
    }
    assert forall|q: int| 0 <= q < n implies texts((#[trigger] qualified[q])@) == forms_of(
        idx,
        q,
        Assignment::AliasQualified,
        0,
    ) by {
        assert(texts(qualified[q]@) =~= Seq::<Seq<char>>::empty());
    }
    let mut e: usize = 0;
    while e < index.entries.len()
        invariant
            e <= index.entries.len(),
            idx == index@,
            n == records.len(),
            own.len() == n,
            aliases.len() == n,
            qualified.len() == n,
            forall|q: int| 0 <= q < n ==> opt_text(#[trigger] own[q]) == own_form(idx, q, e as nat),
            forall|q: int|
                0 <= q < n ==> texts((#[trigger] aliases[q])@) == forms_of(
                    idx,
                    q,
                    Assignment::Alias,
                    e as nat,
                ),
            forall|q: int|
                0 <= q < n ==> texts((#[trigger] qualified[q])@) == forms_of(
                    idx,
                    q,
                    Assignment::AliasQualified,
                    e as nat,
                ),
        decreases index.entries.len() - e,
    {
        let entry = &index.entries[e];
        assert(idx[e as int] == entry@);
        let r = entry.record;
        if r < n {
            let form = match &entry.qualifier {
                None => entry.text.clone(),
                Some(q) => render_qualified(entry.text.as_str(), q.as_str()),
            };
            assert(form@ == surface(idx[e as int]));
            match entry.kind {
                Assignment::OwnLabel | Assignment::OwnLabelQualified => {
                    if own[r].is_none() {
                        own.set(r, Some(form));
                    }
                },
                Assignment::Alias => {
                    let ghost before = aliases[r as int]@;
                    aliases[r].push(form);
                    assert(texts(aliases[r as int]@) =~= texts(before).push(form@));
                },
                Assignment::AliasQualified => {
                    let ghost before = qualified[r as int]@;
                    qualified[r].push(form);
                    assert(texts(qualified[r as int]@) =~= texts(before).push(form@));
                },
            }
        }
        e = e + 1;
    }
    let mut out: Vec<RowParts> = Vec::new();
    let mut p: usize = 0;
    while p < n
        invariant
            p <= n,
            idx == index@,
            rs == record_views(records@),
            n == records.len(),
            own.len() == n,
            aliases.len() == n,
            qualified.len() == n,
            forall|q: int| 0 <= q < n ==> opt_text(#[trigger] own[q]) == own_form(idx, q, idx.len()),
            forall|q: int|
                0 <= q < n ==> texts((#[trigger] aliases[q])@) == forms_of(
                    idx,
                    q,
                    Assignment::Alias,
                    idx.len(),
                ),
            forall|q: int|
                0 <= q < n ==> texts((#[trigger] qualified[q])@) == forms_of(
                    idx,
                    q,
                    Assignment::AliasQualified,
                    idx.len(),
                ),
            out.len() == p,
            forall|q: int| 0 <= q < p ==> (#[trigger] out[q]).describes(idx, rs, q),
        decreases n - p,
    {
        assert(rs[p as int] == records[p as int]@);
        let record = &records[p];
        let own_key = match &own[p] {
            Some(form) => Some(form.clone()),
            None => None,
        };
        assert(opt_text(own_key) == opt_text(own[p as int]));
        let canonical = match &own[p] {
            Some(form) => form.clone(),
            None => {
                if aliases[p].len() > 0 || qualified[p].len() > 0
                    || record.qualifier.as_str().is_empty() {
                    record.label.clone()
                } else {
                    render_qualified(record.label.as_str(), record.qualifier.as_str())
                }
            },
        };
        out.push(
            RowParts {
                canonical,
                own: own_key,
                aliases: clone_texts(&aliases[p]),
                qualified_aliases: clone_texts(&qualified[p]),
            },
        );
        p = p + 1;
    }
    out
}

/// For each form its sort key: its distance, then its position.
pub open spec fn distance_keys(distances: Seq<usize>) -> Seq<(usize, usize)> {
    Seq::new(distances.len(), |k: int| (distances[k], k as usize))
}

/// `forms` from the nearest to the farthest; among forms at one distance
/// the earlier one first.
pub open spec fn by_distance(forms: Seq<Seq<char>>, distances: Seq<usize>) -> Seq<Seq<char>> {
    ascending(distance_keys(distances)).map_values(|k: (usize, usize)| forms[k.1 as int])
}

/// Orders `forms` by their distances, nearest first. Forms at one distance
/// keep their order.
pub fn order_by_distance(forms: &Vec<String>, distances: &Vec<usize>) -> (r: Vec<String>)
    requires
        distances.len() == forms.len(),
    ensures
        texts(r@) == by_distance(texts(forms@), distances@),
{
    let mut keys: Vec<(usize, usize)> = Vec::new();
    let mut k: usize = 0;
    while k < distances.len()
        invariant
            k <= distances.len(),
            keys.len() == k,
            forall|j: int| 0 <= j < k ==> keys[j] == distance_keys(distances@)[j],
        decreases distances.len() - k,
    {
        keys.push((distances[k], k));
        k = k + 1;
    }
    assert(keys@ =~= distance_keys(distances@));
    let sorted = sort_pairs(keys);
    proof {
        lemma_sorted_keys_in_range(distances@);
    }
    let mut out: Vec<String> = Vec::new();
    let mut a: usize = 0;
    while a < sorted.len()
        invariant
            a <= sorted.len(),
            distances.len() == forms.len(),
            sorted@ == ascending(distance_keys(distances@)),
            sorted.len() == distances.len(),
            forall|j: int| 0 <= j < sorted.len() ==> (#[trigger] sorted[j]).1 < distances.len(),
            out.len() == a,
            forall|j: int|
                0 <= j < a ==> texts(out@)[j] == by_distance(texts(forms@), distances@)[j],
        decreases sorted.len() - a,
    {
        let ghost before = out@;
        let form = forms[sorted[a].1].clone();
        out.push(form);
        assert(texts(out@) =~= texts(before).push(form@));
        a = a + 1;
    }
    assert(texts(out@) =~= by_distance(texts(forms@), distances@));
    out
}

/// The sorted keys are as many as the distances, and each names a position
/// among them.
proof fn lemma_sorted_keys_in_range(distances: Seq<usize>)
    requires
        distances.len() <= usize::MAX,
    ensures
        ascending(distance_keys(distances)).len() == distances.len(),
        forall|j: int|
            0 <= j < distances.len() ==> (#[trigger] ascending(distance_keys(distances))[j]).1
                < distances.len(),
{
    let leq = |a: (usize, usize), b: (usize, usize)| crate::order::pair_le(a, b);
    let keys = distance_keys(distances);
    let sorted = ascending(keys);
    crate::order::lemma_pair_le_total();
    keys.lemma_sort_by_ensures(leq);
    keys.to_multiset_ensures();
    sorted.to_multiset_ensures();
    assert forall|j: int| 0 <= j < distances.len() implies (#[trigger] sorted[j]).1
        < distances.len() by {
        let x = sorted[j];
        assert(sorted.contains(x));
        assert(keys.contains(x));
        let i = choose|i: int| 0 <= i < keys.len() && keys[i] == x;
        assert(x.1 == i);
    }
}

/// The forms of a row: the own-label key if there is one, then the bare
/// aliases from the nearest to the canonical label to the farthest, then
/// the qualified aliases likewise.
pub open spec fn row_forms(
    own: Option<Seq<char>>,
    aliases: Seq<Seq<char>>,
    alias_distances: Seq<usize>,
    qualified: Seq<Seq<char>>,
    qualified_distances: Seq<usize>,
) -> Seq<Seq<char>> {
    let head = match own {
        Some(form) => seq![form],
        None => Seq::empty(),
    };
    head + by_distance(aliases, alias_distances) + by_distance(qualified, qualified_distances)
}

/// Lays out the row of a record. `alias_distances` and
/// `qualified_distances` hold, for each bare and each qualified alias in
/// `parts`, its edit distance to the canonical label.
pub fn assemble_row(
    parts: &RowParts,
    alias_distances: &Vec<usize>,
    qualified_distances: &Vec<usize>,
) -> (r: Vec<String>)
    requires
        alias_distances.len() == parts.aliases.len(),
        qualified_distances.len() == parts.qualified_aliases.len(),
    ensures
        texts(r@) == row_forms(
            opt_text(parts.own),
            texts(parts.aliases@),
            alias_distances@,
            texts(parts.qualified_aliases@),
            qualified_distances@,
        ),
        parts.own matches Some(form) ==> r.len() > 0 && r[0]@ == form@,
{
    let mut row: Vec<String> = Vec::new();
    match &parts.own {
        Some(form) => {
            row.push(form.clone());
        },
        None => {},
    }
    let ghost head = texts(row@);
    assert(parts.own matches Some(form) ==> head.len() == 1 && head[0] == form@);
    let near = order_by_distance(&parts.aliases, alias_distances);
    let mut a: usize = 0;
    while a < near.len()
        invariant
            a <= near.len(),
            texts(row@) == head + texts(near@).take(a as int),
        decreases near.len() - a,
    {
        let ghost before = row@;
        row.push(near[a].clone());
        assert(texts(row@) =~= texts(before).push(near[a as int]@));
        assert(texts(near@).take(a + 1) =~= texts(near@).take(a as int).push(near[a as int]@));
        a = a + 1;
    }
    assert(texts(near@).take(near.len() as int) =~= texts(near@));
    let ghost middle = texts(row@);
    let far = order_by_distance(&parts.qualified_aliases, qualified_distances);
    let mut b: usize = 0;
    while b < far.len()
        invariant
            b <= far.len(),
            texts(row@) == middle + texts(far@).take(b as int),
        decreases far.len() - b,
    {
        let ghost before = row@;
        row.push(far[b].clone());
        assert(texts(row@) =~= texts(before).push(far[b as int]@));
        assert(texts(far@).take(b + 1) =~= texts(far@).take(b as int).push(far[b as int]@));
        b = b + 1;
    }
    assert(texts(far@).take(far.len() as int) =~= texts(far@));
    assert(parts.own is Some ==> texts(row@)[0] == head[0]);
    row
}

} // verus!
