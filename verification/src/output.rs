//! The lines of the index file and the identifiers in them.

use vstd::prelude::*;
use vstd::string::*;
use crate::index::{has_key, key_at, opt_str, records_in_range, Index};
use crate::kinds::Ent;
use crate::qualifiers::{pair_texts, wikidata_qualifier_forms, wikidata_qualifiers};
use crate::record::{record_views, Record};
use crate::text::{chars_of, count_of, join_with, joined, parse_count, texts};

verus! {

/// A line of the index file: the identifier, then each surface form after
/// a tab.
pub open spec fn row_text(id: Seq<char>, forms: Seq<Seq<char>>) -> Seq<char> {
    id + seq!['\t'] + joined(forms, seq!['\t'])
}

/// Writes a line of the index file.
pub fn format_row(id: &str, forms: &Vec<String>) -> (r: String)
    ensures
        r@ == row_text(id@, texts(forms@)),
{
    proof {
        reveal_strlit("\t");
        assert("\t"@ =~= seq!['\t']);
    }
    let mut out = String::from_str(id);
    out.append("\t");
    let tail = join_with(forms, "\t");
    out.append(tail.as_str());
    out
}

/// The number in an identifier that is a letter and a number, such as
/// `Q42`; `None` where what follows the first character is no count.
pub open spec fn number_of(id: Seq<char>) -> Option<usize> {
    if id.len() == 0 {
        None
    } else {
        count_of(id.drop_first())
    }
}

/// Reads the number in an identifier that is a letter and a number.
pub fn id_number(id: &str) -> (r: Option<usize>)
    ensures
        r == number_of(id@),
{
    let n = chars_of(id).len();
    if n == 0 {
        return None;
    }
    let rest = id.substring_char(1, n);
    assert(rest@ =~= id@.drop_first());
    parse_count(rest)
}

/// The forms of `labels` under qualifier role number `k`.
pub open spec fn role_forms(labels: Seq<Seq<char>>, k: int) -> Seq<Seq<char>> {
    labels.map_values(|l: Seq<char>| wikidata_qualifier_forms(l)[k].0)
}

/// The prefix of qualifier role number `k`.
pub open spec fn role_prefix(k: int) -> Seq<char> {
    wikidata_qualifier_forms(Seq::empty())[k].1
}

/// For each of the five Wikidata qualifier roles its prefix and the forms of
/// `labels` under that role, in the order of the labels.
pub fn qualifier_rows(labels: &Vec<String>) -> (r: Vec<(String, Vec<String>)>)
    ensures
        r.len() == 5,
        forall|k: int|
            0 <= k < 5 ==> (#[trigger] r[k]).0@ == role_prefix(k) && texts(r[k].1@) == role_forms(
                texts(labels@),
                k,
            ),
{
    let ghost all = texts(labels@);
    let mut out: Vec<(String, Vec<String>)> = Vec::new();
    let mut k: usize = 0;
    while k < 5
        invariant
            k <= 5,
            all == texts(labels@),
            out.len() == k,
            forall|j: int|
                0 <= j < k ==> (#[trigger] out[j]).0@ == role_prefix(j) && texts(out[j].1@)
                    == role_forms(all, j),
        decreases 5 - k,
    {
        let head = wikidata_qualifiers("");
        proof {
            reveal_strlit("");
            assert(""@ =~= Seq::<char>::empty());
            assert(pair_texts(head@)[k as int] == (head[k as int].0@, head[k as int].1@));
        }
        let prefix = head[k].1.clone();
        let mut forms: Vec<String> = Vec::new();
        let mut i: usize = 0;
        while i < labels.len()
            invariant
                i <= labels.len(),
                k < 5,
                all == texts(labels@),
                forms.len() == i,
                forall|j: int| 0 <= j < i ==> forms[j]@ == role_forms(all, k as int)[j],
            decreases labels.len() - i,
        {
            let q = wikidata_qualifiers(labels[i].as_str());
            proof {
                assert(all[i as int] == labels[i as int]@);
                assert(pair_texts(q@)[k as int] == (q[k as int].0@, q[k as int].1@));
            }
            forms.push(q[k].0.clone());
            i = i + 1;
        }
        assert(texts(forms@) =~= role_forms(all, k as int));
        out.push((prefix, forms));
        k = k + 1;
    }
    out
}

/// Looks a surface key up: the identifier of the record that owns it,
/// tagged with the way the key leads to it.
pub fn lookup<'a>(index: &Index, records: &'a Vec<Record>, text: &str, qualifier: Option<&str>) -> (r:
    Option<Ent<'a>>)
    requires
        index.well_formed(),
        records_in_range(index@, records.len() as int),
    ensures
        match r {
            Some(ent) => exists|e: int|
                {
                    &&& #[trigger] key_at(index@, e, text@, opt_str(qualifier))
                    &&& forall|d: int| 0 <= d < e ==> !key_at(index@, d, text@, opt_str(qualifier))
                    &&& ent.text() == record_views(records@)[index@[e].record].id
                    &&& ent.kind_of() == index@[e].kind
                },
            None => !has_key(index@, text@, opt_str(qualifier)),
        },
{
    match index.find(text, qualifier) {
        None => None,
        Some(e) => {
            let entry = &index.entries[e];
            assert(index@[e as int] == entry@);
            assert(record_views(records@)[entry.record as int] == records[entry.record as int]@);
            let ent = Ent::tagged(records[entry.record].id.as_str(), entry.kind);
            assert(key_at(index@, e as int, text@, opt_str(qualifier)));
            Some(ent)
        },
    }
}

} // verus!
