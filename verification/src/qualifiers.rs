//! The qualified forms under which a Wikidata property is also known.

use vstd::prelude::*;
use vstd::string::*;
use crate::text::{qualified_text, render_qualified};

verus! {

/// The views of a sequence of pairs of strings.
pub open spec fn pair_texts(v: Seq<(String, String)>) -> Seq<(Seq<char>, Seq<char>)> {
    v.map_values(|p: (String, String)| (p.0@, p.1@))
}

/// A label under each of the five Wikidata qualifier prefixes.
pub open spec fn wikidata_qualifier_forms(label: Seq<char>) -> Seq<(Seq<char>, Seq<char>)> {
    seq![
        (qualified_text(label, "statement"@), "p"@),
        (qualified_text(label, "qualifier"@), "pq"@),
        (qualified_text(label, "normalized qualifier"@), "pqn"@),
        (qualified_text(label, "value"@), "ps"@),
        (qualified_text(label, "normalized value"@), "psn"@),
    ]
}

/// A label under each of the three plain qualifier prefixes.
pub open spec fn qualifier_forms(label: Seq<char>) -> Seq<(Seq<char>, Seq<char>)> {
    seq![
        (qualified_text(label, "statement"@), "p"@),
        (qualified_text(label, "qualifier"@), "pq"@),
        (qualified_text(label, "value"@), "ps"@),
    ]
}

fn form(label: &str, role: &str, prefix: &str) -> (r: (String, String))
    ensures
        r.0@ == qualified_text(label@, role@),
        r.1@ == prefix@,
{
    (render_qualified(label, role), String::from_str(prefix))
}

/// The label with each Wikidata qualifier role in parentheses, each with
/// the prefix under which that role's property goes.
pub fn wikidata_qualifiers(label: &str) -> (r: Vec<(String, String)>)
    ensures
        r.len() == 5,
        pair_texts(r@) == wikidata_qualifier_forms(label@),
{
    let mut out: Vec<(String, String)> = Vec::new();
    out.push(form(label, "statement", "p"));
    out.push(form(label, "qualifier", "pq"));
    out.push(form(label, "normalized qualifier", "pqn"));
    out.push(form(label, "value", "ps"));
    out.push(form(label, "normalized value", "psn"));
    assert(pair_texts(out@) =~= wikidata_qualifier_forms(label@));
    out
}

/// The label with each plain qualifier role in parentheses, each with the
/// prefix under which that role's property goes.
pub fn qualifiers(label: &str) -> (r: Vec<(String, String)>)
    ensures
        r.len() == 3,
        pair_texts(r@) == qualifier_forms(label@),
{
    let mut out: Vec<(String, String)> = Vec::new();
    out.push(form(label, "statement", "p"));
    out.push(form(label, "qualifier", "pq"));
    out.push(form(label, "value", "ps"));
    assert(pair_texts(out@) =~= qualifier_forms(label@));
    out
}

} // verus!
