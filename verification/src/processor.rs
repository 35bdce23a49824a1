//! Reading the rows of a dump and writing identifiers, for each of the
//! knowledge bases.

use vstd::prelude::*;
use vstd::string::*;
use crate::error::{Fault, FaultView, Problem};
use crate::index::{opt_str, opt_text};
use crate::info::{EntityInfo, EntityInfoView, PropInfo, PropInfoView};
use crate::kinds::{Ent, KnowledgeGraph, Prop};
use crate::pattern::{captured, compiles, Pattern};
use crate::text::{
    begins_with, count_of, parse_count, qualified_text, render_qualified, slices, space_out,
    spaced, split_at_each, split_terminator, texts, trim, trimmed, unwrap_text, unwrapped,
};

verus! {

/// The expression for an English literal: `"..."@en`.
pub open spec fn label_source() -> Seq<char> {
    "^\"(.*)\"@en$"@
}

/// The expression for a property identifier of `kg`.
pub open spec fn property_source(kg: KnowledgeGraph) -> Seq<char> {
    match kg {
        KnowledgeGraph::Wikidata => r"<?http://www.wikidata.org/entity/(P\d+)>?"@,
        KnowledgeGraph::Freebase => r"<?http://rdf.freebase.com/ns/(.+)>?"@,
        KnowledgeGraph::DBPedia => r"<?http://dbpedia.org/((?:property|ontology)/.+)>?"@,
    }
}

/// The expression for an entity identifier of `kg`.
pub open spec fn entity_source(kg: KnowledgeGraph) -> Seq<char> {
    match kg {
        KnowledgeGraph::Wikidata => r"<?http://www.wikidata.org/entity/(Q\d+)>?"@,
        KnowledgeGraph::Freebase => r"<?http://rdf.freebase.com/ns/(m\..+)>?"@,
        KnowledgeGraph::DBPedia => r"<?http://dbpedia.org/resource/(.+)>?"@,
    }
}

/// The expression that parts a DBpedia property into its kind and its
/// name.
pub open spec fn kind_source() -> Seq<char> {
    r"(property|ontology)/([^>]+)"@
}

fn property_pattern_text(kg: KnowledgeGraph) -> (r: &'static str)
    ensures
        r@ == property_source(kg),
{
    match kg {
        KnowledgeGraph::Wikidata => r"<?http://www.wikidata.org/entity/(P\d+)>?",
        KnowledgeGraph::Freebase => r"<?http://rdf.freebase.com/ns/(.+)>?",
        KnowledgeGraph::DBPedia => r"<?http://dbpedia.org/((?:property|ontology)/.+)>?",
    }
}

fn entity_pattern_text(kg: KnowledgeGraph) -> (r: &'static str)
    ensures
        r@ == entity_source(kg),
{
    match kg {
        KnowledgeGraph::Wikidata => r"<?http://www.wikidata.org/entity/(Q\d+)>?",
        KnowledgeGraph::Freebase => r"<?http://rdf.freebase.com/ns/(m\..+)>?",
        KnowledgeGraph::DBPedia => r"<?http://dbpedia.org/resource/(.+)>?",
    }
}

/// The view of a text or a fault.
pub open spec fn text_result(r: Result<String, Fault>) -> Result<Seq<char>, FaultView> {
    match r {
        Ok(s) => Ok(s@),
        Err(e) => Err(e@),
    }
}

/// The views of a sequence of pairs of string slices.
pub open spec fn pair_slices(v: Seq<(&'static str, &'static str)>) -> Seq<(Seq<char>, Seq<char>)> {
    v.map_values(|p: (&'static str, &'static str)| (p.0@, p.1@))
}

/// The short prefix of the entities of `kg` and the address it stands for.
pub open spec fn entity_prefix_table(kg: KnowledgeGraph) -> Seq<(Seq<char>, Seq<char>)> {
    match kg {
        KnowledgeGraph::Wikidata => seq![("wd:"@, "http://www.wikidata.org/entity/"@)],
        KnowledgeGraph::Freebase => seq![("fb:"@, "http://rdf.freebase.com/ns/"@)],
        KnowledgeGraph::DBPedia => seq![("dbr:"@, "http://dbpedia.org/resource/"@)],
    }
}

/// The short prefixes of the properties of `kg` and the addresses they
/// stand for.
pub open spec fn property_prefix_table(kg: KnowledgeGraph) -> Seq<(Seq<char>, Seq<char>)> {
    match kg {
        KnowledgeGraph::Wikidata => seq![
            ("wdt:"@, "http://www.wikidata.org/prop/direct/"@),
            ("p:"@, "http://www.wikidata.org/prop/"@),
            ("pq:"@, "http://www.wikidata.org/prop/qualifier/"@),
            ("pqn:"@, "http://www.wikidata.org/prop/qualifier/value-normalized/"@),
            ("ps:"@, "http://www.wikidata.org/prop/statement/"@),
            ("psn:"@, "http://www.wikidata.org/prop/statement/value-normalized/"@),
        ],
        KnowledgeGraph::Freebase => seq![("fbp:"@, "http://rdf.freebase.com/ns/property."@)],
        KnowledgeGraph::DBPedia => seq![
            ("dbp:"@, "http://dbpedia.org/property/"@),
            ("dbo:"@, "http://dbpedia.org/ontology/"@),
        ],
    }
}

/// The aliases that a column lists: the column without the quotation marks
/// at its ends, cut at each `;`, each piece trimmed.
pub open spec fn alias_list(field: Seq<char>) -> Seq<Seq<char>> {
    split_terminator(unwrapped(field, '"', '"'), ';').map_values(|a: Seq<char>| trimmed(a))
}

/// Reads the aliases that a column lists.
pub fn read_aliases(field: &str) -> (r: Vec<String>)
    ensures
        texts(r@) == alias_list(field@),
{
    let pieces = split_at_each(unwrap_text(field, '"', '"'), ';');
    let mut out: Vec<String> = Vec::new();
    let mut i: usize = 0;
    while i < pieces.len()
        invariant
            i <= pieces.len(),
            out.len() == i,
            forall|j: int| 0 <= j < i ==> out[j]@ == trimmed(slices(pieces@)[j]),
        decreases pieces.len() - i,
    {
        assert(slices(pieces@)[i as int] == pieces[i as int]@);
        out.push(String::from_str(trim(pieces[i])));
        i = i + 1;
    }
    assert(texts(out@) =~= slices(pieces@).map_values(|a: Seq<char>| trimmed(a)));
    out
}

/// The identifiers that `pattern` captures in the first `n` of `pieces`;
/// pieces in which it captures nothing are passed over. With `trim_before`
/// each piece is trimmed before the search, without it each capture after.
pub open spec fn captures_in(
    pattern: Seq<char>,
    pieces: Seq<Seq<char>>,
    trim_before: bool,
    n: nat,
) -> Seq<Seq<char>>
    decreases n,
{
    if n == 0 {
        Seq::empty()
    } else {
        let before = captures_in(pattern, pieces, trim_before, (n - 1) as nat);
        let piece = if trim_before {
            trimmed(pieces[n - 1])
        } else {
            pieces[n - 1]
        };
        match captured(pattern, piece, 1) {
            Some(found) => before.push(
                if trim_before {
                    found
                } else {
                    trimmed(found)
                },
            ),
            None => before,
        }
    }
}

/// Collects the identifiers that `pattern` captures in `pieces`.
pub fn capture_each(pattern: &Pattern, pieces: &Vec<&str>, trim_before: bool) -> (r: Vec<String>)
    ensures
        texts(r@) == captures_in(pattern@, slices(pieces@), trim_before, pieces.len() as nat),
{
    let mut out: Vec<String> = Vec::new();
    let mut i: usize = 0;
    assert(texts(out@) =~= Seq::<Seq<char>>::empty());
    while i < pieces.len()
        invariant
            i <= pieces.len(),
            texts(out@) == captures_in(pattern@, slices(pieces@), trim_before, i as nat),
        decreases pieces.len() - i,
    {
        assert(slices(pieces@)[i as int] == pieces[i as int]@);
        let ghost before = out@;
        if trim_before {
            match pattern.capture(trim(pieces[i])) {
                Some(found) => {
                    out.push(found);
                    assert(texts(out@) =~= texts(before).push(found@));
                },
                None => {},
            }
        } else {
            match pattern.capture(pieces[i]) {
                Some(found) => {
                    let id = String::from_str(trim(found.as_str()));
                    out.push(id);
                    assert(texts(out@) =~= texts(before).push(trimmed(found@)));
                },
                None => {},
            }
        }
        i = i + 1;
    }
    out
}

/// The entity that a row describes, given what the label expression
/// captured in its label and description columns and the types found in
/// its type column. The columns are identifier, label, description,
/// frequency, types, aliases; the last two may be missing.
pub open spec fn entity_from(
    fields: Seq<Seq<char>>,
    line: Seq<char>,
    label: Option<Seq<char>>,
    desc: Option<Seq<char>>,
    types: Seq<Seq<char>>,
) -> Result<(Seq<char>, EntityInfoView), FaultView> {
    if fields.len() < 4 || fields.len() > 6 {
        Err(FaultView { problem: Problem::InvalidEntityLine, text: line })
    } else if label is None {
        Err(FaultView { problem: Problem::LabelNotCaptured, text: fields[1] })
    } else if count_of(fields[3]) is None {
        Err(FaultView { problem: Problem::InvalidCount, text: fields[3] })
    } else {
        Ok(
            (
                unwrapped(fields[0], '<', '>'),
                EntityInfoView {
                    label: trimmed(label->0),
                    desc: match desc {
                        Some(d) => trimmed(d),
                        None => Seq::empty(),
                    },
                    aliases: if fields.len() == 6 {
                        alias_list(fields[5])
                    } else {
                        Seq::empty()
                    },
                    types,
                    count: count_of(fields[3])->0,
                    redirects: None,
                },
            ),
        )
    }
}

/// Makes the entity of a row from its columns and from what was captured
/// in them.
pub fn assemble_entity<'s>(
    fields: &Vec<&'s str>,
    line: &str,
    label: Option<String>,
    desc: Option<String>,
    types: Vec<String>,
) -> (r: Result<(Ent<'s>, EntityInfo), Fault>)
    ensures
        match r {
            Ok((ent, info)) => ent is Label && entity_from(
                slices(fields@),
                line@,
                opt_text(label),
                opt_text(desc),
                texts(types@),
            ) == Ok::<(Seq<char>, EntityInfoView), FaultView>((ent.text(), info@)),
            Err(e) => entity_from(
                slices(fields@),
                line@,
                opt_text(label),
                opt_text(desc),
                texts(types@),
            ) == Err::<(Seq<char>, EntityInfoView), FaultView>(e@),
        },
{
    let n = fields.len();
    if n < 4 || n > 6 {
        return Err(Fault::new(Problem::InvalidEntityLine, line));
    }
    assert(slices(fields@)[0] == fields[0]@);
    assert(slices(fields@)[1] == fields[1]@);
    assert(slices(fields@)[3] == fields[3]@);
    let label = match label {
        Some(l) => l,
        None => {
            return Err(Fault::new(Problem::LabelNotCaptured, fields[1]));
        },
    };
    let count = match parse_count(fields[3]) {
        Some(c) => c,
        None => {
            return Err(Fault::new(Problem::InvalidCount, fields[3]));
        },
    };
    let desc = match desc {
        Some(d) => String::from_str(trim(d.as_str())),
        None => String::new(),
    };
    let aliases = if n == 6 {
        assert(slices(fields@)[5] == fields[5]@);
        read_aliases(fields[5])
    } else {
        Vec::new()
    };
    assert(n != 6 ==> texts(aliases@) =~= Seq::<Seq<char>>::empty());
    let ent = Ent::Label(unwrap_text(fields[0], '<', '>'));
    let info = EntityInfo {
        label: String::from_str(trim(label.as_str())),
        desc,
        aliases,
        types,
        count,
        redirects: None,
    };
    Ok((ent, info))
}

/// The label under which a property goes: as captured for Wikidata;
/// followed by `(ontology)` for a DBpedia property that begins with
/// `ontology`; followed by the property's domain in parentheses, with
/// spaces for underscores, for Freebase.
pub open spec fn property_label(kg: KnowledgeGraph, prop: Seq<char>, label: Seq<char>) -> Result<
    Seq<char>,
    FaultView,
> {
    match kg {
        KnowledgeGraph::Wikidata => Ok(label),
        KnowledgeGraph::DBPedia => if "ontology"@.len() <= prop.len() && prop.take(
            "ontology"@.len() as int,
        ) == "ontology"@ {
            Ok(qualified_text(label, "ontology"@))
        } else {
            Ok(label)
        },
        KnowledgeGraph::Freebase => {
            let parts = split_terminator(prop, '.');
            if parts.len() < 2 {
                Err(FaultView { problem: Problem::InvalidFreebaseProperty, text: prop })
            } else {
                Ok(qualified_text(label, spaced(parts[parts.len() - 2], '_')))
            }
        },
    }
}

/// The property that a row describes, given what the label expression
/// captured in its label column and the inverse properties found in its
/// last column. The columns are identifier, label, frequency, aliases,
/// inverses; the last two may be missing.
pub open spec fn property_from(
    kg: KnowledgeGraph,
    fields: Seq<Seq<char>>,
    line: Seq<char>,
    label: Option<Seq<char>>,
    inverses: Seq<Seq<char>>,
) -> Result<(Seq<char>, PropInfoView), FaultView> {
    if fields.len() < 3 || fields.len() > 5 {
        Err(FaultView { problem: Problem::InvalidPropertyLine, text: line })
    } else if label is None {
        Err(FaultView { problem: Problem::LabelNotCaptured, text: fields[1] })
    } else {
        let prop = unwrapped(fields[0], '<', '>');
        match property_label(kg, prop, trimmed(label->0)) {
            Err(e) => Err(e),
            Ok(full) => if count_of(fields[2]) is None {
                Err(FaultView { problem: Problem::InvalidCount, text: fields[2] })
            } else {
                Ok(
                    (
                        prop,
                        PropInfoView {
                            label: full,
                            aliases: if fields.len() >= 4 {
                                alias_list(fields[3])
                            } else {
                                Seq::empty()
                            },
                            inverses,
                            count: count_of(fields[2])->0,
                        },
                    ),
                )
            },
        }
    }
}

/// Settles the label under which a property goes.
pub fn label_property(kg: KnowledgeGraph, prop: &str, label: &str) -> (r: Result<String, Fault>)
    ensures
        text_result(r) == property_label(kg, prop@, label@),
{
    match kg {
        KnowledgeGraph::Wikidata => Ok(String::from_str(label)),
        KnowledgeGraph::DBPedia => {
            if begins_with(prop, "ontology") {
                Ok(render_qualified(label, "ontology"))
            } else {
                Ok(String::from_str(label))
            }
        },
        KnowledgeGraph::Freebase => {
            let parts = split_at_each(prop, '.');
            let n = parts.len();
            if n < 2 {
                return Err(Fault::new(Problem::InvalidFreebaseProperty, prop));
            }
            assert(slices(parts@)[n - 2] == parts[n - 2]@);
            let domain = space_out(parts[n - 2], '_');
            Ok(render_qualified(label, domain.as_str()))
        },
    }
}

/// Makes the property of a row from its columns and from what was
/// captured in them.
pub fn assemble_property<'s>(
    kg: KnowledgeGraph,
    fields: &Vec<&'s str>,
    line: &str,
    label: Option<String>,
    inverses: Vec<String>,
) -> (r: Result<(Prop<'s>, PropInfo), Fault>)
    ensures
        match r {
            Ok((prop, info)) => prop is Label && property_from(
                kg,
                slices(fields@),
                line@,
                opt_text(label),
                texts(inverses@),
            ) == Ok::<(Seq<char>, PropInfoView), FaultView>((prop.text(), info@)),
            Err(e) => property_from(
                kg,
                slices(fields@),
                line@,
                opt_text(label),
                texts(inverses@),
            ) == Err::<(Seq<char>, PropInfoView), FaultView>(e@),
        },
{
    let n = fields.len();
    if n < 3 || n > 5 {
        return Err(Fault::new(Problem::InvalidPropertyLine, line));
    }
    assert(slices(fields@)[0] == fields[0]@);
    assert(slices(fields@)[1] == fields[1]@);
    assert(slices(fields@)[2] == fields[2]@);
    let label = match label {
        Some(l) => l,
        None => {
            return Err(Fault::new(Problem::LabelNotCaptured, fields[1]));
        },
    };
    let id = unwrap_text(fields[0], '<', '>');
    let full = match label_property(kg, id, trim(label.as_str())) {
        Ok(full) => full,
        Err(e) => {
            return Err(e);
        },
    };
    let count = match parse_count(fields[2]) {
        Some(c) => c,
        None => {
            return Err(Fault::new(Problem::InvalidCount, fields[2]));
        },
    };
    let aliases = if n >= 4 {
        assert(slices(fields@)[3] == fields[3]@);
        read_aliases(fields[3])
    } else {
        Vec::new()
    };
    assert(n < 4 ==> texts(aliases@) =~= Seq::<Seq<char>>::empty());
    Ok((Prop::Label(id), PropInfo { label: full, aliases, inverses, count }))
}

/// A prefix, a colon and a name.
pub open spec fn prefixed(prefix: Seq<char>, name: Seq<char>) -> Seq<char> {
    prefix + seq![':'] + name
}

fn prefix_name(prefix: &str, name: &str) -> (r: String)
    ensures
        r@ == prefixed(prefix@, name@),
{
    let mut out = String::from_str(prefix);
    out.append(":");
    out.append(name);
    proof {
        reveal_strlit(":");
        assert(":"@ =~= seq![':']);
    }
    out
}

/// The short form of a property, given the identifier captured in it and,
/// for DBpedia, the kind and the name captured in that identifier.
pub open spec fn property_form(
    kg: KnowledgeGraph,
    p: Seq<char>,
    id: Option<Seq<char>>,
    kind: Option<Seq<char>>,
    name: Option<Seq<char>>,
    pfx: Option<Seq<char>>,
) -> Result<Seq<char>, FaultView> {
    match id {
        None => Err(FaultView { problem: Problem::PropertyNotCaptured, text: p }),
        Some(id) => match kg {
            KnowledgeGraph::Wikidata => Ok(
                prefixed(
                    match pfx {
                        Some(x) => x,
                        None => "wdt"@,
                    },
                    id,
                ),
            ),
            KnowledgeGraph::Freebase => Ok(
                prefixed(
                    match pfx {
                        Some(x) => x,
                        None => "fb"@,
                    },
                    id,
                ),
            ),
            KnowledgeGraph::DBPedia => if kind is Some && name is Some {
                Ok(
                    prefixed(
                        if kind->0 == "ontology"@ {
                            "dbo"@
                        } else {
                            "dbp"@
                        },
                        name->0,
                    ),
                )
            } else {
                Err(FaultView { problem: Problem::InvalidDbpediaProperty, text: id })
            },
        },
    }
}

/// Writes the short form of a property from what was captured in it.
pub fn short_property(
    kg: KnowledgeGraph,
    p: &str,
    id: Option<String>,
    kind: Option<String>,
    name: Option<String>,
    pfx: Option<&str>,
) -> (r: Result<String, Fault>)
    ensures
        text_result(r) == property_form(
            kg,
            p@,
            opt_text(id),
            opt_text(kind),
            opt_text(name),
            opt_str(pfx),
        ),
{
    let id = match id {
        Some(id) => id,
        None => {
            return Err(Fault::new(Problem::PropertyNotCaptured, p));
        },
    };
    match kg {
        KnowledgeGraph::Wikidata => {
            let prefix = match pfx {
                Some(x) => x,
                None => "wdt",
            };
            Ok(prefix_name(prefix, id.as_str()))
        },
        KnowledgeGraph::Freebase => {
            let prefix = match pfx {
                Some(x) => x,
                None => "fb",
            };
            Ok(prefix_name(prefix, id.as_str()))
        },
        KnowledgeGraph::DBPedia => match (kind, name) {
            (Some(kind), Some(name)) => {
                let prefix = if *kind.as_str() == *"ontology" {
                    "dbo"
                } else {
                    "dbp"
                };
                Ok(prefix_name(prefix, name.as_str()))
            },
            _ => Err(Fault::new(Problem::InvalidDbpediaProperty, id.as_str())),
        },
    }
}

/// The short form of an entity, given the identifier captured in it.
pub open spec fn entity_form(kg: KnowledgeGraph, e: Seq<char>, id: Option<Seq<char>>) -> Result<
    Seq<char>,
    FaultView,
> {
    match id {
        None => Err(FaultView { problem: Problem::EntityNotCaptured, text: e }),
        Some(id) => Ok(
            prefixed(
                match kg {
                    KnowledgeGraph::Wikidata => "wd"@,
                    KnowledgeGraph::Freebase => "fb"@,
                    KnowledgeGraph::DBPedia => "dbr"@,
                },
                id,
            ),
        ),
    }
}

/// Writes the short form of an entity from what was captured in it.
pub fn short_entity(kg: KnowledgeGraph, e: &str, id: Option<String>) -> (r: Result<String, Fault>)
    ensures
        text_result(r) == entity_form(kg, e@, opt_text(id)),
{
    match id {
        None => Err(Fault::new(Problem::EntityNotCaptured, e)),
        Some(id) => {
            let prefix = match kg {
                KnowledgeGraph::Wikidata => "wd",
                KnowledgeGraph::Freebase => "fb",
                KnowledgeGraph::DBPedia => "dbr",
            };
            Ok(prefix_name(prefix, id.as_str()))
        },
    }
}

/// The views of a sequence of optional strings.
pub open spec fn opt_texts(v: Seq<Option<String>>) -> Seq<Option<Seq<char>>> {
    v.map_values(|o: Option<String>| opt_text(o))
}

/// Every one of `found` holds a text.
pub open spec fn all_found(found: Seq<Option<Seq<char>>>) -> bool {
    forall|i: int| 0 <= i < found.len() ==> (#[trigger] found[i]) is Some
}

/// What a row of redirects says, given the identifier captured in its
/// first column and what was captured in each piece of its second: the
/// identifier and its targets where every one was captured and there is a
/// target at all, else nothing.
pub open spec fn redirect_from(source: Option<Seq<char>>, targets: Seq<Option<Seq<char>>>) -> Option<
    (Seq<char>, Seq<Seq<char>>),
> {
    if source is Some && targets.len() > 0 && all_found(targets) {
        Some((source->0, targets.map_values(|t: Option<Seq<char>>| t->0)))
    } else {
        None
    }
}

/// Settles a row of redirects from what was captured in it.
pub fn settle_redirect(source: Option<String>, targets: Vec<Option<String>>) -> (r: Option<
    (String, Vec<String>),
>)
    ensures
        match r {
            Some((id, list)) => redirect_from(opt_text(source), opt_texts(targets@)) == Some(
                (id@, texts(list@)),
            ),
            None => redirect_from(opt_text(source), opt_texts(targets@)) is None,
        },
{
    let ghost found = opt_texts(targets@);
    let id = match source {
        Some(id) => id,
        None => {
            return None;
        },
    };
    if targets.len() == 0 {
        return None;
    }
    let mut list: Vec<String> = Vec::new();
    let mut i: usize = 0;
    while i < targets.len()
        invariant
            i <= targets.len(),
            found == opt_texts(targets@),
            list.len() == i,
            forall|j: int| 0 <= j < i ==> (#[trigger] found[j]) is Some && list[j]@ == found[j]->0,
        decreases targets.len() - i,
    {
        assert(found[i as int] == opt_text(targets[i as int]));
        match &targets[i] {
            Some(t) => {
                list.push(t.clone());
            },
            None => {
                return None;
            },
        }
        i = i + 1;
    }
    assert(texts(list@) =~= found.map_values(|t: Option<Seq<char>>| t->0));
    Some((id, list))
}

/// What `pattern` captures in each of the first `n` of `pieces`, each
/// piece trimmed before the search.
pub open spec fn captures_of(pattern: Seq<char>, pieces: Seq<Seq<char>>) -> Seq<Option<Seq<char>>> {
    pieces.map_values(|piece: Seq<char>| captured(pattern, trimmed(piece), 1))
}

/// The patterns and the rules of one knowledge base.
#[derive(Debug)]
pub struct KnowledgeGraphProcessor {
    pub label_pattern: Pattern,
    pub prop_pattern: Pattern,
    pub ent_pattern: Pattern,
    pub kind_pattern: Pattern,
    pub kg: KnowledgeGraph,
}

impl KnowledgeGraphProcessor {
    /// The patterns are those of the knowledge base.
    pub open spec fn well_formed(&self) -> bool {
        &&& self.label_pattern@ == label_source()
        &&& self.prop_pattern@ == property_source(self.kg)
        &&& self.ent_pattern@ == entity_source(self.kg)
        &&& self.kind_pattern@ == kind_source()
    }

    /// The first of the four expressions of `kg` that does not compile.
    pub open spec fn first_refused(kg: KnowledgeGraph) -> Option<Seq<char>> {
        if !compiles(property_source(kg)) {
            Some(property_source(kg))
        } else if !compiles(label_source()) {
            Some(label_source())
        } else if !compiles(entity_source(kg)) {
            Some(entity_source(kg))
        } else if !compiles(kind_source()) {
            Some(kind_source())
        } else {
            None
        }
    }

    /// Compiles the patterns of `kg`.
    pub fn new(kg: KnowledgeGraph) -> (r: Result<KnowledgeGraphProcessor, Fault>)
        ensures
            match r {
                Ok(p) => p.kg == kg && p.well_formed() && KnowledgeGraphProcessor::first_refused(kg)
                    is None,
                Err(e) => KnowledgeGraphProcessor::first_refused(kg) == Some(e@.text) && e@.problem
                    == Problem::InvalidPattern,
            },
    {
        let prop_pattern = match Pattern::new(property_pattern_text(kg)) {
            Ok(p) => p,
            Err(e) => {
                return Err(e);
            },
        };
        let label_pattern = match Pattern::new("^\"(.*)\"@en$") {
            Ok(p) => p,
            Err(e) => {
                return Err(e);
            },
        };
        let ent_pattern = match Pattern::new(entity_pattern_text(kg)) {
            Ok(p) => p,
            Err(e) => {
                return Err(e);
            },
        };
        let kind_pattern = match Pattern::new(r"(property|ontology)/([^>]+)") {
            Ok(p) => p,
            Err(e) => {
                return Err(e);
            },
        };
        Ok(KnowledgeGraphProcessor { label_pattern, prop_pattern, ent_pattern, kind_pattern, kg })
    }

    /// The property that the row `line` describes.
    pub open spec fn property_of(&self, line: Seq<char>) -> Result<
        (Seq<char>, PropInfoView),
        FaultView,
    > {
        let fields = split_terminator(line, '\t');
        if fields.len() < 3 || fields.len() > 5 {
            Err(FaultView { problem: Problem::InvalidPropertyLine, text: line })
        } else {
            property_from(
                self.kg,
                fields,
                line,
                captured(self.label_pattern@, fields[1], 1),
                if fields.len() == 5 {
                    let pieces = split_terminator(fields[4], ';');
                    captures_in(self.prop_pattern@, pieces, true, pieces.len())
                } else {
                    Seq::empty()
                },
            )
        }
    }

    /// Reads a row of the property dump.
    pub fn parse_property<'s>(&self, line: &'s str) -> (r: Result<(Prop<'s>, PropInfo), Fault>)
        ensures
            match r {
                Ok((prop, info)) => prop is Label && self.property_of(line@) == Ok::<
                    (Seq<char>, PropInfoView),
                    FaultView,
                >((prop.text(), info@)),
                Err(e) => self.property_of(line@) == Err::<(Seq<char>, PropInfoView), FaultView>(
                    e@,
                ),
            },
    {
        let fields = split_at_each(line, '\t');
        let n = fields.len();
        if n < 3 || n > 5 {
            return Err(Fault::new(Problem::InvalidPropertyLine, line));
        }
        assert(slices(fields@)[1] == fields[1]@);
        let label = self.label_pattern.capture(fields[1]);
        let inverses = if n == 5 {
            assert(slices(fields@)[4] == fields[4]@);
            let pieces = split_at_each(fields[4], ';');
            capture_each(&self.prop_pattern, &pieces, true)
        } else {
            Vec::new()
        };
        assert(n != 5 ==> texts(inverses@) =~= Seq::<Seq<char>>::empty());
        assemble_property(self.kg, &fields, line, label, inverses)
    }

    /// The entity that the row `line` describes.
    pub open spec fn entity_of(&self, line: Seq<char>, ignore_types: bool) -> Result<
        (Seq<char>, EntityInfoView),
        FaultView,
    > {
        let fields = split_terminator(line, '\t');
        if fields.len() < 4 || fields.len() > 6 {
            Err(FaultView { problem: Problem::InvalidEntityLine, text: line })
        } else {
            entity_from(
                fields,
                line,
                captured(self.label_pattern@, fields[1], 1),
                captured(self.label_pattern@, fields[2], 1),
                if ignore_types || fields.len() < 5 {
                    Seq::empty()
                } else {
                    let pieces = split_terminator(fields[4], ';');
                    captures_in(self.ent_pattern@, pieces, false, pieces.len())
                },
            )
        }
    }

    /// Reads a row of the entity dump. With `ignore_types` the type column
    /// is passed over.
    pub fn parse_entity<'s>(&self, line: &'s str, ignore_types: bool) -> (r: Result<
        (Ent<'s>, EntityInfo),
        Fault,
    >)
        ensures
            match r {
                Ok((ent, info)) => ent is Label && self.entity_of(
                    line@,
                    ignore_types,
                ) == Ok::<(Seq<char>, EntityInfoView), FaultView>((ent.text(), info@)),
                Err(e) => self.entity_of(line@, ignore_types) == Err::<
                    (Seq<char>, EntityInfoView),
                    FaultView,
                >(e@),
            },
    {
        let fields = split_at_each(line, '\t');
        let n = fields.len();
        if n < 4 || n > 6 {
            return Err(Fault::new(Problem::InvalidEntityLine, line));
        }
        assert(slices(fields@)[1] == fields[1]@);
        assert(slices(fields@)[2] == fields[2]@);
        let label = self.label_pattern.capture(fields[1]);
        let desc = self.label_pattern.capture(fields[2]);
        let types = if ignore_types || n < 5 {
            Vec::new()
        } else {
            assert(slices(fields@)[4] == fields[4]@);
            let pieces = split_at_each(fields[4], ';');
            capture_each(&self.ent_pattern, &pieces, false)
        };
        assert(ignore_types || n < 5 ==> texts(types@) =~= Seq::<Seq<char>>::empty());
        assemble_entity(&fields, line, label, desc, types)
    }

    /// The form in which the property `p` is written.
    pub open spec fn property_written(&self, p: Seq<char>, short: bool, pfx: Option<Seq<char>>) -> Result<
        Seq<char>,
        FaultView,
    > {
        if !short {
            Ok(p)
        } else {
            let id = captured(self.prop_pattern@, p, 1);
            property_form(
                self.kg,
                p,
                id,
                if id is Some && self.kg == KnowledgeGraph::DBPedia {
                    captured(self.kind_pattern@, id->0, 1)
                } else {
                    None
                },
                if id is Some && self.kg == KnowledgeGraph::DBPedia {
                    captured(self.kind_pattern@, id->0, 2)
                } else {
                    None
                },
                pfx,
            )
        }
    }

    /// Writes the property `p`: as it stands or, with `short`, as a prefix
    /// and the identifier. `pfx` takes the place of the usual prefix.
    pub fn format_property(&self, p: &str, short: bool, pfx: Option<&str>) -> (r: Result<
        String,
        Fault,
    >)
        ensures
            text_result(r) == self.property_written(p@, short, opt_str(pfx)),
    {
        if !short {
            return Ok(String::from_str(p));
        }
        let id = self.prop_pattern.capture(p);
        let mut kind: Option<String> = None;
        let mut name: Option<String> = None;
        match self.kg {
            KnowledgeGraph::DBPedia => {
                match &id {
                    Some(found) => {
                        kind = self.kind_pattern.capture_group(found.as_str(), 1);
                        name = self.kind_pattern.capture_group(found.as_str(), 2);
                    },
                    None => {},
                }
            },
            _ => {},
        }
        short_property(self.kg, p, id, kind, name, pfx)
    }

    /// The short prefix of the entities and the address it stands for.
    pub fn entity_prefixes(&self) -> (r: Vec<(&'static str, &'static str)>)
        ensures
            pair_slices(r@) == entity_prefix_table(self.kg),
    {
        let mut out: Vec<(&'static str, &'static str)> = Vec::new();
        match self.kg {
            KnowledgeGraph::Wikidata => {
                out.push(("wd:", "http://www.wikidata.org/entity/"));
            },
            KnowledgeGraph::Freebase => {
                out.push(("fb:", "http://rdf.freebase.com/ns/"));
            },
            KnowledgeGraph::DBPedia => {
                out.push(("dbr:", "http://dbpedia.org/resource/"));
            },
        }
        assert(pair_slices(out@) =~= entity_prefix_table(self.kg));
        out
    }

    /// The short prefixes of the properties and the addresses they stand
    /// for.
    pub fn property_prefixes(&self) -> (r: Vec<(&'static str, &'static str)>)
        ensures
            pair_slices(r@) == property_prefix_table(self.kg),
    {
        let mut out: Vec<(&'static str, &'static str)> = Vec::new();
        match self.kg {
            KnowledgeGraph::Wikidata => {
                out.push(("wdt:", "http://www.wikidata.org/prop/direct/"));
                out.push(("p:", "http://www.wikidata.org/prop/"));
                out.push(("pq:", "http://www.wikidata.org/prop/qualifier/"));
                out.push(("pqn:", "http://www.wikidata.org/prop/qualifier/value-normalized/"));
                out.push(("ps:", "http://www.wikidata.org/prop/statement/"));
                out.push(("psn:", "http://www.wikidata.org/prop/statement/value-normalized/"));
            },
            KnowledgeGraph::Freebase => {
                out.push(("fbp:", "http://rdf.freebase.com/ns/property."));
            },
            KnowledgeGraph::DBPedia => {
                out.push(("dbp:", "http://dbpedia.org/property/"));
                out.push(("dbo:", "http://dbpedia.org/ontology/"));
            },
        }
        assert(pair_slices(out@) =~= property_prefix_table(self.kg));
        out
    }

    /// Writes the entity `e`: as it stands or, with `short`, as a prefix
    /// and the identifier.
    pub fn format_entity(&self, e: &str, short: bool) -> (r: Result<String, Fault>)
        ensures
            text_result(r) == if short {
                entity_form(self.kg, e@, captured(self.ent_pattern@, e@, 1))
            } else {
                Ok::<Seq<char>, FaultView>(e@)
            },
    {
        if !short {
            return Ok(String::from_str(e));
        }
        short_entity(self.kg, e, self.ent_pattern.capture(e))
    }

    /// What the row `line` of the redirect dump says: an identifier in the
    /// first column, its targets in the second with `;` between them.
    pub open spec fn redirect_of(&self, line: Seq<char>) -> Option<(Seq<char>, Seq<Seq<char>>)> {
        let fields = split_terminator(line, '\t');
        if fields.len() != 2 {
            None
        } else {
            redirect_from(
                captured(self.ent_pattern@, trimmed(fields[0]), 1),
                captures_of(self.ent_pattern@, split_terminator(fields[1], ';')),
            )
        }
    }

    /// Reads a row of the redirect dump. A row that is not made of two
    /// columns, or in which an identifier is not found, yields nothing.
    pub fn parse_redirect(&self, line: &str) -> (r: Option<(String, Vec<String>)>)
        ensures
            match r {
                Some((id, list)) => self.redirect_of(line@) == Some((id@, texts(list@))),
                None => self.redirect_of(line@) is None,
            },
    {
        let fields = split_at_each(line, '\t');
        if fields.len() != 2 {
            return None;
        }
        assert(slices(fields@)[0] == fields[0]@);
        assert(slices(fields@)[1] == fields[1]@);
        let source = self.ent_pattern.capture(trim(fields[0]));
        let pieces = split_at_each(fields[1], ';');
        let mut targets: Vec<Option<String>> = Vec::new();
        let mut i: usize = 0;
        while i < pieces.len()
            invariant
                i <= pieces.len(),
                targets.len() == i,
                forall|j: int|
                    0 <= j < i ==> opt_text(#[trigger] targets[j]) == captured(
                        self.ent_pattern@,
                        trimmed(slices(pieces@)[j]),
                        1,
                    ),
            decreases pieces.len() - i,
        {
            assert(slices(pieces@)[i as int] == pieces[i as int]@);
            targets.push(self.ent_pattern.capture(trim(pieces[i])));
            i = i + 1;
        }
        assert(opt_texts(targets@) =~= captures_of(self.ent_pattern@, slices(pieces@)));
        settle_redirect(source, targets)
    }
}

} // verus!
