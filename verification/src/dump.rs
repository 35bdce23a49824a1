//! Whole dumps: every row is read, and the first fault ends the run.

use vstd::prelude::*;
use vstd::string::*;
use crate::error::{Fault, FaultView};
use crate::groups::{lemma_positions_with, positions, positions_with, TextGroups};
use crate::info::{info_views, EntityInfo, EntityInfoView, PropInfo, PropInfoView};
use crate::processor::KnowledgeGraphProcessor;
use crate::text::{clone_texts, texts};

verus! {

/// The views of a list of redirects.
pub open spec fn redirect_views(list: Seq<(String, Vec<String>)>) -> Seq<(Seq<char>, Seq<Seq<char>>)> {
    list.map_values(|r: (String, Vec<String>)| (r.0@, texts(r.1@)))
}

/// The identifiers that are redirected, row by row.
pub open spec fn redirect_sources(list: Seq<(Seq<char>, Seq<Seq<char>>)>) -> Seq<Seq<char>> {
    list.map_values(|r: (Seq<char>, Seq<Seq<char>>)| r.0)
}

/// The redirects that the first `n` rows hold; rows that hold none are
/// passed over.
pub open spec fn redirect_rows(p: &KnowledgeGraphProcessor, rows: Seq<Seq<char>>, n: nat) -> Seq<
    (Seq<char>, Seq<Seq<char>>),
>
    decreases n,
{
    if n == 0 {
        Seq::empty()
    } else {
        match p.redirect_of(rows[n - 1]) {
            Some(found) => redirect_rows(p, rows, (n - 1) as nat).push(found),
            None => redirect_rows(p, rows, (n - 1) as nat),
        }
    }
}

/// Reads the rows of the redirect dump.
pub fn read_redirects(processor: &KnowledgeGraphProcessor, rows: &Vec<String>) -> (r: Vec<
    (String, Vec<String>),
>)
    ensures
        redirect_views(r@) == redirect_rows(processor, texts(rows@), rows.len() as nat),
{
    let mut out: Vec<(String, Vec<String>)> = Vec::new();
    let mut i: usize = 0;
    assert(redirect_views(out@) =~= Seq::empty());
    while i < rows.len()
        invariant
            i <= rows.len(),
            redirect_views(out@) == redirect_rows(processor, texts(rows@), i as nat),
        decreases rows.len() - i,
    {
        assert(texts(rows@)[i as int] == rows[i as int]@);
        match processor.parse_redirect(rows[i].as_str()) {
            Some((id, targets)) => {
                let ghost before = out@;
                out.push((id, targets));
                assert(redirect_views(out@) =~= redirect_views(before).push((id@, texts(targets@))));
            },
            None => {},
        }
        i = i + 1;
    }
    out
}

/// Where `id` is redirected to: the targets in the last of the first `n`
/// rows that redirect it.
pub open spec fn redirect_for(list: Seq<(Seq<char>, Seq<Seq<char>>)>, id: Seq<char>, n: nat) -> Option<
    Seq<Seq<char>>,
>
    decreases n,
{
    if n == 0 {
        None
    } else if list[n - 1].0 == id {
        Some(list[n - 1].1)
    } else {
        redirect_for(list, id, (n - 1) as nat)
    }
}

/// The last row that redirects `id` is the last member of the group of
/// `id` among the sources.
proof fn lemma_redirect_for(list: Seq<(Seq<char>, Seq<Seq<char>>)>, id: Seq<char>, n: nat)
    requires
        n <= list.len(),
    ensures
        positions_with(redirect_sources(list), id, n).len() == 0 ==> redirect_for(list, id, n)
            is None,
        positions_with(redirect_sources(list), id, n).len() > 0 ==> redirect_for(list, id, n)
            == Some(list[positions_with(redirect_sources(list), id, n).last()].1),
    decreases n,
{
    if n > 0 {
        lemma_redirect_for(list, id, (n - 1) as nat);
        assert(redirect_sources(list)[n - 1] == list[n - 1].0);
    }
}

/// The redirected identifiers, filed.
fn file_sources(redirects: &Vec<(String, Vec<String>)>) -> (r: TextGroups)
    ensures
        r.well_formed(),
        r.keys() == redirect_sources(redirect_views(redirects@)),
{
    let ghost sources = redirect_sources(redirect_views(redirects@));
    let mut filed = TextGroups::new();
    let mut i: usize = 0;
    assert(sources.take(0) =~= Seq::<Seq<char>>::empty());
    while i < redirects.len()
        invariant
            i <= redirects.len(),
            sources == redirect_sources(redirect_views(redirects@)),
            filed.well_formed(),
            filed.keys() == sources.take(i as int),
        decreases redirects.len() - i,
    {
        assert(redirect_views(redirects@)[i as int].0 == redirects[i as int].0@);
        filed.add(redirects[i].0.as_str());
        assert(sources.take(i + 1) =~= sources.take(i as int).push(redirects[i as int].0@));
        i = i + 1;
    }
    assert(sources.take(redirects.len() as int) =~= sources);
    filed
}

/// The entity of a row with its redirects.
pub open spec fn with_redirects(
    entity: (Seq<char>, EntityInfoView),
    redirects: Seq<(Seq<char>, Seq<Seq<char>>)>,
) -> EntityInfoView {
    EntityInfoView {
        redirects: redirect_for(redirects, entity.0, redirects.len()),
        ..entity.1
    }
}

/// The identifiers and the entities of the first `n` rows, each entity
/// with its redirects; the fault of the first row that has one.
pub open spec fn entity_rows(
    p: &KnowledgeGraphProcessor,
    rows: Seq<Seq<char>>,
    ignore_types: bool,
    redirects: Seq<(Seq<char>, Seq<Seq<char>>)>,
    n: nat,
) -> Result<(Seq<Seq<char>>, Seq<EntityInfoView>), FaultView>
    decreases n,
{
    if n == 0 {
        Ok((Seq::empty(), Seq::empty()))
    } else {
        match entity_rows(p, rows, ignore_types, redirects, (n - 1) as nat) {
            Err(e) => Err(e),
            Ok((ids, infos)) => match p.entity_of(rows[n - 1], ignore_types) {
                Err(e) => Err(e),
                Ok(entity) => Ok((ids.push(entity.0), infos.push(with_redirects(entity, redirects)))),
            },
        }
    }
}

/// Once a row has a fault, the run has that fault however many rows
/// follow.
pub proof fn lemma_fault_ends_the_run(
    p: &KnowledgeGraphProcessor,
    rows: Seq<Seq<char>>,
    ignore_types: bool,
    redirects: Seq<(Seq<char>, Seq<Seq<char>>)>,
    k: nat,
    n: nat,
)
    requires
        k <= n,
        entity_rows(p, rows, ignore_types, redirects, k) is Err,
    ensures
        entity_rows(p, rows, ignore_types, redirects, n) == entity_rows(
            p,
            rows,
            ignore_types,
            redirects,
            k,
        ),
    decreases n,
{
    if k < n {
        lemma_fault_ends_the_run(p, rows, ignore_types, redirects, k, (n - 1) as nat);
    }
}

/// Reads the rows of the entity dump and gives each entity its redirects.
/// The first row that cannot be read ends the run with its fault.
pub fn read_entities(
    processor: &KnowledgeGraphProcessor,
    rows: &Vec<String>,
    ignore_types: bool,
    redirects: &Vec<(String, Vec<String>)>,
) -> (r: Result<(Vec<String>, Vec<EntityInfo>), Fault>)
    ensures
        match r {
            Ok((ids, infos)) => ids.len() == rows.len() && infos.len() == rows.len()
                && entity_rows(
                processor,
                texts(rows@),
                ignore_types,
                redirect_views(redirects@),
                rows.len() as nat,
            ) == Ok::<(Seq<Seq<char>>, Seq<EntityInfoView>), FaultView>(
                (texts(ids@), info_views(infos@)),
            ),
            Err(e) => entity_rows(
                processor,
                texts(rows@),
                ignore_types,
                redirect_views(redirects@),
                rows.len() as nat,
            ) == Err::<(Seq<Seq<char>>, Seq<EntityInfoView>), FaultView>(e@),
        },
{
    let ghost lines = texts(rows@);
    let ghost list = redirect_views(redirects@);
    let filed = file_sources(redirects);
    let mut ids: Vec<String> = Vec::new();
    let mut infos: Vec<EntityInfo> = Vec::new();
    let mut i: usize = 0;
    assert(texts(ids@) =~= Seq::<Seq<char>>::empty());
    assert(info_views(infos@) =~= Seq::<EntityInfoView>::empty());
    while i < rows.len()
        invariant
            i <= rows.len(),
            lines == texts(rows@),
            list == redirect_views(redirects@),
            filed.well_formed(),
            filed.keys() == redirect_sources(list),
            ids.len() == i,
            infos.len() == i,
            entity_rows(processor, lines, ignore_types, list, i as nat) == Ok::<
                (Seq<Seq<char>>, Seq<EntityInfoView>),
                FaultView,
            >((texts(ids@), info_views(infos@))),
        decreases rows.len() - i,
    {
        assert(lines[i as int] == rows[i as int]@);
        match processor.parse_entity(rows[i].as_str(), ignore_types) {
            Err(e) => {
                proof {
                    lemma_fault_ends_the_run(
                        processor,
                        lines,
                        ignore_types,
                        list,
                        (i + 1) as nat,
                        rows.len() as nat,
                    );
                }
                return Err(e);
            },
            Ok((ent, info)) => {
                let id = ent.as_str();
                let mut info = info;
                proof {
                    lemma_redirect_for(list, id@, list.len());
                    lemma_positions_with(redirect_sources(list), id@, list.len());
                }
                let ghost parsed = info@;
                match filed.group(id) {
                    Some(found) => {
                        let last = found[found.len() - 1];
                        assert(positions(found@).last() == last);
                        assert(list[last as int].1 == texts(redirects[last as int].1@));
                        info.redirects = Some(clone_texts(&redirects[last].1));
                    },
                    None => {
                        proof {
                            let members = positions_with(redirect_sources(list), id@, list.len());
                            if members.len() > 0 {
                                assert(redirect_sources(list)[members[0]] == id@);
                            }
                        }
                        info.redirects = None;
                    },
                }
                assert(info@ == with_redirects((id@, parsed), list));
                let ghost ids_before = ids@;
                let ghost infos_before = infos@;
                ids.push(String::from_str(id));
                infos.push(info);
                assert(texts(ids@) =~= texts(ids_before).push(id@));
                assert(info_views(infos@) =~= info_views(infos_before).push(
                    with_redirects((id@, parsed), list),
                ));
            },
        }
        i = i + 1;
    }
    Ok((ids, infos))
}

/// The views of a sequence of property statistics.
pub open spec fn prop_views(infos: Seq<PropInfo>) -> Seq<PropInfoView> {
    infos.map_values(|i: PropInfo| i@)
}

/// The identifiers and the properties of the first `n` rows; the fault of
/// the first row that has one.
pub open spec fn property_rows(p: &KnowledgeGraphProcessor, rows: Seq<Seq<char>>, n: nat) -> Result<
    (Seq<Seq<char>>, Seq<PropInfoView>),
    FaultView,
>
    decreases n,
{
    if n == 0 {
        Ok((Seq::empty(), Seq::empty()))
    } else {
        match property_rows(p, rows, (n - 1) as nat) {
            Err(e) => Err(e),
            Ok((ids, infos)) => match p.property_of(rows[n - 1]) {
                Err(e) => Err(e),
                Ok(property) => Ok((ids.push(property.0), infos.push(property.1))),
            },
        }
    }
}

/// Once a row has a fault, the run has that fault however many rows
/// follow.
pub proof fn lemma_fault_ends_the_property_run(
    p: &KnowledgeGraphProcessor,
    rows: Seq<Seq<char>>,
    k: nat,
    n: nat,
)
    requires
        k <= n,
        property_rows(p, rows, k) is Err,
    ensures
        property_rows(p, rows, n) == property_rows(p, rows, k),
    decreases n,
{
    if k < n {
        lemma_fault_ends_the_property_run(p, rows, k, (n - 1) as nat);
    }
}

/// Reads the rows of the property dump. The first row that cannot be read
/// ends the run with its fault.
pub fn read_properties(processor: &KnowledgeGraphProcessor, rows: &Vec<String>) -> (r: Result<
    (Vec<String>, Vec<PropInfo>),
    Fault,
>)
    ensures
        match r {
            Ok((ids, infos)) => ids.len() == rows.len() && infos.len() == rows.len()
                && property_rows(processor, texts(rows@), rows.len() as nat) == Ok::<
                (Seq<Seq<char>>, Seq<PropInfoView>),
                FaultView,
            >((texts(ids@), prop_views(infos@))),
            Err(e) => property_rows(processor, texts(rows@), rows.len() as nat) == Err::<
                (Seq<Seq<char>>, Seq<PropInfoView>),
                FaultView,
            >(e@),
        },
{
    let ghost lines = texts(rows@);
    let mut ids: Vec<String> = Vec::new();
    let mut infos: Vec<PropInfo> = Vec::new();
    let mut i: usize = 0;
    assert(texts(ids@) =~= Seq::<Seq<char>>::empty());
    assert(prop_views(infos@) =~= Seq::<PropInfoView>::empty());
    while i < rows.len()
        invariant
            i <= rows.len(),
            lines == texts(rows@),
            ids.len() == i,
            infos.len() == i,
            property_rows(processor, lines, i as nat) == Ok::<
                (Seq<Seq<char>>, Seq<PropInfoView>),
                FaultView,
            >((texts(ids@), prop_views(infos@))),
        decreases rows.len() - i,
    {
        assert(lines[i as int] == rows[i as int]@);
        match processor.parse_property(rows[i].as_str()) {
            Err(e) => {
                proof {
                    lemma_fault_ends_the_property_run(
                        processor,
                        lines,
                        (i + 1) as nat,
                        rows.len() as nat,
                    );
                }
                return Err(e);
            },
            Ok((prop, info)) => {
                let ghost ids_before = ids@;
                let ghost infos_before = infos@;
                ids.push(String::from_str(prop.as_str()));
                infos.push(info);
                assert(texts(ids@) =~= texts(ids_before).push(prop.text()));
                assert(prop_views(infos@) =~= prop_views(infos_before).push(info@));
            },
        }
        i = i + 1;
    }
    Ok((ids, infos))
}

} // verus!
