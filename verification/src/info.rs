//! The statistics of entities and properties as the dump gives them, and
//! the records that the index builder makes of them.

use vstd::prelude::*;
use vstd::string::*;
use vstd::hash_map::StringHashMap;
use crate::error::{Fault, FaultView, Problem};
use crate::record::{Record, RecordView};
use crate::text::{clone_texts, opt_list, texts};

verus! {

/// What the dump says of an entity.
#[derive(Clone, Debug)]
pub struct EntityInfo {
    pub label: String,
    /// Free-text description; empty where there is none.
    pub desc: String,
    pub aliases: Vec<String>,
    /// The types of the entity. The last one is the one that counts.
    pub types: Vec<String>,
    pub count: usize,
    pub redirects: Option<Vec<String>>,
}

pub struct EntityInfoView {
    pub label: Seq<char>,
    pub desc: Seq<char>,
    pub aliases: Seq<Seq<char>>,
    pub types: Seq<Seq<char>>,
    pub count: usize,
    pub redirects: Option<Seq<Seq<char>>>,
}

impl View for EntityInfo {
    type V = EntityInfoView;

    open spec fn view(&self) -> EntityInfoView {
        EntityInfoView {
            label: self.label@,
            desc: self.desc@,
            aliases: texts(self.aliases@),
            types: texts(self.types@),
            count: self.count,
            redirects: opt_list(self.redirects),
        }
    }
}

impl EntityInfoView {
    /// What tells the entity from others of its label: its last type where
    /// it has types, else its description.
    pub open spec fn info(self) -> Seq<char> {
        if self.types.len() > 0 {
            self.types.last()
        } else {
            self.desc
        }
    }
}

impl EntityInfo {
    /// What tells the entity from others of its label: its last type where
    /// it has types, else its description.
    pub fn info(&self) -> (r: &str)
        ensures
            r@ == self@.info(),
    {
        let n = self.types.len();
        if n > 0 {
            assert(texts(self.types@)[n - 1] == self.types[n - 1]@);
            self.types[n - 1].as_str()
        } else {
            self.desc.as_str()
        }
    }
}

/// What the dump says of a property.
#[derive(Clone, Debug)]
pub struct PropInfo {
    pub label: String,
    pub aliases: Vec<String>,
    pub inverses: Vec<String>,
    pub count: usize,
}

pub struct PropInfoView {
    pub label: Seq<char>,
    pub aliases: Seq<Seq<char>>,
    pub inverses: Seq<Seq<char>>,
    pub count: usize,
}

impl View for PropInfo {
    type V = PropInfoView;

    open spec fn view(&self) -> PropInfoView {
        PropInfoView {
            label: self.label@,
            aliases: texts(self.aliases@),
            inverses: texts(self.inverses@),
            count: self.count,
        }
    }
}

impl PropInfo {
    /// The record of the property `id`: it has no qualifier and no
    /// redirects.
    pub fn to_record(&self, id: &str) -> (r: Record)
        ensures
            r@ == (RecordView {
                id: id@,
                label: self@.label,
                qualifier: Seq::empty(),
                aliases: self@.aliases,
                frequency: self@.count,
                redirects: None,
            }),
    {
        Record {
            id: String::from_str(id),
            label: self.label.clone(),
            qualifier: String::new(),
            aliases: clone_texts(&self.aliases),
            frequency: self.count,
            redirects: None,
        }
    }
}

/// The views of a sequence of entity statistics.
pub open spec fn info_views(infos: Seq<EntityInfo>) -> Seq<EntityInfoView> {
    infos.map_values(|i: EntityInfo| i@)
}

/// No identifier stands twice in `ids`.
pub open spec fn ids_distinct(ids: Seq<Seq<char>>) -> bool {
    forall|j: int, k: int| 0 <= j < ids.len() && 0 <= k < ids.len() && j != k ==> ids[j] != ids[k]
}

/// Position `k` is the first at which an identifier stands that stood
/// before.
pub open spec fn first_repeat(ids: Seq<Seq<char>>, k: int) -> bool {
    &&& 0 <= k < ids.len()
    &&& ids_distinct(ids.take(k))
    &&& exists|j: int| 0 <= j < k && ids[j] == ids[k]
}

/// A table from each identifier to its position is `table` for `ids`.
pub open spec fn locates(table: Map<Seq<char>, usize>, ids: Seq<Seq<char>>) -> bool {
    &&& forall|k: int| 0 <= k < ids.len() ==> table.contains_key(#[trigger] ids[k]) && table[ids[k]] == k
    &&& forall|id: Seq<char>| #[trigger]
        table.contains_key(id) ==> 0 <= table[id] < ids.len() && ids[table[id] as int] == id
}

/// Makes the table from each identifier to its position. Two rows with
/// one identifier are the fault `DuplicateId`, reported for the first
/// identifier that repeats.
pub fn locate_ids(ids: &Vec<String>) -> (r: Result<StringHashMap<usize>, Fault>)
    ensures
        match r {
            Ok(table) => ids_distinct(texts(ids@)) && locates(table@, texts(ids@)),
            Err(e) => exists|k: int| #[trigger]
                first_repeat(texts(ids@), k) && e@ == (FaultView {
                    problem: Problem::DuplicateId,
                    text: texts(ids@)[k],
                }),
        },
{
    let ghost all = texts(ids@);
    let mut table: StringHashMap<usize> = StringHashMap::new();
    let mut k: usize = 0;
    assert(all.take(0) =~= Seq::<Seq<char>>::empty());
    while k < ids.len()
        invariant
            k <= ids.len(),
            all == texts(ids@),
            ids_distinct(all.take(k as int)),
            locates(table@, all.take(k as int)),
        decreases ids.len() - k,
    {
        let id = ids[k].as_str();
        assert(all[k as int] == id@);
        if table.contains_key(id) {
            proof {
                let j = table@[id@] as int;
                assert(all.take(k as int)[j] == id@);
                assert(0 <= j < k && all[j] == all[k as int]);
                assert(first_repeat(all, k as int));
            }
            return Err(Fault::new(Problem::DuplicateId, id));
        }
        let ghost before = table@;
        table.insert(String::from_str(id), k);
        proof {
            let now = all.take(k + 1);
            let was = all.take(k as int);
            assert forall|a: int, b: int|
                0 <= a < now.len() && 0 <= b < now.len() && a != b implies now[a] != now[b] by {
                if a < k && b < k {
                    assert(was[a] != was[b]);
                } else if a < k {
                    assert(before.contains_key(was[a]));
                } else {
                    assert(before.contains_key(was[b]));
                }
            }
            assert forall|a: int| 0 <= a < now.len() implies table@.contains_key(
                #[trigger] now[a],
            ) && table@[now[a]] == a by {
                if a < k {
                    assert(was[a] == now[a]);
                    assert(before.contains_key(was[a]));
                }
            }
            assert forall|t: Seq<char>| #[trigger] table@.contains_key(t) implies 0 <= table@[t]
                < now.len() && now[table@[t] as int] == t by {
                if t != id@ {
                    assert(before.contains_key(t));
                    assert(was[before[t] as int] == t);
                }
            }
        }
        k = k + 1;
    }
    assert(all.take(ids.len() as int) =~= all);
    Ok(table)
}

/// The position of the record with the identifier `id`.
pub open spec fn position_of(ids: Seq<Seq<char>>, id: Seq<char>) -> Option<int> {
    if exists|k: int| 0 <= k < ids.len() && ids[k] == id {
        Some(choose|k: int| 0 <= k < ids.len() && ids[k] == id)
    } else {
        None
    }
}

/// Among the first `n` of `types`, the position of the entity that counts
/// as the type: of those that are entities of the run the most frequent
/// one, and of several such the last that is named.
pub open spec fn leading_type(
    ids: Seq<Seq<char>>,
    infos: Seq<EntityInfoView>,
    types: Seq<Seq<char>>,
    n: nat,
) -> Option<int>
    decreases n,
{
    if n == 0 {
        None
    } else {
        let before = leading_type(ids, infos, types, (n - 1) as nat);
        match position_of(ids, types[n - 1]) {
            None => before,
            Some(k) => match before {
                None => Some(k),
                Some(b) => if infos[k].count >= infos[b].count {
                    Some(k)
                } else {
                    Some(b)
                },
            },
        }
    }
}

/// The qualifier of entity `p`: the label of its leading type; its
/// description where none of its types is an entity of the run.
pub open spec fn qualifier_of(ids: Seq<Seq<char>>, infos: Seq<EntityInfoView>, p: int) -> Seq<char> {
    match leading_type(ids, infos, infos[p].types, infos[p].types.len()) {
        Some(k) => infos[k].label,
        None => infos[p].desc,
    }
}

/// The record of entity `p`.
pub open spec fn record_of(ids: Seq<Seq<char>>, infos: Seq<EntityInfoView>, p: int) -> RecordView {
    RecordView {
        id: ids[p],
        label: infos[p].label,
        qualifier: qualifier_of(ids, infos, p),
        aliases: infos[p].aliases,
        frequency: infos[p].count,
        redirects: infos[p].redirects,
    }
}

/// Finds the qualifier of entity `p`.
pub fn find_qualifier(
    ids: &Vec<String>,
    infos: &Vec<EntityInfo>,
    table: &StringHashMap<usize>,
    p: usize,
) -> (r: String)
    requires
        ids.len() == infos.len(),
        p < infos.len(),
        ids_distinct(texts(ids@)),
        locates(table@, texts(ids@)),
    ensures
        r@ == qualifier_of(texts(ids@), info_views(infos@), p as int),
{
    let ghost all = texts(ids@);
    let ghost views = info_views(infos@);
    let info = &infos[p];
    assert(views[p as int] == info@);
    let mut best: Option<usize> = None;
    let mut t: usize = 0;
    while t < info.types.len()
        invariant
            t <= info.types.len(),
            ids.len() == infos.len(),
            all == texts(ids@),
            views == info_views(infos@),
            views[p as int] == info@,
            ids_distinct(all),
            locates(table@, all),
            match best {
                Some(b) => b < infos.len() && leading_type(all, views, info@.types, t as nat)
                    == Some(b as int),
                None => leading_type(all, views, info@.types, t as nat) is None,
            },
        decreases info.types.len() - t,
    {
        let name = info.types[t].as_str();
        assert(info@.types[t as int] == name@);
        match table.get(name) {
            None => {
                assert(position_of(all, name@) is None) by {
                    if exists|k: int| 0 <= k < all.len() && all[k] == name@ {
                        let k = choose|k: int| 0 <= k < all.len() && all[k] == name@;
                        assert(table@.contains_key(all[k]));
                    }
                }
            },
            Some(found) => {
                let k = *found;
                proof {
                    assert(all[k as int] == name@);
                    let c = choose|c: int| 0 <= c < all.len() && all[c] == name@;
                    assert(c == k);
                    assert(views[k as int] == infos[k as int]@);
                    if best is Some {
                        assert(views[best->0 as int] == infos[best->0 as int]@);
                    }
                }
                best = match best {
                    None => Some(k),
                    Some(b) => if infos[k].count >= infos[b].count {
                        Some(k)
                    } else {
                        Some(b)
                    },
                };
            },
        }
        t = t + 1;
    }
    match best {
        Some(b) => {
            assert(views[b as int] == infos[b as int]@);
            infos[b].label.clone()
        },
        None => info.desc.clone(),
    }
}

/// Makes the records of the entities: each with its qualifier settled.
/// Two entities with one identifier are the fault `DuplicateId`.
pub fn resolve_records(ids: &Vec<String>, infos: &Vec<EntityInfo>) -> (r: Result<
    Vec<Record>,
    Fault,
>)
    requires
        ids.len() == infos.len(),
    ensures
        match r {
            Ok(records) => {
                &&& ids_distinct(texts(ids@))
                &&& records.len() == ids.len()
                &&& forall|p: int|
                    0 <= p < records.len() ==> (#[trigger] records[p])@ == record_of(
                        texts(ids@),
                        info_views(infos@),
                        p,
                    )
            },
            Err(e) => exists|k: int| #[trigger]
                first_repeat(texts(ids@), k) && e@ == (FaultView {
                    problem: Problem::DuplicateId,
                    text: texts(ids@)[k],
                }),
        },
{
    let table = match locate_ids(ids) {
        Ok(table) => table,
        Err(e) => {
            return Err(e);
        },
    };
    let ghost all = texts(ids@);
    let ghost views = info_views(infos@);
    let mut records: Vec<Record> = Vec::new();
    let mut p: usize = 0;
    while p < infos.len()
        invariant
            p <= infos.len(),
            ids.len() == infos.len(),
            all == texts(ids@),
            views == info_views(infos@),
            ids_distinct(all),
            locates(table@, all),
            records.len() == p,
            forall|q: int| 0 <= q < p ==> (#[trigger] records[q])@ == record_of(all, views, q),
        decreases infos.len() - p,
    {
        let info = &infos[p];
        assert(views[p as int] == info@);
        assert(all[p as int] == ids[p as int]@);
        let redirects = match &info.redirects {
            Some(list) => Some(clone_texts(list)),
            None => None,
        };
        records.push(
            Record {
                id: ids[p].clone(),
                label: info.label.clone(),
                qualifier: find_qualifier(ids, infos, &table, p),
                aliases: clone_texts(&info.aliases),
                frequency: info.count,
                redirects,
            },
        );
        p = p + 1;
    }
    Ok(records)
}

} // verus!
