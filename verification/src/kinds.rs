//! Identifiers tagged with the way a surface form leads to them, and the
//! knowledge bases that the crate knows.

use vstd::prelude::*;
use std::cmp::Ordering;
use crate::error::{Fault, FaultView, Problem};
use crate::index::Assignment;

verus! {

/// An entity identifier, tagged with how a surface form came to it.
#[derive(Debug, Clone, PartialEq, Eq, Hash)]
pub enum Ent<'a> {
    /// By the entity's label.
    Label(&'a str),
    /// By the entity's label with its qualifier.
    LabelInfo(&'a str),
    /// By one of the entity's aliases.
    Alias(&'a str),
    /// By one of the entity's aliases with its qualifier.
    AliasInfo(&'a str),
}

impl<'s> Ent<'s> {
    /// The identifier.
    pub open spec fn text(self) -> Seq<char> {
        match self {
            Ent::Label(s) => s@,
            Ent::LabelInfo(s) => s@,
            Ent::Alias(s) => s@,
            Ent::AliasInfo(s) => s@,
        }
    }

    /// The tag.
    pub open spec fn kind_of(self) -> Assignment {
        match self {
            Ent::Label(_) => Assignment::OwnLabel,
            Ent::LabelInfo(_) => Assignment::OwnLabelQualified,
            Ent::Alias(_) => Assignment::Alias,
            Ent::AliasInfo(_) => Assignment::AliasQualified,
        }
    }

    /// The identifier.
    pub fn as_str(&self) -> (r: &'s str)
        ensures
            r@ == self.text(),
    {
        match self {
            Ent::Label(s) => s,
            Ent::LabelInfo(s) => s,
            Ent::Alias(s) => s,
            Ent::AliasInfo(s) => s,
        }
    }

    /// The tag.
    pub fn kind(&self) -> (r: Assignment)
        ensures
            r == self.kind_of(),
    {
        match self {
            Ent::Label(_) => Assignment::OwnLabel,
            Ent::LabelInfo(_) => Assignment::OwnLabelQualified,
            Ent::Alias(_) => Assignment::Alias,
            Ent::AliasInfo(_) => Assignment::AliasQualified,
        }
    }

    /// The identifier `id` under the tag `kind`.
    pub fn tagged(id: &'s str, kind: Assignment) -> (r: Ent<'s>)
        ensures
            r.text() == id@,
            r.kind_of() == kind,
    {
        match kind {
            Assignment::OwnLabel => Ent::Label(id),
            Assignment::OwnLabelQualified => Ent::LabelInfo(id),
            Assignment::Alias => Ent::Alias(id),
            Assignment::AliasQualified => Ent::AliasInfo(id),
        }
    }

    /// Orders by the tag alone: `Label`, `LabelInfo`, `Alias`, `AliasInfo`.
    /// The identifiers play no part.
    pub fn cmp(&self, other: &Ent<'_>) -> (o: Ordering)
        ensures
            o == Ordering::Less <==> self.kind_of().rank_of() < other.kind_of().rank_of(),
            o == Ordering::Equal <==> self.kind_of().rank_of() == other.kind_of().rank_of(),
            o == Ordering::Greater <==> self.kind_of().rank_of() > other.kind_of().rank_of(),
    {
        let a = self.kind().rank();
        let b = other.kind().rank();
        if a < b {
            Ordering::Less
        } else if a > b {
            Ordering::Greater
        } else {
            Ordering::Equal
        }
    }
}

/// A property identifier, tagged with how a surface form came to it.
#[derive(Debug, Clone, PartialEq, Eq, Hash)]
pub enum Prop<'a> {
    /// By the property's label.
    Label(&'a str),
    /// By one of the property's aliases.
    Alias(&'a str),
}

impl<'s> Prop<'s> {
    /// The identifier.
    pub open spec fn text(self) -> Seq<char> {
        match self {
            Prop::Label(s) => s@,
            Prop::Alias(s) => s@,
        }
    }

    /// The identifier.
    pub fn as_str(&self) -> (r: &'s str)
        ensures
            r@ == self.text(),
    {
        match self {
            Prop::Label(s) => s,
            Prop::Alias(s) => s,
        }
    }

    /// Orders by the tag alone: `Label` before `Alias`. The identifiers
    /// play no part.
    pub fn cmp(&self, other: &Prop<'_>) -> (o: Ordering)
        ensures
            o == Ordering::Less <==> self is Label && other is Alias,
            o == Ordering::Greater <==> self is Alias && other is Label,
            o == Ordering::Equal <==> (self is Label <==> other is Label),
    {
        match (self, other) {
            (Prop::Label(_), Prop::Alias(_)) => Ordering::Less,
            (Prop::Alias(_), Prop::Label(_)) => Ordering::Greater,
            _ => Ordering::Equal,
        }
    }
}

/// The knowledge bases whose dumps the crate reads.
#[derive(Debug, Clone, Copy, PartialEq, Eq, Hash, Structural)]
pub enum KnowledgeGraph {
    Wikidata,
    Freebase,
    DBPedia,
}

impl KnowledgeGraph {
    /// The knowledge base of that name.
    pub open spec fn named(value: Seq<char>) -> Option<KnowledgeGraph> {
        if value == "wikidata"@ {
            Some(KnowledgeGraph::Wikidata)
        } else if value == "freebase"@ {
            Some(KnowledgeGraph::Freebase)
        } else if value == "dbpedia"@ {
            Some(KnowledgeGraph::DBPedia)
        } else {
            None
        }
    }

    /// The knowledge base named `wikidata`, `freebase` or `dbpedia`; for
    /// any other name the fault `InvalidKnowledgeBase` with that name.
    pub fn try_from(value: &str) -> (r: Result<KnowledgeGraph, Fault>)
        ensures
            match r {
                Ok(kg) => KnowledgeGraph::named(value@) == Some(kg),
                Err(e) => KnowledgeGraph::named(value@) is None && e@ == (FaultView {
                    problem: Problem::InvalidKnowledgeBase,
                    text: value@,
                }),
            },
    {
        if *value == *"wikidata" {
            Ok(KnowledgeGraph::Wikidata)
        } else if *value == *"freebase" {
            Ok(KnowledgeGraph::Freebase)
        } else if *value == *"dbpedia" {
            Ok(KnowledgeGraph::DBPedia)
        } else {
            Err(Fault::new(Problem::InvalidKnowledgeBase, value))
        }
    }
}

} // verus!
