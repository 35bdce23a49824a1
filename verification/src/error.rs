//! What can be wrong with the input.

use vstd::prelude::*;
use vstd::string::*;

verus! {

/// The kinds of fault.
#[derive(Clone, Copy, Debug, PartialEq, Eq, Structural)]
pub enum Problem {
    /// The name is that of no knowledge base.
    InvalidKnowledgeBase,
    /// A property row has too few or too many columns.
    InvalidPropertyLine,
    /// An entity row has too few or too many columns.
    InvalidEntityLine,
    /// The label column does not hold an English literal.
    LabelNotCaptured,
    /// A Freebase property has no domain before its name.
    InvalidFreebaseProperty,
    /// The frequency column holds no count.
    InvalidCount,
    /// The text holds no property identifier.
    PropertyNotCaptured,
    /// The text holds no entity identifier.
    EntityNotCaptured,
    /// A DBpedia property is neither of the ontology nor a plain property.
    InvalidDbpediaProperty,
    /// Two rows have one identifier.
    DuplicateId,
    /// A pattern could not be compiled.
    InvalidPattern,
}

/// A fault and the text that has it.
#[derive(Clone, Debug)]
pub struct Fault {
    pub problem: Problem,
    pub text: String,
}

pub struct FaultView {
    pub problem: Problem,
    pub text: Seq<char>,
}

impl View for Fault {
    type V = FaultView;

    open spec fn view(&self) -> FaultView {
        FaultView { problem: self.problem, text: self.text@ }
    }
}

impl Problem {
    /// What a message about this kind of fault begins with.
    pub open spec fn heading(self) -> Seq<char> {
        match self {
            Problem::InvalidKnowledgeBase => "invalid knowledge base "@,
            Problem::InvalidPropertyLine => "invalid property line: "@,
            Problem::InvalidEntityLine => "invalid entity line: "@,
            Problem::LabelNotCaptured => "failed to capture label in "@,
            Problem::InvalidFreebaseProperty => "invalid freebase property: "@,
            Problem::InvalidCount => "invalid count: "@,
            Problem::PropertyNotCaptured => "failed to capture property in "@,
            Problem::EntityNotCaptured => "failed to capture entity in "@,
            Problem::InvalidDbpediaProperty => "invalid dbpedia property: "@,
            Problem::DuplicateId => "entities should be unique: "@,
            Problem::InvalidPattern => "invalid pattern: "@,
        }
    }

    fn heading_text(self) -> (r: &'static str)
        ensures
            r@ == self.heading(),
    {
        match self {
            Problem::InvalidKnowledgeBase => "invalid knowledge base ",
            Problem::InvalidPropertyLine => "invalid property line: ",
            Problem::InvalidEntityLine => "invalid entity line: ",
            Problem::LabelNotCaptured => "failed to capture label in ",
            Problem::InvalidFreebaseProperty => "invalid freebase property: ",
            Problem::InvalidCount => "invalid count: ",
            Problem::PropertyNotCaptured => "failed to capture property in ",
            Problem::EntityNotCaptured => "failed to capture entity in ",
            Problem::InvalidDbpediaProperty => "invalid dbpedia property: ",
            Problem::DuplicateId => "entities should be unique: ",
            Problem::InvalidPattern => "invalid pattern: ",
        }
    }
}

impl Fault {
    /// The fault `problem` in `text`.
    pub fn new(problem: Problem, text: &str) -> (r: Fault)
        ensures
            r@ == (FaultView { problem, text: text@ }),
    {
        Fault { problem, text: String::from_str(text) }
    }

    /// The fault in words: the heading of its kind, then the text.
    pub fn message(&self) -> (r: String)
        ensures
            r@ == self.problem.heading() + self.text@,
    {
        let mut out = String::from_str(self.problem.heading_text());
        out.append(self.text.as_str());
        out
    }
}

} // verus!
