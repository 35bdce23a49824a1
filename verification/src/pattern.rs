//! Regular expressions, each kept with the text it was compiled from.

use vstd::prelude::*;
use vstd::string::*;
use crate::error::{Fault, FaultView, Problem};
use crate::index::opt_text;

verus! {

/// `regex::Regex`, a compiled regular expression; nothing is known of what
/// it holds.
#[verifier::external_type_specification]
#[verifier::external_body]
pub struct ExRegex(regex::Regex);

/// `regex::Error`, the reason why an expression did not compile; nothing is
/// known of what it holds.
#[verifier::external_type_specification]
#[verifier::external_body]
pub struct ExRegexError(regex::Error);

/// Whether `regex::Regex::new` accepts `source`.
pub uninterp spec fn compiles(source: Seq<char>) -> bool;

/// What capture group number `group` holds in the leftmost match of the
/// regular expression `source` in `haystack`; `None` where the expression
/// does not match or the group takes no part in the match.
pub uninterp spec fn captured(source: Seq<char>, haystack: Seq<char>, group: nat) -> Option<
    Seq<char>,
>;

/// A compiled regular expression. Its view is the text it was compiled
/// from.
#[derive(Debug)]
pub struct Pattern {
    source: String,
    compiled: regex::Regex,
}

impl View for Pattern {
    type V = Seq<char>;

    closed spec fn view(&self) -> Seq<char> {
        self.source@
    }
}

/// `regex::Regex::new`: whether a text compiles depends on the text alone;
/// the pattern that comes back is kept with that text.
#[verifier::external_body]
fn compile(source: &str) -> (r: Result<Pattern, regex::Error>)
    ensures
        r is Ok <==> compiles(source@),
        r matches Ok(p) ==> p@ == source@,
{
    regex::Regex::new(source).map(|compiled| Pattern { source: source.to_string(), compiled })
}

/// `regex::Regex::captures`, then `Captures::get` and `Match::as_str`: the
/// text of one capture group of the leftmost match depends on the
/// expression, the haystack and the group's number alone.
#[verifier::external_body]
fn group_of(pattern: &Pattern, haystack: &str, group: usize) -> (r: Option<String>)
    ensures
        opt_text(r) == captured(pattern@, haystack@, group as nat),
{
    pattern.compiled.captures(haystack).and_then(|c| c.get(group)).map(|m| m.as_str().to_string())
}

impl Pattern {
    /// Compiles `source`. A text that does not compile is the fault
    /// `InvalidPattern`.
    pub fn new(source: &str) -> (r: Result<Pattern, Fault>)
        ensures
            match r {
                Ok(p) => compiles(source@) && p@ == source@,
                Err(e) => !compiles(source@) && e@ == (FaultView {
                    problem: Problem::InvalidPattern,
                    text: source@,
                }),
            },
    {
        match compile(source) {
            Ok(p) => Ok(p),
            Err(_) => Err(Fault::new(Problem::InvalidPattern, source)),
        }
    }

    /// The first capture group of the leftmost match in `haystack`.
    pub fn capture(&self, haystack: &str) -> (r: Option<String>)
        ensures
            opt_text(r) == captured(self@, haystack@, 1),
    {
        group_of(self, haystack, 1)
    }

    /// Capture group number `group` of the leftmost match in `haystack`.
    pub fn capture_group(&self, haystack: &str, group: usize) -> (r: Option<String>)
        ensures
            opt_text(r) == captured(self@, haystack@, group as nat),
    {
        group_of(self, haystack, group)
    }
}

} // verus!
