//! Records: one per identifier, as the index builder takes them.

use vstd::prelude::*;
use crate::text::{opt_list, texts};

verus! {

/// The options of one run.
#[derive(Clone, Copy, Debug)]
pub struct Config {
    /// Take the free-text description as qualifier, not the type chain.
    pub ignore_types: bool,
    /// Where several records share a label (or a label and qualifier), let
    /// the most frequent one have the key.
    pub keep_most_common_non_unique: bool,
    /// Withhold a bare label from a record where a more frequent record is
    /// the only one known by that text as an alias.
    pub check_for_popular_aliases: bool,
    /// Add no alias keys.
    pub no_aliases: bool,
    /// Emit identifiers as they stand in the dump.
    pub full_ids: bool,
    /// Emit property identifiers with a short prefix.
    pub short_properties: bool,
}

/// One entity or property with its statistics.
#[derive(Clone, Debug)]
pub struct Record {
    pub id: String,
    pub label: String,
    /// Disambiguating suffix; empty where the record has none.
    pub qualifier: String,
    pub aliases: Vec<String>,
    pub frequency: usize,
    pub redirects: Option<Vec<String>>,
}

/// A record as a value of mathematics.
pub struct RecordView {
    pub id: Seq<char>,
    pub label: Seq<char>,
    pub qualifier: Seq<char>,
    pub aliases: Seq<Seq<char>>,
    pub frequency: usize,
    pub redirects: Option<Seq<Seq<char>>>,
}

impl View for Record {
    type V = RecordView;

    open spec fn view(&self) -> RecordView {
        RecordView {
            id: self.id@,
            label: self.label@,
            qualifier: self.qualifier@,
            aliases: texts(self.aliases@),
            frequency: self.frequency,
            redirects: opt_list(self.redirects),
        }
    }
}

/// The records of a run, each by its view.
pub open spec fn record_views(records: Seq<Record>) -> Seq<RecordView> {
    records.map_values(|r: Record| r@)
}

} // verus!
