//! Builds a lookup index from the surface forms of knowledge-graph records
//! to the one record that owns each.
//!
//! A run takes the records of a dump, one for each entity or property with
//! its label, qualifier, aliases and frequency, and commits keys in three
//! passes: bare labels, labels with their qualifier, aliases. Every key has
//! one owner. The passes are specified as functions on sequences, the
//! builder is proved to compute them, and what holds of every index is
//! proved of those functions.

// Reading the dump.
pub mod text;
pub mod error;
pub mod kinds;
pub mod info;
pub mod qualifiers;
pub mod pattern;
pub mod processor;
pub mod dump;

// Building the index.
pub mod record;
pub mod groups;
pub mod pool;
pub mod oracle;
pub mod index;
pub mod labels;
pub mod order;
pub mod aliases;
pub mod builder;
pub mod laws;

// Writing the index.
pub mod projection;
pub mod output;
