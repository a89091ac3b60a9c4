//! A catalog of selectable text entries (emoji and the like), built from the
//! lines of source files and kept in a cache between runs.
//!
//! Each entry has a display text, which is unique in the catalog, and the
//! name of the source file it came from; an entry may stand for an image,
//! whose path the catalog keeps under a tag. The catalog is ordered by
//! recency: what was selected last comes first.
//!
//! - `text`: white space, trimming, splitting, substring search.
//! - `normalizer`: removal of diacritical marks.
//! - `record`, `parser`: the entries, and how a source line becomes one.
//! - `model`, `laws`: the catalog as a mathematical value, and what holds of
//!   its operations.
//! - `catalog`: the catalog itself.
//! - `scanner`: merging the source files into a catalog, and pruning it.
//! - `service`: the start of a session, and what follows from a choice.

pub mod catalog;
pub mod laws;
pub mod model;
pub mod normalizer;
pub mod parser;
pub mod record;
pub mod scanner;
pub mod service;
pub mod text;
