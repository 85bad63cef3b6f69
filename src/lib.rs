//! Aggregation of mod descriptors into one cross-referenced catalog, and the
//! rendering of that catalog as a table literal of an embedded scripting
//! language.
//!
//! - `text`: trimming, ASCII case folding and list splitting on characters.
//! - `descriptor`: the line-oriented descriptor grammar and its key aliases.
//! - `merge`: identity keys and the field-level merge of duplicate entries.
//! - `deps`: the reverse-dependency ("required by") index.
//! - `enrich`: filtering and lookups on attached metadata.
//! - `lua`: escaping, keys and nested values in literal syntax.
//! - `catalog`: the whole document.

pub mod catalog;
pub mod deps;
pub mod descriptor;
pub mod enrich;
pub mod lua;
pub mod merge;
pub mod model;
pub mod text;
