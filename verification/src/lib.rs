//! An interactive fuzzy selector over a list of named candidates.
//!
//! A query is edited one character at a time; the candidate list re-ranks on
//! every edit by Jaro-Winkler similarity to the query; a selection cursor
//! moves cyclically through the ranked list, skipping entries that are
//! currently active; confirming the selection resolves to either attaching to
//! an existing resource or creating a new one from a named template.

pub mod cursor;
pub mod ranked;
pub mod resolve;
pub mod score;
pub mod selector;
pub mod template;
