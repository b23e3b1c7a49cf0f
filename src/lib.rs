//! Fuzzy matching of a short query against a longer target string, in the
//! style of editor command palettes and file pickers.
//!
//! A query matches when its characters occur in order in the target, compared
//! case-insensitively, with `/` and `\` interchangeable. Matches are scored so
//! that word starts, separators, exact case and contiguous runs rank higher.
pub mod chars;
pub mod lemmas;
pub mod matcher;
pub mod model;

pub use matcher::{fuzzy_match, FuzzyMatcher};
