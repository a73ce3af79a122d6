//! Counts occurrences of word-boundary-delimited textual patterns ("n-grams")
//! inside a corpus, optionally expanding templated patterns against a list of
//! candidate words, and returns per-pattern occurrence counts.

pub mod dispatch;
pub mod errors;
pub mod matching;
pub mod normalize;
pub mod results;
pub mod template;
