use vstd::prelude::*;

verus! {

/// A failure of a whole counting call. Every failure identifies the pattern
/// or template that triggered it; no partial result table is ever returned.
#[derive(Debug, Clone, PartialEq, Eq)]
pub enum CountError {
    /// The pattern, once anchored with word boundaries, is not a well-formed
    /// matching expression. Carries the offending pattern as given.
    InvalidPattern(String),
    /// The template's placeholder markup is malformed. Carries the offending
    /// template as given.
    TemplateRender(String),
}

} // verus!
