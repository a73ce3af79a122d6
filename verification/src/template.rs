//! The template expander: substitutes a candidate word for the placeholder
//! marker inside a pattern template. A template without the marker passes
//! through unchanged, so plain patterns and templates can share one list.

use crate::errors::CountError;
use vstd::prelude::*;
use vstd::string::*;

verus! {

/// Whether rendering the template against the given word succeeds, as
/// `handlebars::Handlebars::render_template` decides it.
pub uninterp spec fn template_ok(template: Seq<char>, word: Seq<char>) -> bool;

/// The text that rendering the template against the given word produces.
pub uninterp spec fn rendered(template: Seq<char>, word: Seq<char>) -> Seq<char>;

/// Relies on `handlebars::Handlebars::render_template`, called on a fresh
/// default registry with the single data binding `word`: parsing and
/// rendering are deterministic, so the outcome and the rendered text are
/// functions of the template and the word alone.
#[verifier::external_body]
fn render_with_word(template: &str, word: &str) -> (r: Option<String>)
    ensures
        r is Some <==> template_ok(template@, word@),
        r matches Some(s) ==> s@ == rendered(template@, word@),
{
    let registry = handlebars::Handlebars::new();
    let mut data = std::collections::HashMap::new();
    data.insert("word", word);
    match registry.render_template(template, &data) {
        Ok(s) => Some(s),
        Err(_) => None,
    }
}

/// Substitutes `word` for the placeholder marker in `template`, leaving all
/// other characters unchanged; a template without the marker is returned as
/// it is. Fails exactly when the template's markup is malformed, and the
/// error carries the offending template.
pub fn expand_template(template: &str, word: &str) -> (r: Result<String, CountError>)
    ensures
        r is Ok <==> template_ok(template@, word@),
        r matches Ok(s) ==> s@ == rendered(template@, word@),
        r matches Err(e) ==> e matches CountError::TemplateRender(t) && t@ == template@,
{
    match render_with_word(template, word) {
        Some(s) => Ok(s),
        None => Err(CountError::TemplateRender(template.to_owned())),
    }
}

} // verus!
