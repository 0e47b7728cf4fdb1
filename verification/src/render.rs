//! The templating capability.  The engine itself is a black box: a
//! template and a data document go in, rendered text or a syntax error
//! comes out.  Its output is deterministic in the two texts, so it is
//! named rather than described.
use vstd::prelude::*;
use crate::errors::SyncError;
use crate::jsondoc::{JsonDoc, doc_text, json_is_valid};

verus! {

/// What the templating engine produces for a template and the JSON text
/// of its data document: the rendered text, or `None` when it rejects the
/// template.
pub uninterp spec fn rendered(template: Seq<char>, data: Seq<char>) -> Option<Seq<char>>;

/// Relies on serde_json::from_str and handlebars::Handlebars::render_template:
/// parses the data document back into a value and renders the template
/// against it with a fresh default registry, whose output depends on the
/// two texts alone.
#[verifier::external_body]
fn render_raw(template: &str, data_json: &str) -> (r: Result<String, String>)
    ensures
        match r {
            Ok(s) => json_is_valid(data_json@) && rendered(template@, data_json@) == Some(s@),
            Err(_) => !json_is_valid(data_json@) || rendered(template@, data_json@) is None,
        },
{
    let data: serde_json::Value = match serde_json::from_str(data_json) {
        Ok(v) => v,
        Err(e) => return Err(e.to_string()),
    };
    let registry = handlebars::Handlebars::new();
    match registry.render_template(template, &data) {
        Ok(s) => Ok(s),
        Err(e) => Err(e.to_string()),
    }
}

/// Renders `template` against the document `doc`.  On success the result
/// is exactly what the engine produces for the template and the
/// document's serialized text; everything the engine rejects comes back
/// as `RenderError`.
pub fn render_template(template: &str, doc: &JsonDoc) -> (r: Result<String, SyncError>)
    ensures
        match r {
            Ok(s) => json_is_valid(doc_text(doc.pairs_seq())) && rendered(
                template@,
                doc_text(doc.pairs_seq()),
            ) == Some(s@),
            Err(e) => e matches SyncError::RenderError { .. } && (!json_is_valid(
                doc_text(doc.pairs_seq()),
            ) || rendered(template@, doc_text(doc.pairs_seq())) is None),
        },
{
    let data_json = doc.to_json_text();
    match render_raw(template, data_json.as_str()) {
        Ok(s) => Ok(s),
        Err(detail) => Err(SyncError::RenderError { detail }),
    }
}

} // verus!
