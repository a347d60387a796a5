//! JSON documents as `serde_json` holds them. The library never looks into
//! such a document: it reads one from text and hands it on.

use vstd::prelude::*;

verus! {

/// `serde_json::Value`, a JSON document. Nothing inside it is visible here.
#[verifier::external_type_specification]
#[verifier::external_body]
pub struct ExJsonValue(serde_json::Value);

/// `serde_json::Error`, why a text is no JSON document. Nothing inside it
/// is visible here.
#[verifier::external_type_specification]
#[verifier::external_body]
pub struct ExJsonError(serde_json::Error);

/// Whether `text` is a JSON document, as `serde_json::from_str` judges it.
pub uninterp spec fn is_json(text: Seq<char>) -> bool;

/// The document that `serde_json::from_str` reads from `text`, where it
/// reads one.
pub uninterp spec fn json_document(text: Seq<char>) -> serde_json::Value;

/// Calls `serde_json::from_str` for a `serde_json::Value`. The contract
/// names the result: it is a document exactly for the texts that `is_json`
/// names, and then the document that `json_document` names. What stands in
/// the document is not stated.
#[verifier::external_body]
fn from_text(text: &str) -> (r: Result<serde_json::Value, serde_json::Error>)
    ensures
        r is Ok <==> is_json(text@),
        r matches Ok(v) ==> v == json_document(text@),
{
    serde_json::from_str::<serde_json::Value>(text)
}

/// What `serde_json::Error` writes of itself through `to_string`. Nothing is
/// claimed of the text.
#[verifier::external_body]
fn error_text(e: &serde_json::Error) -> (r: String) {
    e.to_string()
}

/// Reads `text` as a JSON document. Fails, with the reader's own words,
/// exactly where the text is no JSON document.
pub fn parse_json(text: &str) -> (r: Result<serde_json::Value, String>)
    ensures
        r is Ok <==> is_json(text@),
        r matches Ok(v) ==> v == json_document(text@),
{
    match from_text(text) {
        Ok(v) => Ok(v),
        Err(e) => Err(error_text(&e)),
    }
}

} // verus!
