//! The structural-validation boundary: assembled JSON text is handed to
//! serde_json to be checked, and the final document is pretty-printed by
//! parsing it and re-serialising the parsed value.

use vstd::prelude::*;

verus! {

/// serde_json's error type, opaque to the verifier.
#[verifier::external_type_specification]
#[verifier::external_body]
pub struct ExError(serde_json::Error);

/// Whether serde_json's parser accepts `s` as a complete JSON document.
/// The outcome is a function of the text alone.
pub uninterp spec fn json_ok(s: Seq<char>) -> bool;

/// The pretty-printed form of a JSON document text: what parsing `s` and
/// re-serialising the parsed value yields. A function of the text alone.
pub uninterp spec fn pretty_of(s: Seq<char>) -> Seq<char>;

/// Relies on serde_json::from_str::<Value>: it returns Ok exactly when the
/// text is a JSON document the parser accepts, an outcome that depends on the
/// text alone; `json_ok` names that predicate.
#[verifier::external_body]
pub(crate) fn json_check(s: &str) -> (r: Result<(), serde_json::Error>)
    ensures
        r is Ok <==> json_ok(s@),
{
    match serde_json::from_str::<serde_json::Value>(s) {
        Ok(_) => Ok(()),
        Err(e) => Err(e),
    }
}

/// Relies on serde_json::from_str::<Value> and serde_json::to_string_pretty:
/// parsing succeeds exactly on `json_ok` text; a value parsed from JSON text
/// always serialises (its maps have string keys and the writer is a byte
/// buffer), and the pretty-printed text is again valid JSON of no greater
/// nesting depth than what was parsed, so parsing it succeeds too. The two
/// calls stand together because that last claim holds of values the parser
/// itself produced: an arbitrary value could nest more deeply than the
/// parser's recursion limit admits.
#[verifier::external_body]
pub(crate) fn json_pretty(s: &str) -> (r: Result<String, serde_json::Error>)
    ensures
        r is Ok <==> json_ok(s@),
        r matches Ok(out) ==> json_ok(out@) && out@ == pretty_of(s@),
{
    match serde_json::from_str::<serde_json::Value>(s) {
        Ok(v) => serde_json::to_string_pretty(&v),
        Err(e) => Err(e),
    }
}

} // verus!
