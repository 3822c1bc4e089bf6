use vstd::prelude::*;

verus! {

#[verifier::external_type_specification]
#[verifier::external_body]
pub struct ExJsonValue(serde_json::Value);

#[verifier::external_type_specification]
#[verifier::external_body]
pub struct ExJsonError(serde_json::Error);

/// The text is a JSON document that serde_json accepts: well-formed, and
/// nested no deeper than its recursion limit.
pub uninterp spec fn is_json(text: Seq<char>) -> bool;

/// Relies on serde_json::from_str: it succeeds exactly on the texts it
/// accepts, and then holds the parsed document.
#[verifier::external_body]
pub(crate) fn parse_json(text: &str) -> (r: Result<serde_json::Value, serde_json::Error>)
    ensures
        r is Ok <==> is_json(text@),
{
    serde_json::from_str::<serde_json::Value>(text)
}

} // verus!
