//! JSON text for lists of ids.

use crate::text::decimal;
use vstd::prelude::*;

verus! {

/// The error type of `serde_json`.
#[verifier::external_type_specification]
#[verifier::external_body]
pub struct ExJsonError(serde_json::Error);

/// The first `n` ids in decimal notation, set apart by commas.
pub open spec fn json_items(ids: Seq<i64>, n: int) -> Seq<char>
    decreases n,
{
    if n <= 0 {
        Seq::empty()
    } else {
        let comma = if n > 1 {
            ","@
        } else {
            Seq::empty()
        };
        json_items(ids, n - 1) + comma + decimal(ids[n - 1] as int)
    }
}

/// A list of ids as a JSON array without white space, such as `[3,-1,20]`.
pub open spec fn json_array(ids: Seq<i64>) -> Seq<char> {
    "["@ + json_items(ids, ids.len() as int) + "]"@
}

/// Calls `serde_json::to_string` on a list of integers. The encoder writes
/// into memory and a list of integers gives it nothing to refuse, so it
/// succeeds, and the text is the compact JSON array of the integers: `[`,
/// the integers in decimal notation with commas between them, and `]`.
#[verifier::external_body]
fn ids_to_json(ids: &Vec<i64>) -> (json: Result<String, serde_json::Error>)
    ensures
        json is Ok,
        json matches Ok(text) ==> text@ == json_array(ids@),
{
    serde_json::to_string(ids)
}

/// The text of an encoding that succeeded, and the empty array `[]` in
/// place of one that failed.
pub fn json_or_empty_array(json: Result<String, serde_json::Error>) -> (text: String)
    ensures
        match json {
            Ok(encoded) => text@ == encoded@,
            Err(_) => text@ == "[]"@,
        },
{
    match json {
        Ok(encoded) => encoded,
        Err(_) => "[]".to_owned(),
    }
}

/// Writes a list of ids as a JSON array.
pub fn encode_ids(ids: &Vec<i64>) -> (text: String)
    ensures
        text@ == json_array(ids@),
{
    json_or_empty_array(ids_to_json(ids))
}

} // verus!
