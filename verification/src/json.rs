//! JSON text handled as plain values: tool inputs travel through the library
//! as their compact JSON text.
use vstd::prelude::*;

verus! {

broadcast use vstd::string::group_string_axioms;

/// What `serde_json` makes of `text`: `Some` of the compact serialisation of the
/// parsed value when `text` parses as a JSON value, else `None`.
pub uninterp spec fn json_normal_form(text: Seq<char>) -> Option<Seq<char>>;

/// Parses `text` as a JSON value and serialises it back in compact form.
///
/// Calls `serde_json::from_str::<serde_json::Value>` and, on success, the
/// value's `Display` (compact) serialisation. The contract names the outcome
/// [`json_normal_form`]; it is a function of `text` alone.
#[verifier::external_body]
fn normalize_json(text: &str) -> (r: Option<String>)
    ensures
        match r {
            Some(t) => json_normal_form(text@) == Some(t@),
            None => json_normal_form(text@) is None,
        },
{
    serde_json::from_str::<serde_json::Value>(text).ok().map(|v| v.to_string())
}

/// The input of a tool call given the raw JSON text the model streamed: its
/// compact form when it parses, else the empty object `{}`.
pub open spec fn tool_input_text(raw: Seq<char>) -> Seq<char> {
    match json_normal_form(raw) {
        Some(t) => t,
        None => "{}"@,
    }
}

/// The input of a tool call from the raw JSON text (see [`tool_input_text`]).
pub fn tool_input_from_json(raw: &str) -> (r: String)
    ensures
        r@ == tool_input_text(raw@),
{
    match normalize_json(raw) {
        Some(t) => t,
        None => String::from_str("{}"),
    }
}

} // verus!
