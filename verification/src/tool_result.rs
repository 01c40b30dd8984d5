//! The payload of a tool-result line: a JSON object whose `"tool_call_id"`
//! names the call it answers and whose `"result"` holds the result.

use vstd::prelude::*;
use crate::types::opt_view;

verus! {

/// What a tool-result line says: which call it answers and the result text.
#[derive(Clone, Debug)]
pub struct ToolResult {
    pub tool_call_id: Option<String>,
    pub result: String,
}

impl View for ToolResult {
    type V = (Option<Seq<char>>, Seq<char>);

    open spec fn view(&self) -> (Option<Seq<char>>, Seq<char>) {
        (opt_view(self.tool_call_id), self.result@)
    }
}

/// Whether `serde_json` reads `text` as a JSON value.
pub uninterp spec fn json_parses(text: Seq<char>) -> bool;

/// The string that the JSON `text` holds under `key`: absent when `text` is
/// no object, has no member `key`, or that member is no string.
pub uninterp spec fn json_string_member(text: Seq<char>, key: Seq<char>) -> Option<Seq<char>>;

/// The value that the JSON `text` holds under `key`, written back as compact
/// JSON text: absent when `text` is no object or has no member `key`.
pub uninterp spec fn json_member_text(text: Seq<char>, key: Seq<char>) -> Option<Seq<char>>;

/// `serde_json::from_str::<Value>(text)`, then `Value::get(key)` and
/// `Value::as_str`: `None` when the text is not JSON, otherwise the string
/// member `key` if there is one. The contract names both results.
#[verifier::external_body]
fn read_json_string_member(text: &str, key: &str) -> (r: Option<Option<String>>)
    ensures
        r is Some <==> json_parses(text@),
        r matches Some(m) ==> opt_view(m) == json_string_member(text@, key@),
{
    match serde_json::from_str::<serde_json::Value>(text) {
        Ok(v) => Some(v.get(key).and_then(|s| s.as_str()).map(String::from)),
        Err(_) => None,
    }
}

/// `serde_json::from_str::<Value>(text)`, then `Value::get(key)` written
/// back with `Value`'s `Display` (compact JSON): `None` when the text is not
/// JSON, otherwise the member `key` as JSON text if there is one. The
/// contract names both results.
#[verifier::external_body]
fn read_json_member_text(text: &str, key: &str) -> (r: Option<Option<String>>)
    ensures
        r is Some <==> json_parses(text@),
        r matches Some(m) ==> opt_view(m) == json_member_text(text@, key@),
{
    match serde_json::from_str::<serde_json::Value>(text) {
        Ok(v) => Some(v.get(key).map(|x| x.to_string())),
        Err(_) => None,
    }
}

pub open spec fn tool_call_id_key() -> Seq<char> {
    seq!['t', 'o', 'o', 'l', '_', 'c', 'a', 'l', 'l', '_', 'i', 'd']
}

pub open spec fn result_key() -> Seq<char> {
    seq!['r', 'e', 's', 'u', 'l', 't']
}

/// What the text of a tool-result line says: nothing when it is not JSON;
/// otherwise the string under `"tool_call_id"` (if any) and the JSON text of
/// the value under `"result"` (empty when there is none).
pub open spec fn tool_result_payload(content: Seq<char>) -> Option<(Option<Seq<char>>, Seq<char>)> {
    if json_parses(content) {
        Some(
            (
                json_string_member(content, tool_call_id_key()),
                match json_member_text(content, result_key()) {
                    Some(t) => t,
                    None => Seq::<char>::empty(),
                },
            ),
        )
    } else {
        None
    }
}

/// Decodes the payload of a tool-result line (see `tool_result_payload`).
pub fn decode_tool_result(content: &str) -> (r: Option<ToolResult>)
    ensures
        match r {
            Some(t) => tool_result_payload(content@) == Some(t@),
            None => tool_result_payload(content@) is None,
        },
{
    proof {
        reveal_strlit("tool_call_id");
        reveal_strlit("result");
    }
    assert("tool_call_id"@ =~= tool_call_id_key());
    assert("result"@ =~= result_key());
    match read_json_string_member(content, "tool_call_id") {
        None => None,
        Some(id) => {
            let result = match read_json_member_text(content, "result") {
                Some(Some(t)) => t,
                _ => String::new(),
            };
            Some(ToolResult { tool_call_id: id, result })
        },
    }
}

} // verus!
