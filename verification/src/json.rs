//! Trusted surface over `serde_json` for reading session-log records.
//!
//! A transcript line is one JSON document; the logic only reads its
//! top-level string fields and the `type` strings of the entries under
//! `message.content`.  Parsing is a function of the line alone, so each
//! projection gets a name: the wrappers' contracts fix their results to
//! those names, and the classification built on top is exact over them.

use vstd::prelude::*;

verus! {

/// The top-level string field `key` of the JSON document a line parses
/// to; none when the line does not parse, the document is not an object,
/// the key is absent, or its value is not a string.
pub uninterp spec fn line_str_field(line: Seq<char>, key: Seq<char>) -> Option<Seq<char>>;

/// The `type` strings of the entries under `message.content` of the JSON
/// document a line parses to, in array order, an empty string standing
/// for an entry whose `type` is missing or not a string; empty when the
/// line does not parse or holds no such array.
pub uninterp spec fn line_content_types(line: Seq<char>) -> Seq<Seq<char>>;

/// Relies on `serde_json::from_str::<Value>` and `Value::get`: the
/// top-level string field `key` of the document `line` parses to, exactly
/// as [`line_str_field`] describes.  Malformed input is an `Err` of
/// `from_str`, never a panic, and the result depends on the line and key
/// alone.
#[verifier::external_body]
pub(crate) fn json_line_str_field(line: &str, key: &str) -> (r: Option<String>)
    ensures
        r matches Some(s) ==> line_str_field(line@, key@) == Some(s@),
        r is None ==> line_str_field(line@, key@) is None,
{
    let v: serde_json::Value = match serde_json::from_str(line) {
        Ok(v) => v,
        Err(_) => return None,
    };
    match v.get(key) {
        Some(serde_json::Value::String(s)) => Some(s.clone()),
        _ => None,
    }
}

/// Relies on `serde_json::from_str::<Value>`, `Value::pointer`,
/// `Value::as_array` and `Value::get`: the `type` strings of the entries
/// under `message.content`, exactly as [`line_content_types`] describes
/// (each entry yields its `type` string or an empty string, one for one).
/// The result depends on the line alone.
#[verifier::external_body]
pub(crate) fn json_line_content_types(line: &str) -> (r: Vec<String>)
    ensures
        r.deep_view() == line_content_types(line@),
{
    let v: serde_json::Value = match serde_json::from_str(line) {
        Ok(v) => v,
        Err(_) => return Vec::new(),
    };
    match v.pointer("/message/content").and_then(|c| c.as_array()) {
        Some(items) => items
            .iter()
            .map(|item| match item.get("type") {
                Some(serde_json::Value::String(t)) => t.clone(),
                _ => String::new(),
            })
            .collect(),
        None => Vec::new(),
    }
}

/// A history-index line carries a usable record: it parses as a JSON
/// object with a string `sessionId`, and its `project`, when present, is
/// a string or null.
pub uninterp spec fn history_line_ok(line: Seq<char>) -> bool;

/// The record's project path: none when the `project` field is absent or
/// null.  Meaningful only where [`history_line_ok`] holds.
pub uninterp spec fn history_project(line: Seq<char>) -> Option<Seq<char>>;

/// The record's session id.  Meaningful only where [`history_line_ok`]
/// holds.
pub uninterp spec fn history_session_id(line: Seq<char>) -> Seq<char>;

} // verus!
