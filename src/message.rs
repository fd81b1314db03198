//! Messages as they come off the wire.
use vstd::prelude::*;
use crate::geometry::Position;

verus! {

/// What a packet from a client announces.
#[derive(Clone, Copy, Debug, PartialEq, Eq, Structural)]
pub enum MessageKind {
    Connect,
    Timeout,
    Data,
}

/// The envelope of every packet: its kind and a JSON payload.
#[derive(Clone, Debug)]
pub struct Message {
    pub kind: MessageKind,
    pub payload: String,
}

/// The fields of a message payload that the server reads. A field that the
/// payload lacks, or holds with the wrong shape, is `None`.
#[derive(Clone, Debug)]
pub struct Payload {
    pub nickname: Option<String>,
    pub action: Option<String>,
    pub team: Option<String>,
    pub position: Option<Position>,
}

/// The string stored under `key` in the JSON object `text`, if `text` is a
/// JSON object and holds a string there.
pub uninterp spec fn json_text_field(text: Seq<char>, key: Seq<char>) -> Option<Seq<char>>;

/// Relies on serde_json::from_str to parse `text` as a JSON value, and on
/// `Value::get` and `Value::as_str` to take the string under `key`; the
/// outcome depends on the two strings alone.
#[verifier::external_body]
fn text_field(text: &str, key: &str) -> (r: Option<String>)
    ensures
        r matches Some(v) ==> json_text_field(text@, key@) == Some(v@),
        r is None ==> json_text_field(text@, key@) is None,
{
    serde_json::from_str::<serde_json::Value>(text)
        .ok()
        .and_then(|v| v.get(key).and_then(|f| f.as_str().map(String::from)))
}

/// The view of an optional string.
pub open spec fn opt_view(s: Option<String>) -> Option<Seq<char>> {
    match s {
        Some(v) => Some(v@),
        None => None,
    }
}

impl Payload {
    /// Reads the text fields `nickname`, `action` and `team` of the JSON
    /// payload `text`; `position` is read by the caller, and kept.
    pub fn read(text: &str, position: Option<Position>) -> (r: Payload)
        ensures
            opt_view(r.nickname) == json_text_field(text@, "nickname"@),
            opt_view(r.action) == json_text_field(text@, "action"@),
            opt_view(r.team) == json_text_field(text@, "team"@),
            r.position == position,
    {
        Payload {
            nickname: text_field(text, "nickname"),
            action: text_field(text, "action"),
            team: text_field(text, "team"),
            position,
        }
    }
}

} // verus!
