use vstd::prelude::*;

verus! {

/// One inbound chat frame after JSON decoding: the room the sender now
/// belongs to, the room's display name, and the message text. Every field
/// defaults to the empty string when absent or not a JSON string.
pub struct Envelope {
    pub room_id: String,
    pub room_name: String,
    pub text: String,
}

/// What JSON decoding makes of a frame's text: `None` unless the text is a
/// well-formed JSON object (anything else — malformed text, but also a bare
/// number, string or array — is discarded), otherwise the values of the
/// object's string fields `room_id`, `room_name` and `text` (each empty when
/// absent or not a string). The outcome depends on the text alone.
pub uninterp spec fn json_frame(s: Seq<char>) -> Option<(Seq<char>, Seq<char>, Seq<char>)>;

/// Relies on serde_json::from_str and serde_json::Value::is_object to decide
/// whether the text is a well-formed JSON object, and on Value::get /
/// Value::as_str to extract the three string fields; all depend only on the
/// text, as `json_frame` states.
#[verifier::external_body]
pub(crate) fn decode_frame(s: &str) -> (r: Option<Envelope>)
    ensures
        r is Some <==> json_frame(s@) is Some,
        r matches Some(e) ==> json_frame(s@) == Some((e.room_id@, e.room_name@, e.text@)),
{
    let v: serde_json::Value = match serde_json::from_str(s) {
        Ok(v) => v,
        Err(_) => return None,
    };
    if !v.is_object() {
        return None;
    }
    let room_id = v.get("room_id").and_then(|f| f.as_str()).unwrap_or("").to_string();
    let room_name = v.get("room_name").and_then(|f| f.as_str()).unwrap_or("").to_string();
    let text = v.get("text").and_then(|f| f.as_str()).unwrap_or("").to_string();
    Some(Envelope { room_id, room_name, text })
}

} // verus!
