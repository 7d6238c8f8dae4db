//! Reading the JSON payloads that the page sends with its events.
use crate::deep_link::opt_view;
use crate::discord::{PlayerSnapshot, SnapshotView};
use vstd::prelude::*;

verus! {

broadcast use vstd::string::group_string_axioms;

/// Whether `serde_json::from_str::<serde_json::Value>` accepts the payload.
pub uninterp spec fn json_value_parses(p: Seq<char>) -> bool;

/// The string at key `k` of the payload read as a JSON value, as
/// `value[k].as_str()` gives it.
pub uninterp spec fn json_str_field(p: Seq<char>, k: Seq<char>) -> Option<Seq<char>>;

/// The boolean at key `k` of the payload read as a JSON value, as
/// `value[k].as_bool()` gives it.
pub uninterp spec fn json_bool_field(p: Seq<char>, k: Seq<char>) -> Option<bool>;

/// `serde_json::from_str::<serde_json::Value>`: whether the payload is one
/// JSON value.  The contract names the answer and claims that it depends on
/// the payload alone.
#[verifier::external_body]
fn json_parses(payload: &str) -> (r: bool)
    ensures
        r == json_value_parses(payload@),
{
    serde_json::from_str::<serde_json::Value>(payload).is_ok()
}

/// `serde_json::from_str::<serde_json::Value>` followed by
/// `serde_json::Value::as_str` on the entry at `key`.  The contract names the
/// result and claims that it depends on payload and key alone.
#[verifier::external_body]
fn json_str(payload: &str, key: &str) -> (r: Option<String>)
    ensures
        opt_view(r) == json_str_field(payload@, key@),
{
    serde_json::from_str::<serde_json::Value>(payload).ok().and_then(|v| v[key].as_str().map(|s| s.to_string()))
}

/// `serde_json::from_str::<serde_json::Value>` followed by
/// `serde_json::Value::as_bool` on the entry at `key`.  The contract names the
/// result and claims that it depends on payload and key alone.
#[verifier::external_body]
fn json_bool(payload: &str, key: &str) -> (r: Option<bool>)
    ensures
        r == json_bool_field(payload@, key@),
{
    serde_json::from_str::<serde_json::Value>(payload).ok().and_then(|v| v[key].as_bool())
}

pub open spec fn str_or_empty(v: Option<Seq<char>>) -> Seq<char> {
    match v {
        Some(s) => s,
        None => Seq::empty(),
    }
}

pub open spec fn bool_or_false(v: Option<bool>) -> bool {
    match v {
        Some(b) => b,
        None => false,
    }
}

/// The snapshot that a player-state payload describes: title, artist and
/// thumbnail default to empty, play and like state to false; `position` is the
/// playback position in whole seconds.
pub open spec fn snapshot_of(p: Seq<char>, position: int) -> SnapshotView {
    SnapshotView {
        title: str_or_empty(json_str_field(p, "title"@)),
        artist: str_or_empty(json_str_field(p, "artist"@)),
        playing: bool_or_false(json_bool_field(p, "playing"@)),
        liked: bool_or_false(json_bool_field(p, "liked"@)),
        position,
        thumbnail: str_or_empty(json_str_field(p, "thumbnail"@)),
    }
}

fn str_field(payload: &str, key: &str) -> (r: String)
    ensures
        r@ == str_or_empty(json_str_field(payload@, key@)),
{
    match json_str(payload, key) {
        Some(s) => s,
        None => String::new(),
    }
}

fn bool_field(payload: &str, key: &str) -> (r: bool)
    ensures
        r == bool_or_false(json_bool_field(payload@, key@)),
{
    match json_bool(payload, key) {
        Some(b) => b,
        None => false,
    }
}

/// Reads a player-state payload; `None` when it is not JSON.
pub fn snapshot_from_payload(payload: &str, position: i64) -> (r: Option<PlayerSnapshot>)
    ensures
        r is Some <==> json_value_parses(payload@),
        r matches Some(s) ==> s@ == snapshot_of(payload@, position as int),
{
    if !json_parses(payload) {
        return None;
    }
    Some(
        PlayerSnapshot {
            title: str_field(payload, "title"),
            artist: str_field(payload, "artist"),
            playing: bool_field(payload, "playing"),
            liked: bool_field(payload, "liked"),
            position,
            thumbnail: str_field(payload, "thumbnail"),
        },
    )
}

/// The version announced by an update payload; empty when there is none.
pub fn update_version(payload: &str) -> (r: String)
    ensures
        r@ == str_or_empty(json_str_field(payload@, "version"@)),
{
    str_field(payload, "version")
}

} // verus!
