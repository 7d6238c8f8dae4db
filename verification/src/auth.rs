//! The sign-in token that the application keeps and restores.
use crate::deep_link::opt_view;
use crate::text::{chars_of, string_of, trim, trim_chars, CharSet};
use vstd::prelude::*;

verus! {

broadcast use vstd::string::group_string_axioms;

/// The token the user signed in with, if any.
pub struct AuthTokenState(pub Option<String>);

impl AuthTokenState {
    /// No token yet.
    pub fn new() -> (r: Self)
        ensures
            r.0 is None,
    {
        AuthTokenState(None)
    }

    /// Keeps `token` in place of whatever was kept.
    pub fn set_token(&mut self, token: String)
        ensures
            final(self).0 == Some(token),
    {
        self.0 = Some(token);
    }
}

/// The text that `serde_json::from_str::<String>` reads from a payload: the
/// payload must be one JSON string.
pub uninterp spec fn json_string_value(payload: Seq<char>) -> Option<Seq<char>>;

/// `serde_json::from_str::<String>`: parses the payload as one JSON string
/// value.  The contract names the result (present or not, and the text) and
/// claims that it depends on the payload alone; the JSON grammar is not
/// restated.
#[verifier::external_body]
fn parse_json_string(payload: &str) -> (r: Option<String>)
    ensures
        opt_view(r) == json_string_value(payload@),
{
    serde_json::from_str::<String>(payload).ok()
}

/// The token restored from a saved payload: the JSON string it holds, or else
/// the payload without surrounding double quotes; an empty token is no token.
pub open spec fn restored_token_of(parsed: Option<Seq<char>>, payload: Seq<char>) -> Option<
    Seq<char>,
> {
    let token = match parsed {
        Some(t) => t,
        None => trim(payload, CharSet::Quote),
    };
    if token.len() == 0 {
        None
    } else {
        Some(token)
    }
}

/// The token restored from `payload`, given what the JSON parser read from it.
pub fn restored_token_from(parsed: Option<String>, payload: &str) -> (r: Option<String>)
    ensures
        opt_view(r) == restored_token_of(opt_view(parsed), payload@),
{
    let token = match parsed {
        Some(t) => t,
        None => {
            let v = chars_of(payload);
            string_of(&trim_chars(&v, CharSet::Quote))
        },
    };
    if token.as_str().is_empty() {
        None
    } else {
        Some(token)
    }
}

/// The token restored from the payload of a restore request.
pub fn restored_token(payload: &str) -> (r: Option<String>)
    ensures
        opt_view(r) == restored_token_of(json_string_value(payload@), payload@),
{
    restored_token_from(parse_json_string(payload), payload)
}

/// The address in the payload of an open-in-browser request: the JSON string it
/// holds, if it is one.
pub fn open_url_target(payload: &str) -> (r: Option<String>)
    ensures
        opt_view(r) == json_string_value(payload@),
{
    parse_json_string(payload)
}

} // verus!
