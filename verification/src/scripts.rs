//! The JavaScript calls that the application runs in the YouTube Music page
//! (the page script exposes them as `window.__ytune__`).
use crate::decimal::{decimal, lemma_parse_unsigned_decimal, parse_unsigned, parse_usize, push_decimal};
use crate::prefs::{flag_text, flag_text_of};
use crate::text::{chars_eq, chars_of, push_char, push_str, starts_with, starts_with_chars, sub_chars};
use vstd::prelude::*;

verus! {

broadcast use vstd::string::group_string_axioms;

// ---------------------------------------------------------------------------
// Player controls
// ---------------------------------------------------------------------------

/// The page call for a player-control action from the tray popup.
///
/// `queue_jump_<n>` jumps to entry `n` of the queue when `<n>` reads as a
/// `usize`, and does nothing otherwise; `play_pause`, `next`, `previous`,
/// `like` and `dislike` press the matching button; anything else does nothing.
pub open spec fn control_script_of(action: Seq<char>) -> Option<Seq<char>> {
    if starts_with(action, "queue_jump_"@) {
        match parse_unsigned(action.skip("queue_jump_"@.len() as int), usize::MAX as int) {
            Some(n) => Some("window.__ytune__?.queueJump("@ + decimal(n as nat) + ")"@),
            None => None,
        }
    } else if action == "play_pause"@ {
        Some("window.__ytune__?.playPause()"@)
    } else if action == "next"@ {
        Some("window.__ytune__?.next()"@)
    } else if action == "previous"@ {
        Some("window.__ytune__?.previous()"@)
    } else if action == "like"@ {
        Some("window.__ytune__?.like()"@)
    } else if action == "dislike"@ {
        Some("window.__ytune__?.dislike()"@)
    } else {
        None
    }
}

fn owned(s: &str) -> (r: String)
    ensures
        r@ == s@,
{
    let mut r = String::new();
    push_str(&mut r, s);
    r
}

fn is_word(a: &Vec<char>, word: &str) -> (r: bool)
    ensures
        r == (a@ == word@),
{
    chars_eq(a, &chars_of(word))
}

/// The page call for a player-control action, if the action is one.
pub fn player_control_script(action: &str) -> (r: Option<String>)
    ensures
        match r {
            Some(s) => control_script_of(action@) == Some(s@),
            None => control_script_of(action@) is None,
        },
{
    let a = chars_of(action);
    let prefix = chars_of("queue_jump_");
    if starts_with_chars(&a, &prefix) {
        let rest = sub_chars(&a, prefix.len(), a.len());
        assert(rest@ =~= action@.skip("queue_jump_"@.len() as int));
        return match parse_usize(&rest) {
            Some(idx) => {
                let mut s = owned("window.__ytune__?.queueJump(");
                push_decimal(&mut s, idx as u64);
                push_str(&mut s, ")");
                Some(s)
            },
            None => None,
        };
    }
    if is_word(&a, "play_pause") {
        Some(owned("window.__ytune__?.playPause()"))
    } else if is_word(&a, "next") {
        Some(owned("window.__ytune__?.next()"))
    } else if is_word(&a, "previous") {
        Some(owned("window.__ytune__?.previous()"))
    } else if is_word(&a, "like") {
        Some(owned("window.__ytune__?.like()"))
    } else if is_word(&a, "dislike") {
        Some(owned("window.__ytune__?.dislike()"))
    } else {
        None
    }
}

/// Jumping to queue entry `n`, asked for with `n` written in decimal, calls the
/// page with that same entry.
pub proof fn law_queue_jump_echoes_index(n: usize)
    ensures
        control_script_of("queue_jump_"@ + decimal(n as nat)) == Some(
            "window.__ytune__?.queueJump("@ + decimal(n as nat) + ")"@,
        ),
{
    let a = "queue_jump_"@ + decimal(n as nat);
    assert(a.take("queue_jump_"@.len() as int) =~= "queue_jump_"@);
    assert(a.skip("queue_jump_"@.len() as int) =~= decimal(n as nat));
    lemma_parse_unsigned_decimal(n as nat, usize::MAX as int);
}

// ---------------------------------------------------------------------------
// Sign-in token
// ---------------------------------------------------------------------------

/// A character as it is written inside a double-quoted JavaScript string:
/// backslash and double quote get a backslash in front.
pub open spec fn js_escaped_char(c: char) -> Seq<char> {
    if c == '\\' {
        seq!['\\', '\\']
    } else if c == '"' {
        seq!['\\', '"']
    } else {
        seq![c]
    }
}

/// A text as it is written inside a double-quoted JavaScript string.
pub open spec fn js_escaped(t: Seq<char>) -> Seq<char>
    decreases t.len(),
{
    if t.len() == 0 {
        Seq::empty()
    } else {
        js_escaped_char(t[0]) + js_escaped(t.skip(1))
    }
}

/// The text that a JavaScript string body denotes, where a backslash takes the
/// next character literally.
pub open spec fn js_unescaped(e: Seq<char>) -> Seq<char>
    decreases e.len(),
{
    if e.len() == 0 {
        Seq::empty()
    } else if e[0] == '\\' && e.len() >= 2 {
        seq![e[1]] + js_unescaped(e.skip(2))
    } else {
        seq![e[0]] + js_unescaped(e.skip(1))
    }
}

/// A string body that a double quote cannot end early: every `"` and every
/// `\` is taken by a backslash before it.
pub open spec fn closed_string_body(e: Seq<char>) -> bool
    decreases e.len(),
{
    if e.len() == 0 {
        true
    } else if e[0] == '\\' {
        e.len() >= 2 && closed_string_body(e.skip(2))
    } else {
        e[0] != '"' && closed_string_body(e.skip(1))
    }
}

/// The page call that hands a sign-in token to the page.
pub open spec fn auth_token_script_of(token: Seq<char>) -> Seq<char> {
    "window.__ytune__?.setAuthToken?.(\""@ + js_escaped(token) + "\")"@
}

/// Writes `token` with backslashes and double quotes escaped.
fn push_js_escaped(out: &mut String, token: &str)
    ensures
        final(out)@ == old(out)@ + js_escaped(token@),
{
    let t = chars_of(token);
    let ghost start = out@;
    let mut i: usize = 0;
    assert(t@.skip(0) =~= t@);
    while i < t.len()
        invariant
            i <= t.len(),
            start + js_escaped(t@) == out@ + js_escaped(t@.skip(i as int)),
        decreases t.len() - i,
    {
        let c = t[i];
        let ghost rest = t@.skip(i as int);
        assert(rest[0] == c);
        assert(rest.skip(1) =~= t@.skip(i + 1));
        if c == '\\' {
            push_char(out, '\\');
            push_char(out, '\\');
        } else if c == '"' {
            push_char(out, '\\');
            push_char(out, '"');
        } else {
            push_char(out, c);
        }
        assert(start + js_escaped(t@) =~= out@ + js_escaped(t@.skip(i + 1)));
        i += 1;
    }
    assert(t@.skip(i as int) =~= Seq::<char>::empty());
    assert(out@ + Seq::<char>::empty() =~= out@);
    assert(token@ == t@);
}

/// The page call that hands a sign-in token to the page.
pub fn auth_token_script(token: &str) -> (r: String)
    ensures
        r@ == auth_token_script_of(token@),
{
    let mut s = owned("window.__ytune__?.setAuthToken?.(\"");
    push_js_escaped(&mut s, token);
    push_str(&mut s, "\")");
    s
}

/// The escaped token reads back as the token, and no character of it can end
/// the string literal it is placed in.
pub proof fn law_token_escape_round_trip(token: Seq<char>)
    ensures
        js_unescaped(js_escaped(token)) == token,
        closed_string_body(js_escaped(token)),
    decreases token.len(),
{
    if token.len() > 0 {
        let rest = token.skip(1);
        law_token_escape_round_trip(rest);
        let e = js_escaped(token);
        let c = token[0];
        if c == '\\' || c == '"' {
            assert(e[0] == '\\' && e[1] == c);
            assert(e.skip(2) =~= js_escaped(rest));
        } else {
            assert(e[0] == c);
            assert(e.skip(1) =~= js_escaped(rest));
        }
        assert(js_unescaped(e) =~= token);
    }
}

// ---------------------------------------------------------------------------
// Other page calls
// ---------------------------------------------------------------------------

/// A version text with every `'` written as `\'`.
pub open spec fn single_quote_escaped(t: Seq<char>) -> Seq<char>
    decreases t.len(),
{
    if t.len() == 0 {
        Seq::empty()
    } else {
        (if t[0] == '\'' {
            seq!['\\', '\'']
        } else {
            seq![t[0]]
        }) + single_quote_escaped(t.skip(1))
    }
}

/// The page call that announces an available update.
pub open spec fn update_notice_script_of(version: Seq<char>) -> Seq<char> {
    "window.__ytune__?.showUpdateNotif?.('"@ + single_quote_escaped(version) + "')"@
}

/// The page call that announces that `version` can be installed.
pub fn update_notice_script(version: &str) -> (r: String)
    ensures
        r@ == update_notice_script_of(version@),
{
    let mut s = owned("window.__ytune__?.showUpdateNotif?.('");
    let t = chars_of(version);
    let ghost start = s@;
    let mut i: usize = 0;
    assert(t@.skip(0) =~= t@);
    while i < t.len()
        invariant
            i <= t.len(),
            start + single_quote_escaped(t@) == s@ + single_quote_escaped(t@.skip(i as int)),
        decreases t.len() - i,
    {
        let c = t[i];
        let ghost rest = t@.skip(i as int);
        assert(rest[0] == c);
        assert(rest.skip(1) =~= t@.skip(i + 1));
        if c == '\'' {
            push_char(&mut s, '\\');
            push_char(&mut s, '\'');
        } else {
            push_char(&mut s, c);
        }
        assert(start + single_quote_escaped(t@) =~= s@ + single_quote_escaped(t@.skip(i + 1)));
        i += 1;
    }
    assert(t@.skip(i as int) =~= Seq::<char>::empty());
    assert(s@ + Seq::<char>::empty() =~= s@);
    push_str(&mut s, "')");
    s
}

/// The page call that shows the listening-room status; the payload is passed
/// on as it came.
pub fn room_status_script(payload: &str) -> (r: String)
    ensures
        r@ == "window.__ytune__?.setRoomStatus?.("@ + payload@ + ")"@,
{
    let mut s = owned("window.__ytune__?.setRoomStatus?.(");
    push_str(&mut s, payload);
    push_str(&mut s, ")");
    s
}

/// The page call that shows whether Discord presence is on.
pub fn discord_state_script(enabled: bool) -> (r: String)
    ensures
        r@ == "window.__ytune__?.setDiscordState?.("@ + flag_text_of(enabled) + ")"@,
{
    let mut s = owned("window.__ytune__?.setDiscordState?.(");
    push_str(&mut s, flag_text(enabled));
    push_str(&mut s, ")");
    s
}

} // verus!
