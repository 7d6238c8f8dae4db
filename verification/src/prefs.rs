//! The preferences that the application keeps in small text files: whether
//! Discord presence is on, whether the song link is shared, and where the
//! tray popup was left.
use crate::decimal::{
    lemma_decimal, lemma_parse_signed_decimal, parse_i32, parse_signed, push_signed_decimal,
    signed_decimal, decimal, is_digit,
};
use crate::text::{
    chars_eq, chars_of, find_char, find_char_in, lemma_find_char, lemma_find_char_bounds,
    push_char, sub_chars, trim, trim_chars, trim_end, trim_start, CharSet,
};
use vstd::prelude::*;

verus! {

broadcast use vstd::string::group_string_axioms;

// ---------------------------------------------------------------------------
// On/off flags
// ---------------------------------------------------------------------------

/// The text written for a flag.
pub open spec fn flag_text_of(enabled: bool) -> Seq<char> {
    if enabled {
        "true"@
    } else {
        "false"@
    }
}

/// The text that is written to a flag's file.
pub fn flag_text(enabled: bool) -> (r: &'static str)
    ensures
        r@ == flag_text_of(enabled),
{
    if enabled {
        "true"
    } else {
        "false"
    }
}

/// Whether Discord presence is on, given the content of its file (`None` when
/// the file cannot be read): on unless the trimmed content is `false`.
pub open spec fn stored_discord_enabled(stored: Option<Seq<char>>) -> bool {
    match stored {
        None => true,
        Some(s) => trim(s, CharSet::Whitespace) != "false"@,
    }
}

/// Whether the song link is shared, given the content of its file (`None` when
/// the file cannot be read): only when the trimmed content is `true`.
pub open spec fn stored_song_link(stored: Option<Seq<char>>) -> bool {
    match stored {
        None => false,
        Some(s) => trim(s, CharSet::Whitespace) == "true"@,
    }
}

pub open spec fn opt_str_view(stored: Option<&str>) -> Option<Seq<char>> {
    match stored {
        Some(s) => Some(s@),
        None => None,
    }
}

fn trimmed_equals(s: &str, word: &str) -> (r: bool)
    ensures
        r == (trim(s@, CharSet::Whitespace) == word@),
{
    let v = chars_of(s);
    let t = trim_chars(&v, CharSet::Whitespace);
    let w = chars_of(word);
    chars_eq(&t, &w)
}

/// Reads the Discord-presence flag from the content of its file.
pub fn discord_enabled_from(stored: Option<&str>) -> (r: bool)
    ensures
        r == stored_discord_enabled(opt_str_view(stored)),
{
    match stored {
        None => true,
        Some(s) => !trimmed_equals(s, "false"),
    }
}

/// Reads the song-link flag from the content of its file.
pub fn song_link_from(stored: Option<&str>) -> (r: bool)
    ensures
        r == stored_song_link(opt_str_view(stored)),
{
    match stored {
        None => false,
        Some(s) => trimmed_equals(s, "true"),
    }
}

/// A flag read back from the text written for it is the flag written, and a
/// missing file reads as the default (presence on, song link off).
pub proof fn law_flags_read_back(enabled: bool)
    ensures
        stored_discord_enabled(Some(flag_text_of(enabled))) == enabled,
        stored_song_link(Some(flag_text_of(enabled))) == enabled,
        stored_discord_enabled(None),
        !stored_song_link(None),
{
    reveal_strlit("true");
    reveal_strlit("false");
    let t = flag_text_of(enabled);
    assert(trim_start(t, CharSet::Whitespace) == t);
    assert(trim_end(t, CharSet::Whitespace) == t);
    if enabled {
        assert(t[0] != "false"@[0]);
    } else {
        assert(t.len() != "true"@.len());
    }
}

// ---------------------------------------------------------------------------
// Popup position
// ---------------------------------------------------------------------------

/// The text saved for a popup position: `x,y` in decimal.
pub open spec fn popup_pos_text(x: i32, y: i32) -> Seq<char> {
    signed_decimal(x as int) + seq![','] + signed_decimal(y as int)
}

/// The position read from saved text: the parts before and after the first
/// comma, each trimmed of white space, must both be `i32` numbers.
pub open spec fn saved_popup_pos(s: Seq<char>) -> Option<(i32, i32)> {
    match find_char(s, ',') {
        None => None,
        Some(i) => match (
            parse_signed(trim(s.take(i), CharSet::Whitespace), i32::MIN as int, i32::MAX as int),
            parse_signed(
                trim(s.skip(i + 1), CharSet::Whitespace),
                i32::MIN as int,
                i32::MAX as int,
            ),
        ) {
            (Some(a), Some(b)) => Some((a as i32, b as i32)),
            _ => None,
        },
    }
}

/// The text to save for a popup position.
pub fn format_popup_pos(x: i32, y: i32) -> (r: String)
    ensures
        r@ == popup_pos_text(x, y),
{
    let mut out = String::new();
    push_signed_decimal(&mut out, x as i64);
    push_char(&mut out, ',');
    push_signed_decimal(&mut out, y as i64);
    out
}

/// Reads a saved popup position.
pub fn parse_popup_pos(content: &str) -> (r: Option<(i32, i32)>)
    ensures
        r == saved_popup_pos(content@),
{
    let v = chars_of(content);
    proof {
        lemma_find_char_bounds(v@, ',');
    }
    match find_char_in(&v, ',') {
        None => None,
        Some(i) => {
            let n = v.len();
            assert(find_char(v@, ',') == Some(i as int));
            assert(i < n);
            let xs = sub_chars(&v, 0, i);
            let ys = sub_chars(&v, i + 1, n);
            assert(xs@ =~= v@.take(i as int));
            assert(ys@ =~= v@.skip(i + 1));
            let xt = trim_chars(&xs, CharSet::Whitespace);
            let yt = trim_chars(&ys, CharSet::Whitespace);
            match parse_i32(&xt) {
                None => None,
                Some(a) => match parse_i32(&yt) {
                    None => None,
                    Some(b) => Some((a, b)),
                },
            }
        },
    }
}

/// The characters of a written number: an optional leading `-`, then digits.
proof fn lemma_signed_decimal_shape(x: int)
    ensures
        ({
            let s = signed_decimal(x);
            &&& s.len() >= 1
            &&& forall|j: int| 0 <= j < s.len() ==> s[j] == '-' || is_digit(#[trigger] s[j])
            &&& is_digit(s.last())
        }),
{
    if x < 0 {
        lemma_decimal((-x) as nat);
        let s = signed_decimal(x);
        assert forall|j: int| 0 <= j < s.len() implies s[j] == '-' || is_digit(#[trigger] s[j]) by {
            if j > 0 {
                assert(s[j] == decimal((-x) as nat)[j - 1]);
            }
        }
        assert(s.last() == decimal((-x) as nat).last());
    } else {
        lemma_decimal(x as nat);
    }
}

/// A written number has nothing that trimming removes.
proof fn lemma_trim_signed_decimal(x: int)
    ensures
        trim(signed_decimal(x), CharSet::Whitespace) == signed_decimal(x),
{
    lemma_signed_decimal_shape(x);
    let s = signed_decimal(x);
    assert(s[0] == '-' || is_digit(s[0]));
    assert(trim_start(s, CharSet::Whitespace) == s);
}

/// A saved popup position reads back as the position that was saved.
pub proof fn law_popup_pos_read_back(x: i32, y: i32)
    ensures
        saved_popup_pos(popup_pos_text(x, y)) == Some((x, y)),
{
    let sx = signed_decimal(x as int);
    let sy = signed_decimal(y as int);
    let s = popup_pos_text(x, y);
    lemma_signed_decimal_shape(x as int);
    assert forall|j: int| 0 <= j < sx.len() implies s[j] != ',' by {
        assert(s[j] == sx[j]);
        assert(sx[j] == '-' || is_digit(sx[j]));
    }
    lemma_find_char(s, ',', sx.len() as int);
    assert(s.take(sx.len() as int) =~= sx);
    assert(s.skip(sx.len() as int + 1) =~= sy);
    lemma_trim_signed_decimal(x as int);
    lemma_trim_signed_decimal(y as int);
    lemma_parse_signed_decimal(x as int, i32::MIN as int, i32::MAX as int);
    lemma_parse_signed_decimal(y as int, i32::MIN as int, i32::MAX as int);
}

} // verus!
