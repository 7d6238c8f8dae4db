//! The `ytune://` deep links: sign-in callbacks and requests to open a page of
//! YouTube Music in the main window.
use crate::text::{
    ends_with, free_of, is_separator, lemma_contains_trans, lemma_ends_with_free,
    lemma_first_with_prefix_member, lemma_split_pieces, lemma_strip_all_prefix,
    lemma_suffix_contained,
    chars_of, contains_chars, contains_seq, find_char, find_char_in, first_with_prefix,
    first_with_prefix_in, lemma_find_char_bounds, push_char, split, split_chars, starts_with,
    starts_with_chars, string_of, strip_all_prefix, strip_all_prefix_chars, sub_chars, Separator,
};
use vstd::prelude::*;
use vstd::utf8::encode_utf8;

verus! {

broadcast use vstd::string::group_string_axioms;

pub open spec fn opt_view(r: Option<String>) -> Option<Seq<char>> {
    match r {
        Some(s) => Some(s@),
        None => None,
    }
}

// ---------------------------------------------------------------------------
// Sign-in callback
// ---------------------------------------------------------------------------

/// The token of a sign-in callback link.
///
/// The link must begin with `ytune://auth/callback`; its query is what follows
/// the first `?`.  Of the `&`-separated query parameters the first one that
/// begins with `token=` is taken, and every leading `token=` is removed from it.
pub open spec fn auth_token_of(url: Seq<char>) -> Option<Seq<char>> {
    if !starts_with(url, "ytune://auth/callback"@) {
        None
    } else {
        match find_char(url, '?') {
            None => None,
            Some(i) => match first_with_prefix(
                split(url.skip(i + 1), Separator::Char('&')),
                "token="@,
            ) {
                None => None,
                Some(p) => Some(strip_all_prefix(p, "token="@)),
            },
        }
    }
}

/// The value of the first query parameter named by `key`, with every leading
/// repetition of `key` removed, in the query that follows the first `?` of `u`.
fn query_param(u: &Vec<char>, key: &Vec<char>) -> (r: Option<Vec<char>>)
    ensures
        match r {
            Some(t) => match find_char(u@, '?') {
                Some(i) => match first_with_prefix(
                    split(u@.skip(i + 1), Separator::Char('&')),
                    key@,
                ) {
                    Some(p) => t@ == strip_all_prefix(p, key@),
                    None => false,
                },
                None => false,
            },
            None => match find_char(u@, '?') {
                Some(i) => first_with_prefix(
                    split(u@.skip(i + 1), Separator::Char('&')),
                    key@,
                ) is None,
                None => true,
            },
        },
{
    proof {
        lemma_find_char_bounds(u@, '?');
    }
    match find_char_in(u, '?') {
        None => None,
        Some(i) => {
            assert(find_char(u@, '?') == Some(i as int));
            let n = u.len();
            assert(i < n);
            let q = sub_chars(u, i + 1, n);
            assert(q@ =~= u@.skip(i + 1));
            let pieces = split_chars(&q, Separator::Char('&'));
            match first_with_prefix_in(&pieces, key) {
                None => None,
                Some(p) => Some(strip_all_prefix_chars(&p, key)),
            }
        },
    }
}

/// Reads the token out of a sign-in callback link
/// (`ytune://auth/callback?...&token=...`).
pub fn parse_auth_token(url_str: &str) -> (r: Option<String>)
    ensures
        opt_view(r) == auth_token_of(url_str@),
{
    let u = chars_of(url_str);
    let prefix = chars_of("ytune://auth/callback");
    if !starts_with_chars(&u, &prefix) {
        return None;
    }
    let key = chars_of("token=");
    match query_param(&u, &key) {
        None => None,
        Some(t) => Some(string_of(&t)),
    }
}

/// The token of a sign-in link holds no `&` and does not begin with `token=`,
/// and `token=` followed by the token occurs in the link, which begins with
/// `ytune://auth/callback`.
pub proof fn law_auth_token_shape(url: Seq<char>)
    ensures
        auth_token_of(url) is Some ==> {
            let t = auth_token_of(url)->0;
            &&& starts_with(url, "ytune://auth/callback"@)
            &&& forall|i: int| 0 <= i < t.len() ==> t[i] != '&'
            &&& !starts_with(t, "token="@)
            &&& contains_seq(url, "token="@ + t)
        },
{
    reveal_strlit("token=");
    let key = "token="@;
    if auth_token_of(url) is Some {
        lemma_find_char_bounds(url, '?');
        let i = find_char(url, '?')->0;
        let q = url.skip(i + 1);
        let sep = Separator::Char('&');
        let pieces = split(q, sep);
        lemma_split_pieces(q, sep);
        lemma_first_with_prefix_member(pieces, key);
        let p = first_with_prefix(pieces, key)->0;
        let k = choose|k: int| 0 <= k < pieces.len() && #[trigger] pieces[k] == p;
        assert(free_of(pieces[k], sep) && contains_seq(q, pieces[k]));
        lemma_strip_all_prefix(p, key);
        let t = strip_all_prefix(p, key);
        assert(t == auth_token_of(url)->0);
        lemma_ends_with_free(p, t, sep);
        lemma_suffix_contained(p, key + t);
        lemma_contains_trans(q, p, key + t);
        assert(url.subrange(url.len() - q.len(), url.len() as int) =~= q);
        lemma_suffix_contained(url, q);
        lemma_contains_trans(url, q, key + t);
        assert forall|j: int| 0 <= j < t.len() implies t[j] != '&' by {
            assert(!is_separator(sep, t[j]));
        }
    }
}

// ---------------------------------------------------------------------------
// Percent decoding
// ---------------------------------------------------------------------------

/// The value of one hexadecimal digit (either case).
pub open spec fn hex_digit(b: u8) -> Option<u8> {
    if 0x30 <= b <= 0x39 {
        Some((b - 0x30) as u8)
    } else if 0x41 <= b <= 0x46 {
        Some((b - 0x37) as u8)
    } else if 0x61 <= b <= 0x66 {
        Some((b - 0x57) as u8)
    } else {
        None
    }
}

/// What `u8::from_str_radix(text, 16)` gives for the two-byte text `b1 b2`:
/// an optional `+` sign followed by hexadecimal digits.
pub open spec fn hex_pair(b1: u8, b2: u8) -> Option<u8> {
    if b1 == 0x2b {
        hex_digit(b2)
    } else {
        match (hex_digit(b1), hex_digit(b2)) {
            (Some(h), Some(l)) => Some((h * 16 + l) as u8),
            _ => None,
        }
    }
}

/// Decoding of a percent-encoded byte string.
///
/// `%` followed by two more bytes that form a hexadecimal byte gives that
/// byte; a `%` with two more bytes that do not is dropped; `+` gives a space;
/// every other byte (a `%` near the end too) stands for the character with
/// that code point (U+0000 to U+00FF).
pub open spec fn percent_decoded(b: Seq<u8>) -> Seq<char>
    decreases b.len(),
{
    if b.len() == 0 {
        Seq::empty()
    } else if b[0] == 0x25 && 2 < b.len() {
        match hex_pair(b[1], b[2]) {
            Some(x) => seq![x as char] + percent_decoded(b.skip(3)),
            None => percent_decoded(b.skip(1)),
        }
    } else if b[0] == 0x2b {
        seq![' '] + percent_decoded(b.skip(1))
    } else {
        seq![b[0] as char] + percent_decoded(b.skip(1))
    }
}

fn hex_digit_exec(b: u8) -> (r: Option<u8>)
    ensures
        r == hex_digit(b),
{
    if 0x30 <= b && b <= 0x39 {
        Some(b - 0x30)
    } else if 0x41 <= b && b <= 0x46 {
        Some(b - 0x37)
    } else if 0x61 <= b && b <= 0x66 {
        Some(b - 0x57)
    } else {
        None
    }
}

fn hex_pair_exec(b1: u8, b2: u8) -> (r: Option<u8>)
    ensures
        r == hex_pair(b1, b2),
{
    if b1 == 0x2b {
        hex_digit_exec(b2)
    } else {
        match (hex_digit_exec(b1), hex_digit_exec(b2)) {
            (Some(h), Some(l)) => Some(h * 16 + l),
            _ => None,
        }
    }
}

/// Decodes `%XX` escapes and `+` in the UTF-8 bytes of `s`.
pub fn percent_decode(s: &str) -> (r: String)
    ensures
        r@ == percent_decoded(encode_utf8(s@)),
{
    let b = s.as_bytes();
    let mut out = String::new();
    let mut i: usize = 0;
    assert(b@.skip(0) =~= b@);
    while i < b.len()
        invariant
            i <= b@.len(),
            percent_decoded(b@) == out@ + percent_decoded(b@.skip(i as int)),
        decreases b.len() - i,
    {
        let ghost rest = b@.skip(i as int);
        assert(rest[0] == b@[i as int]);
        if b[i] == 0x25 && b.len() - i > 2 {
            assert(rest[1] == b@[i + 1] && rest[2] == b@[i + 2]);
            match hex_pair_exec(b[i + 1], b[i + 2]) {
                Some(x) => {
                    push_char(&mut out, x as char);
                    assert(rest.skip(3) =~= b@.skip(i + 3));
                    assert(percent_decoded(b@) =~= out@ + percent_decoded(b@.skip(i + 3)));
                    i += 3;
                    continue ;
                },
                None => {},
            }
        } else if b[i] == 0x2b {
            push_char(&mut out, ' ');
        } else {
            push_char(&mut out, b[i] as char);
        }
        assert(rest.skip(1) =~= b@.skip(i + 1));
        assert(percent_decoded(b@) =~= out@ + percent_decoded(b@.skip(i + 1)));
        i += 1;
    }
    assert(b@.skip(i as int) =~= Seq::<u8>::empty());
    assert(out@ + Seq::<char>::empty() =~= out@);
    out
}

/// Bytes with no `%` and no `+` decode to the characters with those codes.
proof fn lemma_plain_bytes_decode(b: Seq<u8>)
    requires
        forall|i: int| 0 <= i < b.len() ==> #[trigger] b[i] != 0x25 && b[i] != 0x2b,
    ensures
        percent_decoded(b) == Seq::new(b.len(), |i: int| b[i] as char),
    decreases b.len(),
{
    if b.len() > 0 {
        let rest = b.skip(1);
        assert forall|i: int| 0 <= i < rest.len() implies #[trigger] rest[i] != 0x25 && rest[i]
            != 0x2b by {
            assert(rest[i] == b[i + 1]);
        }
        lemma_plain_bytes_decode(rest);
        assert(b[0] != 0x25 && b[0] != 0x2b);
        assert(percent_decoded(b) =~= Seq::new(b.len(), |i: int| b[i] as char));
    }
}

/// ASCII text without `%` and `+` decodes to itself.
pub proof fn law_plain_text_decodes_to_itself(s: Seq<char>)
    requires
        vstd::utf8::is_ascii_chars(s),
        forall|i: int| 0 <= i < s.len() ==> #[trigger] s[i] != '%' && s[i] != '+',
    ensures
        percent_decoded(encode_utf8(s)) == s,
{
    vstd::utf8::is_ascii_chars_encode_utf8(s);
    let b = encode_utf8(s);
    assert forall|i: int| 0 <= i < b.len() implies #[trigger] b[i] != 0x25 && b[i] != 0x2b by {
        assert(s[i] as u8 == b[i]);
        assert('\0' <= s[i] <= '\u{7f}');
        assert(s[i] != '%' && s[i] != '+');
    }
    lemma_plain_bytes_decode(b);
    assert forall|i: int| 0 <= i < s.len() implies (b[i] as char) == s[i] by {
        assert(s[i] as u8 == b[i]);
        assert('\0' <= s[i] <= '\u{7f}');
    }
    assert(percent_decoded(b) =~= s);
}

/// A hexadecimal digit for a value below 16, in upper or lower case.
pub open spec fn hex_digit_char(d: int, upper: bool) -> u8 {
    if d < 10 {
        (0x30 + d) as u8
    } else if upper {
        (0x41 + d - 10) as u8
    } else {
        (0x61 + d - 10) as u8
    }
}

/// Every byte written as `%` and two hexadecimal digits, in either case,
/// decodes to the character with that byte's code, and decoding goes on after
/// it.
pub proof fn law_escape_decodes_to_byte(x: u8, upper: bool, rest: Seq<u8>)
    ensures
        percent_decoded(seq![0x25u8, hex_digit_char((x / 16) as int, upper), hex_digit_char((x % 16) as int, upper)]
            + rest) == seq![x as char] + percent_decoded(rest),
        percent_decoded(seq![0x25u8, hex_digit_char((x / 16) as int, upper), hex_digit_char((x % 16) as int, upper)])
            == seq![x as char],
{
    let h = hex_digit_char((x / 16) as int, upper);
    let l = hex_digit_char((x % 16) as int, upper);
    assert(hex_digit(h) == Some((x / 16) as u8));
    assert(hex_digit(l) == Some((x % 16) as u8));
    assert(h != 0x2b);
    assert((x / 16) * 16 + x % 16 == x) by (nonlinear_arith);
    assert(hex_pair(h, l) == Some(x));
    let b = seq![0x25u8, h, l] + rest;
    assert(b[0] == 0x25 && b[1] == h && b[2] == l);
    assert(b.skip(3) =~= rest);
    let b0 = seq![0x25u8, h, l];
    assert(b0.skip(3) =~= Seq::<u8>::empty());
    assert(b0[0] == 0x25 && b0[1] == h && b0[2] == l);
    assert(percent_decoded(b0.skip(3)) == Seq::<char>::empty());
    assert(percent_decoded(b0) == seq![x as char] + percent_decoded(b0.skip(3)));
    assert(percent_decoded(b0) =~= seq![x as char]);
}

/// A `+` decodes to a space, a `%` whose next two bytes are not a hexadecimal
/// byte is dropped, and a byte that is neither `%` nor `+` stands for the
/// character with its code; decoding goes on after each.
pub proof fn law_decode_single_bytes(b: u8, rest: Seq<u8>)
    ensures
        percent_decoded(seq![0x2bu8] + rest) == seq![' '] + percent_decoded(rest),
        b != 0x25 && b != 0x2b ==> percent_decoded(seq![b] + rest) == seq![b as char]
            + percent_decoded(rest),
        rest.len() >= 2 && hex_digit(rest[0]) is None && rest[0] != 0x2b ==> percent_decoded(
            seq![0x25u8] + rest,
        ) == percent_decoded(rest),
        rest.len() < 2 ==> percent_decoded(seq![0x25u8] + rest) == seq!['%'] + percent_decoded(
            rest,
        ),
{
    let p = seq![0x2bu8] + rest;
    assert(p[0] == 0x2b && p.skip(1) =~= rest);
    let q = seq![b] + rest;
    assert(q[0] == b && q.skip(1) =~= rest);
    let r = seq![0x25u8] + rest;
    assert(r[0] == 0x25 && r.skip(1) =~= rest);
    if rest.len() >= 2 {
        assert(r[1] == rest[0]);
    }
    assert(0x25u8 as char == '%');
}

// ---------------------------------------------------------------------------
// Open-page link
// ---------------------------------------------------------------------------

/// The page that an open-page link asks for.
///
/// The link must begin with `ytune://open`; of the `&`-separated parameters of
/// the query after the first `?` the first one that begins with `url=` is
/// taken, every leading `url=` is removed, the rest is percent-decoded, and the
/// result is accepted only if it mentions `music.youtube.com`.
pub open spec fn navigate_target_of(url: Seq<char>) -> Option<Seq<char>> {
    if !starts_with(url, "ytune://open"@) {
        None
    } else {
        match find_char(url, '?') {
            None => None,
            Some(i) => match first_with_prefix(
                split(url.skip(i + 1), Separator::Char('&')),
                "url="@,
            ) {
                None => None,
                Some(p) => {
                    let target = percent_decoded(encode_utf8(strip_all_prefix(p, "url="@)));
                    if contains_seq(target, "music.youtube.com"@) {
                        Some(target)
                    } else {
                        None
                    }
                },
            },
        }
    }
}

/// Reads the YouTube Music page out of an open-page link
/// (`ytune://open?...&url=<percent-encoded page>`).
pub fn parse_navigate_url(url_str: &str) -> (r: Option<String>)
    ensures
        opt_view(r) == navigate_target_of(url_str@),
{
    let u = chars_of(url_str);
    let prefix = chars_of("ytune://open");
    if !starts_with_chars(&u, &prefix) {
        return None;
    }
    let key = chars_of("url=");
    match query_param(&u, &key) {
        None => None,
        Some(t) => {
            let encoded = string_of(&t);
            let target = percent_decode(encoded.as_str());
            let target_chars = chars_of(target.as_str());
            let site = chars_of("music.youtube.com");
            if contains_chars(&target_chars, &site) {
                Some(target)
            } else {
                None
            }
        },
    }
}

/// An open-page link only ever leads to a page that mentions
/// `music.youtube.com`.
pub proof fn law_navigation_stays_on_youtube_music(url: Seq<char>)
    ensures
        navigate_target_of(url) is Some ==> contains_seq(
            navigate_target_of(url)->0,
            "music.youtube.com"@,
        ),
{
}

// ---------------------------------------------------------------------------
// Choosing the link to act on
// ---------------------------------------------------------------------------

/// What a deep link asks the application to do.
#[derive(Debug, PartialEq, Eq)]
pub enum DeepLink {
    /// Store this sign-in token and hand it to the page.
    Auth(String),
    /// Show this YouTube Music page in the main window.
    Navigate(String),
}

/// The request that a deep link stands for, over the views of its strings.
pub enum DeepLinkRequest {
    Auth(Seq<char>),
    Navigate(Seq<char>),
}

impl DeepLink {
    pub open spec fn request(self) -> DeepLinkRequest {
        match self {
            DeepLink::Auth(t) => DeepLinkRequest::Auth(t@),
            DeepLink::Navigate(u) => DeepLinkRequest::Navigate(u@),
        }
    }
}

pub open spec fn opt_request(r: Option<DeepLink>) -> Option<DeepLinkRequest> {
    match r {
        Some(l) => Some(l.request()),
        None => None,
    }
}

/// The request in one argument: a sign-in callback is tried before an
/// open-page link.
pub open spec fn request_in(arg: Seq<char>) -> Option<DeepLinkRequest> {
    match auth_token_of(arg) {
        Some(t) => Some(DeepLinkRequest::Auth(t)),
        None => match navigate_target_of(arg) {
            Some(u) => Some(DeepLinkRequest::Navigate(u)),
            None => None,
        },
    }
}

/// The request of the first argument that holds one.
pub open spec fn first_request(args: Seq<Seq<char>>) -> Option<DeepLinkRequest>
    decreases args.len(),
{
    if args.len() == 0 {
        None
    } else {
        match request_in(args[0]) {
            Some(r) => Some(r),
            None => first_request(args.drop_first()),
        }
    }
}

pub open spec fn string_views(v: Seq<String>) -> Seq<Seq<char>> {
    Seq::new(v.len(), |i: int| v[i]@)
}

/// The deep link in one argument, if it holds one.
pub fn deep_link_in(arg: &str) -> (r: Option<DeepLink>)
    ensures
        opt_request(r) == request_in(arg@),
{
    match parse_auth_token(arg) {
        Some(t) => Some(DeepLink::Auth(t)),
        None => match parse_navigate_url(arg) {
            Some(u) => Some(DeepLink::Navigate(u)),
            None => None,
        },
    }
}

/// The deep link to act on among the arguments or URLs that reached the
/// application: that of the first one that holds a link.
pub fn deep_link_action(args: &Vec<String>) -> (r: Option<DeepLink>)
    ensures
        opt_request(r) == first_request(string_views(args@)),
{
    let mut i: usize = 0;
    assert(string_views(args@).skip(0) =~= string_views(args@));
    while i < args.len()
        invariant
            i <= args.len(),
            first_request(string_views(args@)) == first_request(
                string_views(args@).skip(i as int),
            ),
        decreases args.len() - i,
    {
        let ghost rest = string_views(args@).skip(i as int);
        assert(rest[0] == args@[i as int]@);
        match deep_link_in(args[i].as_str()) {
            Some(l) => {
                return Some(l);
            },
            None => {},
        }
        assert(rest.drop_first() =~= string_views(args@).skip(i + 1));
        i += 1;
    }
    assert(string_views(args@).skip(i as int) =~= Seq::<Seq<char>>::empty());
    None
}

// ---------------------------------------------------------------------------
// The page address
// ---------------------------------------------------------------------------

#[verifier::external_type_specification]
#[verifier::external_body]
pub struct ExUrl(url::Url);

/// What `url::Url::parse` gives for the text: the parsed URL, or nothing when
/// the parser refuses the text.
pub uninterp spec fn parsed_url(s: Seq<char>) -> Option<url::Url>;

/// `url::Url::parse`: parses an absolute URL.  The contract names the result
/// and claims that it depends on the text alone; what a parsed URL holds is
/// left unsaid.
#[verifier::external_body]
fn parse_url(s: &str) -> (r: Option<url::Url>)
    ensures
        r == parsed_url(s@),
{
    url::Url::parse(s).ok()
}

/// The address that the main window is sent to for an open-page request: the
/// URL parsed from the page, if the parser accepts it.
pub fn navigation_target(page: &str) -> (r: Option<url::Url>)
    ensures
        r == parsed_url(page@),
{
    parse_url(page)
}

/// The list of arguments is searched from its first element: an element that
/// holds a link gives that link whatever follows it, one that holds none is
/// passed over, and an empty list gives nothing.
pub proof fn law_first_link_wins(a: Seq<char>, rest: Seq<Seq<char>>)
    ensures
        first_request(Seq::<Seq<char>>::empty()) is None,
        request_in(a) is Some ==> first_request(seq![a] + rest) == request_in(a),
        request_in(a) is None ==> first_request(seq![a] + rest) == first_request(rest),
        first_request(seq![a]) == request_in(a),
{
    let l = seq![a] + rest;
    assert(l[0] == a);
    assert(l.drop_first() =~= rest);
    let one = seq![a];
    assert(one[0] == a);
    assert(one.drop_first() =~= Seq::<Seq<char>>::empty());
}

/// An open-page link whose query is `url=` followed by a plain ASCII address
/// (no `%`, `+` or `&`) on `music.youtube.com` opens that address, and as the
/// only argument it is the request acted on.
pub proof fn law_open_link_yields_page(t: Seq<char>)
    requires
        vstd::utf8::is_ascii_chars(t),
        forall|i: int| 0 <= i < t.len() ==> #[trigger] t[i] != '%' && t[i] != '+' && t[i] != '&',
        !starts_with(t, "url="@),
        contains_seq(t, "music.youtube.com"@),
    ensures
        navigate_target_of("ytune://open?url="@ + t) == Some(t),
        first_request(seq!["ytune://open?url="@ + t]) == Some(DeepLinkRequest::Navigate(t)),
{
    reveal_strlit("ytune://open?url=");
    reveal_strlit("ytune://open");
    reveal_strlit("url=");
    reveal_strlit("ytune://auth/callback");
    let pre = "ytune://open"@;
    let key = "url="@;
    let url = "ytune://open?url="@ + t;
    assert(url.take(pre.len() as int) =~= pre);
    assert forall|j: int| 0 <= j < pre.len() implies url[j] != '?' by {
        assert(url[j] == pre[j]);
    }
    assert(url[pre.len() as int] == '?');
    crate::text::lemma_find_char(url, '?', pre.len() as int);
    let q = url.skip(pre.len() as int + 1);
    assert(q =~= key + t);
    let sep = Separator::Char('&');
    assert(free_of(q, sep)) by {
        assert forall|j: int| 0 <= j < q.len() implies !is_separator(sep, #[trigger] q[j]) by {
            if j >= key.len() {
                assert(q[j] == t[j - key.len()]);
            }
        }
    }
    crate::text::lemma_split_free(q, sep);
    assert(split(q, sep)[0] == q);
    assert(q.take(key.len() as int) =~= key);
    assert(q.skip(key.len() as int) =~= t);
    assert(strip_all_prefix(q, key) == strip_all_prefix(t, key));
    law_plain_text_decodes_to_itself(t);
    let auth = "ytune://auth/callback"@;
    if starts_with(url, auth) {
        assert(url.take(auth.len() as int)[8] == url[8]);
        assert(url[8] == 'o');
        assert(auth[8] == 'a');
    }
    law_first_link_wins(url, Seq::empty());
}

/// A sign-in callback whose query is `token=` followed by a token without
/// `&` that does not itself begin with `token=` yields that token, and as the
/// only argument it is the sign-in request acted on.
pub proof fn law_sign_in_link_yields_token(t: Seq<char>)
    requires
        forall|i: int| 0 <= i < t.len() ==> t[i] != '&',
        !starts_with(t, "token="@),
    ensures
        auth_token_of("ytune://auth/callback?token="@ + t) == Some(t),
        first_request(seq!["ytune://auth/callback?token="@ + t]) == Some(DeepLinkRequest::Auth(t)),
{
    reveal_strlit("ytune://auth/callback?token=");
    reveal_strlit("ytune://auth/callback");
    reveal_strlit("token=");
    let pre = "ytune://auth/callback"@;
    let key = "token="@;
    let url = "ytune://auth/callback?token="@ + t;
    assert(url.take(pre.len() as int) =~= pre);
    assert forall|j: int| 0 <= j < pre.len() implies url[j] != '?' by {
        assert(url[j] == pre[j]);
    }
    assert(url[pre.len() as int] == '?');
    crate::text::lemma_find_char(url, '?', pre.len() as int);
    let q = url.skip(pre.len() as int + 1);
    assert(q =~= key + t);
    let sep = Separator::Char('&');
    assert(free_of(q, sep)) by {
        assert forall|j: int| 0 <= j < q.len() implies !is_separator(sep, #[trigger] q[j]) by {
            if j >= key.len() {
                assert(q[j] == t[j - key.len()]);
            }
        }
    }
    crate::text::lemma_split_free(q, sep);
    let pieces = split(q, sep);
    assert(pieces[0] == q);
    assert(q.take(key.len() as int) =~= key);
    assert(starts_with(q, key));
    assert(q.skip(key.len() as int) =~= t);
    assert(strip_all_prefix(q, key) == strip_all_prefix(t, key));
    assert(strip_all_prefix(t, key) == t);
    law_first_link_wins(url, Seq::empty());
}

} // verus!
