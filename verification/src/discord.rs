//! Discord Rich Presence: cleaning the artist line, deciding when the
//! presence is sent again, what it shows, and how the connection is kept.
use crate::text::{
    in_set, lemma_contains_trans, lemma_split_append_free,
    lemma_split_free, lemma_split_len, trim_end, trim_start, free_of, is_separator, lemma_contained_free, lemma_split_pieces, lemma_trim_idempotent,
    lemma_trim_shape, chars_of, contains_chars, contains_seq, push_all, push_str, split, split_chars,
    starts_with, starts_with_chars, string_of, trim, trim_chars, views, CharSet, Separator,
};
use vstd::prelude::*;

verus! {

broadcast use vstd::string::group_string_axioms;

// ---------------------------------------------------------------------------
// Artist line
// ---------------------------------------------------------------------------

/// The lower-case form of a text, as `str::to_lowercase` gives it.
pub uninterp spec fn lowercase(s: Seq<char>) -> Seq<char>;

/// `str::to_lowercase`: the Unicode lower-case mapping of the text.  The
/// contract names the result and claims only that it depends on the text
/// alone.
#[verifier::external_body]
fn to_lowercase(s: &str) -> (r: String)
    ensures
        r@ == lowercase(s@),
{
    s.to_lowercase()
}

/// A piece of the subtitle after trimming white space, then double quotes,
/// then white space again.
pub open spec fn cleaned_piece(s: Seq<char>) -> Seq<char> {
    trim(trim(trim(s, CharSet::Whitespace), CharSet::Quote), CharSet::Whitespace)
}

/// The lower-cased piece names a view or like count.
pub open spec fn has_stat_keyword(lower: Seq<char>) -> bool {
    ||| contains_seq(lower, "visualiza"@)
    ||| contains_seq(lower, "marca"@)
    ||| contains_seq(lower, "gostei"@)
    ||| contains_seq(lower, "views"@)
    ||| contains_seq(lower, "likes"@)
}

/// A cleaned piece that stays in the artist line.
pub open spec fn keeps_piece(c: Seq<char>) -> bool {
    c.len() > 0 && !has_stat_keyword(lowercase(c))
}

/// The cleaned pieces that stay, in order.
pub open spec fn artist_parts(pieces: Seq<Seq<char>>) -> Seq<Seq<char>>
    decreases pieces.len(),
{
    if pieces.len() == 0 {
        Seq::empty()
    } else {
        let rest = artist_parts(pieces.drop_last());
        let c = cleaned_piece(pieces.last());
        if keeps_piece(c) {
            rest.push(c)
        } else {
            rest
        }
    }
}

/// The parts joined with `sep` between neighbours.
pub open spec fn joined(parts: Seq<Seq<char>>, sep: Seq<char>) -> Seq<char>
    decreases parts.len(),
{
    if parts.len() == 0 {
        Seq::empty()
    } else if parts.len() == 1 {
        parts[0]
    } else {
        joined(parts.drop_last(), sep) + sep + parts.last()
    }
}

/// The artist line shown in the presence.
///
/// The subtitle is cut at every line feed and every `•` (a carriage return
/// that ends a line is trimmed away with the rest of the white space, and an
/// empty last line is dropped with the other empty pieces); each piece is
/// cleaned, pieces that are empty or name a view or like count are dropped,
/// and the rest is joined with ` • `.
pub open spec fn clean_artist_of(raw: Seq<char>) -> Seq<char> {
    joined(artist_parts(split(raw, Separator::LineOrBullet)), " • "@)
}

/// Whether lower-cased text names a view or like count: it contains
/// `visualiza`, `marca`, `gostei`, `views` or `likes`.
pub fn has_stat_keyword_text(lower: &str) -> (r: bool)
    ensures
        r == has_stat_keyword(lower@),
{
    let v = chars_of(lower);
    contains_chars(&v, &chars_of("visualiza")) || contains_chars(&v, &chars_of("marca"))
        || contains_chars(&v, &chars_of("gostei")) || contains_chars(&v, &chars_of("views"))
        || contains_chars(&v, &chars_of("likes"))
}

/// Removes view and like counts (such as "803 mil visualizações") from the
/// subtitle that YouTube Music shows under a song.
pub fn clean_artist(raw: &str) -> (r: String)
    ensures
        r@ == clean_artist_of(raw@),
{
    let v = chars_of(raw);
    let pieces = split_chars(&v, Separator::LineOrBullet);
    let ghost all = views(pieces@);
    let mut out = String::new();
    let mut count: usize = 0;
    let mut i: usize = 0;
    assert(all.take(0) =~= Seq::<Seq<char>>::empty());
    while i < pieces.len()
        invariant
            i <= pieces.len(),
            all == views(pieces@),
            count == artist_parts(all.take(i as int)).len(),
            count <= i,
            out@ == joined(artist_parts(all.take(i as int)), " • "@),
        decreases pieces.len() - i,
    {
        let ghost parts = artist_parts(all.take(i as int));
        assert(all.take(i + 1).drop_last() =~= all.take(i as int));
        assert(all.take(i + 1).last() == pieces@[i as int]@);
        let t1 = trim_chars(&pieces[i], CharSet::Whitespace);
        let t2 = trim_chars(&t1, CharSet::Quote);
        let c = trim_chars(&t2, CharSet::Whitespace);
        if c.len() > 0 {
            let piece = string_of(&c);
            let lower = to_lowercase(piece.as_str());
            if !has_stat_keyword_text(lower.as_str()) {
                if count > 0 {
                    push_str(&mut out, " • ");
                }
                push_all(&mut out, &c);
                assert(parts.push(c@).drop_last() =~= parts);
                count += 1;
            }
        }
        i += 1;
    }
    assert(all.take(i as int) =~= all);
    out
}

/// A part of the artist line: not empty, with no white space at either end,
/// without line feeds or bullets, and naming no view or like count.
pub open spec fn good_part(x: Seq<char>) -> bool {
    &&& x.len() > 0
    &&& trim(x, CharSet::Whitespace) == x
    &&& free_of(x, Separator::LineOrBullet)
    &&& !has_stat_keyword(lowercase(x))
}

proof fn lemma_cleaned_piece(p: Seq<char>)
    requires
        free_of(p, Separator::LineOrBullet),
    ensures
        free_of(cleaned_piece(p), Separator::LineOrBullet),
        trim(cleaned_piece(p), CharSet::Whitespace) == cleaned_piece(p),
{
    let sep = Separator::LineOrBullet;
    let a = trim(p, CharSet::Whitespace);
    lemma_trim_shape(p, CharSet::Whitespace);
    lemma_contained_free(p, a, sep);
    let b = trim(a, CharSet::Quote);
    lemma_trim_shape(a, CharSet::Quote);
    lemma_contained_free(a, b, sep);
    let c = trim(b, CharSet::Whitespace);
    lemma_trim_shape(b, CharSet::Whitespace);
    lemma_contained_free(b, c, sep);
    lemma_trim_idempotent(b, CharSet::Whitespace);
}

proof fn lemma_artist_parts_good(pieces: Seq<Seq<char>>)
    requires
        forall|k: int| 0 <= k < pieces.len() ==> free_of(#[trigger] pieces[k], Separator::LineOrBullet),
    ensures
        forall|k: int| 0 <= k < artist_parts(pieces).len() ==> good_part(#[trigger] artist_parts(pieces)[k]),
    decreases pieces.len(),
{
    if pieces.len() > 0 {
        let rest = pieces.drop_last();
        assert forall|k: int| 0 <= k < rest.len() implies free_of(#[trigger] rest[k], Separator::LineOrBullet) by {
            assert(rest[k] == pieces[k]);
        }
        lemma_artist_parts_good(rest);
        assert(free_of(pieces[pieces.len() - 1], Separator::LineOrBullet));
        lemma_cleaned_piece(pieces.last());
        let parts = artist_parts(pieces);
        assert forall|k: int| 0 <= k < parts.len() implies good_part(#[trigger] parts[k]) by {
            if k < artist_parts(rest).len() {
                assert(parts[k] == artist_parts(rest)[k]);
            }
        }
    }
}

proof fn lemma_joined_no_newline(parts: Seq<Seq<char>>, sep: Seq<char>)
    requires
        forall|k: int, i: int| 0 <= k < parts.len() && 0 <= i < parts[k].len() ==> #[trigger] parts[k][i] != '\n',
        forall|i: int| 0 <= i < sep.len() ==> sep[i] != '\n',
    ensures
        forall|i: int| 0 <= i < joined(parts, sep).len() ==> #[trigger] joined(parts, sep)[i] != '\n',
    decreases parts.len(),
{
    if parts.len() > 1 {
        let rest = parts.drop_last();
        assert forall|k: int, i: int| 0 <= k < rest.len() && 0 <= i < rest[k].len() implies #[trigger] rest[k][i] != '\n' by {
            assert(rest[k] == parts[k]);
        }
        lemma_joined_no_newline(rest, sep);
        let j = joined(rest, sep);
        let last = parts.last();
        let all = joined(parts, sep);
        assert forall|i: int| 0 <= i < all.len() implies #[trigger] all[i] != '\n' by {
            if i < j.len() {
                assert(all[i] == j[i]);
            } else if i < j.len() + sep.len() {
                assert(all[i] == sep[i - j.len()]);
            } else {
                assert(all[i] == last[i - j.len() - sep.len()]);
            }
        }
    } else if parts.len() == 1 {
        assert(joined(parts, sep) == parts[0]);
    }
}

/// The artist line has no line feed, and each of its ` • `-joined parts is
/// non-empty, has no white space at either end, holds no line feed or bullet,
/// and names no view or like count once lower-cased.
pub proof fn law_clean_artist_parts(raw: Seq<char>)
    ensures
        forall|i: int| 0 <= i < clean_artist_of(raw).len() ==> #[trigger] clean_artist_of(raw)[i] != '\n',
        clean_artist_of(raw) == joined(artist_parts(split(raw, Separator::LineOrBullet)), " • "@),
        forall|k: int|
            0 <= k < artist_parts(split(raw, Separator::LineOrBullet)).len() ==> good_part(
                #[trigger] artist_parts(split(raw, Separator::LineOrBullet))[k],
            ),
{
    let pieces = split(raw, Separator::LineOrBullet);
    lemma_split_pieces(raw, Separator::LineOrBullet);
    lemma_artist_parts_good(pieces);
    let parts = artist_parts(pieces);
    assert forall|k: int, i: int| 0 <= k < parts.len() && 0 <= i < parts[k].len() implies #[trigger] parts[k][i] != '\n' by {
        assert(good_part(parts[k]));
        assert(!is_separator(Separator::LineOrBullet, parts[k][i]));
    }
    reveal_strlit(" • ");
    lemma_joined_no_newline(parts, " • "@);
}

/// The piece that holds part `k` when the parts are joined with ` • ` and cut
/// at bullets again: the part with the neighbouring spaces of the separators.
pub open spec fn joined_piece(parts: Seq<Seq<char>>, k: int) -> Seq<char> {
    (if k > 0 {
        seq![' ']
    } else {
        Seq::<char>::empty()
    }) + parts[k] + (if k < parts.len() - 1 {
        seq![' ']
    } else {
        Seq::<char>::empty()
    })
}

proof fn lemma_split_joined(parts: Seq<Seq<char>>)
    requires
        parts.len() >= 1,
        forall|k: int| 0 <= k < parts.len() ==> free_of(#[trigger] parts[k], Separator::LineOrBullet),
    ensures
        split(joined(parts, " • "@), Separator::LineOrBullet) == Seq::new(
            parts.len(),
            |k: int| joined_piece(parts, k),
        ),
    decreases parts.len(),
{
    reveal_strlit(" • ");
    let sep = Separator::LineOrBullet;
    let n = parts.len();
    if n == 1 {
        lemma_split_free(parts[0], sep);
        assert(joined_piece(parts, 0) =~= parts[0]);
        assert(split(joined(parts, " • "@), sep) =~= Seq::new(n, |k: int| joined_piece(parts, k)));
    } else {
        let rest = parts.drop_last();
        assert forall|k: int| 0 <= k < rest.len() implies free_of(#[trigger] rest[k], sep) by {
            assert(rest[k] == parts[k]);
        }
        lemma_split_joined(rest);
        let j = joined(rest, " • "@);
        let last = parts.last();
        assert(free_of(parts[n - 1], sep));
        let sp: Seq<char> = seq![' '];
        assert(free_of(sp, sep)) by {
            assert forall|i: int| 0 <= i < sp.len() implies !is_separator(sep, #[trigger] sp[i]) by {}
        }
        let spl = sp + last;
        assert(free_of(spl, sep)) by {
            assert forall|i: int| 0 <= i < spl.len() implies !is_separator(sep, #[trigger] spl[i]) by {
                if i > 0 {
                    assert(spl[i] == last[i - 1]);
                }
            }
        }
        // j + " " : the last piece of j gains a space.
        lemma_split_append_free(j, sp, sep);
        let a = split(j + sp, sep);
        // then the bullet starts a new, empty piece
        let jb = (j + sp).push('•');
        assert(jb.drop_last() =~= j + sp);
        assert(split(jb, sep) == a.push(Seq::<char>::empty()));
        // then " " + last fills it
        lemma_split_append_free(jb, spl, sep);
        assert(jb + spl =~= joined(parts, " • "@));
        lemma_split_len(j, sep);
        let target = Seq::new(n, |k: int| joined_piece(parts, k));
        let got = split(joined(parts, " • "@), sep);
        assert(got.len() == n);
        assert forall|k: int| 0 <= k < n implies got[k] == target[k] by {
            if k < n - 2 {
                assert(got[k] == split(j, sep)[k]);
                assert(rest[k] == parts[k]);
                assert(joined_piece(rest, k) =~= joined_piece(parts, k));
            } else if k == n - 2 {
                assert(got[k] == split(j, sep)[k] + sp);
                assert(rest[k] == parts[k]);
                assert(joined_piece(rest, k) + sp =~= joined_piece(parts, k));
            } else {
                assert(Seq::<char>::empty() + spl =~= joined_piece(parts, k));
            }
        }
        assert(got =~= target);
    }
}

proof fn lemma_trim_start_space(x: Seq<char>)
    requires
        x.len() > 0,
        !in_set(CharSet::Whitespace, x[0]),
    ensures
        trim_start(seq![' '] + x, CharSet::Whitespace) == x,
{
    let w = seq![' '] + x;
    assert(w.drop_first() =~= x);
    assert(trim_start(x, CharSet::Whitespace) == x);
}

proof fn lemma_trim_end_space(x: Seq<char>)
    requires
        x.len() > 0,
        !in_set(CharSet::Whitespace, x.last()),
    ensures
        trim_end(x + seq![' '], CharSet::Whitespace) == x,
{
    let w = x + seq![' '];
    assert(w.drop_last() =~= x);
    assert(trim_end(x, CharSet::Whitespace) == x);
}

/// A part with a space before or after cleans back to the part.
#[verifier::spinoff_prover]
#[verifier::rlimit(50)]
proof fn lemma_clean_padded(x: Seq<char>, pre: bool, post: bool)
    requires
        good_part(x),
        free_of(x, Separator::Char('"')),
    ensures
        cleaned_piece(
            (if pre {
                seq![' ']
            } else {
                Seq::<char>::empty()
            }) + x + (if post {
                seq![' ']
            } else {
                Seq::<char>::empty()
            }),
        ) == x,
{
    let ws = CharSet::Whitespace;
    let q = CharSet::Quote;
    lemma_trim_shape(x, ws);
    assert(!in_set(ws, x[0]) && !in_set(ws, x.last()));
    assert(!is_separator(Separator::Char('"'), x[0]));
    assert(!is_separator(Separator::Char('"'), x[x.len() - 1]));
    let e = Seq::<char>::empty();
    let sp: Seq<char> = seq![' '];
    let whole = (if pre { sp } else { e }) + x + (if post { sp } else { e });
    let xp = x + (if post { sp } else { e });
    assert(trim_start(xp, ws) == xp) by {
        assert(xp[0] == x[0]);
    }
    if pre {
        assert(whole =~= sp + xp);
        lemma_trim_start_space(xp);
    } else {
        assert(whole =~= xp);
    }
    assert(trim_start(whole, ws) == xp);
    if post {
        lemma_trim_end_space(x);
    } else {
        assert(xp =~= x);
    }
    assert(trim(whole, ws) == x);
    assert(trim_start(x, q) == x);
    assert(trim_end(x, q) == x);
}

proof fn lemma_artist_parts_all_kept(pieces: Seq<Seq<char>>, parts: Seq<Seq<char>>)
    requires
        pieces.len() == parts.len(),
        forall|k: int|
            0 <= k < parts.len() ==> cleaned_piece(#[trigger] pieces[k]) == parts[k] && keeps_piece(
                parts[k],
            ),
    ensures
        artist_parts(pieces) == parts,
    decreases pieces.len(),
{
    if pieces.len() > 0 {
        let n = pieces.len();
        assert forall|k: int| 0 <= k < n - 1 implies cleaned_piece(
            #[trigger] pieces.drop_last()[k],
        ) == parts.drop_last()[k] && keeps_piece(parts.drop_last()[k]) by {
            assert(pieces.drop_last()[k] == pieces[k]);
        }
        lemma_artist_parts_all_kept(pieces.drop_last(), parts.drop_last());
        assert(cleaned_piece(pieces[n - 1]) == parts[n - 1]);
        assert(parts.drop_last().push(parts.last()) =~= parts);
    } else {
        assert(parts =~= Seq::<Seq<char>>::empty());
    }
}

proof fn lemma_cleaned_in(p: Seq<char>)
    ensures
        contains_seq(p, cleaned_piece(p)),
{
    let a = trim(p, CharSet::Whitespace);
    lemma_trim_shape(p, CharSet::Whitespace);
    let b = trim(a, CharSet::Quote);
    lemma_trim_shape(a, CharSet::Quote);
    lemma_trim_shape(b, CharSet::Whitespace);
    lemma_contains_trans(p, a, b);
    lemma_contains_trans(p, b, cleaned_piece(p));
}

proof fn lemma_artist_parts_in(pieces: Seq<Seq<char>>, raw: Seq<char>)
    requires
        forall|k: int| 0 <= k < pieces.len() ==> contains_seq(raw, #[trigger] pieces[k]),
    ensures
        forall|k: int| 0 <= k < artist_parts(pieces).len() ==> contains_seq(raw, #[trigger] artist_parts(pieces)[k]),
    decreases pieces.len(),
{
    if pieces.len() > 0 {
        let rest = pieces.drop_last();
        assert forall|k: int| 0 <= k < rest.len() implies contains_seq(raw, #[trigger] rest[k]) by {
            assert(rest[k] == pieces[k]);
        }
        lemma_artist_parts_in(rest, raw);
        lemma_cleaned_in(pieces.last());
        assert(contains_seq(raw, pieces[pieces.len() - 1]));
        lemma_contains_trans(raw, pieces.last(), cleaned_piece(pieces.last()));
        let parts = artist_parts(pieces);
        assert forall|k: int| 0 <= k < parts.len() implies contains_seq(raw, #[trigger] parts[k]) by {
            if k < artist_parts(rest).len() {
                assert(parts[k] == artist_parts(rest)[k]);
            }
        }
    }
}

/// Cleaning an artist line again changes nothing, for subtitles without double
/// quotes.
pub proof fn law_clean_artist_idempotent(raw: Seq<char>)
    requires
        forall|i: int| 0 <= i < raw.len() ==> raw[i] != '"',
    ensures
        clean_artist_of(clean_artist_of(raw)) == clean_artist_of(raw),
{
    let lb = Separator::LineOrBullet;
    let pieces = split(raw, lb);
    let parts = artist_parts(pieces);
    law_clean_artist_parts(raw);
    lemma_split_pieces(raw, lb);
    lemma_artist_parts_in(pieces, raw);
    let out = clean_artist_of(raw);
    if parts.len() == 0 {
        assert(out == Seq::<char>::empty());
        assert(split(out, lb) =~= seq![Seq::<char>::empty()]);
        assert(artist_parts(split(out, lb)) =~= artist_parts(split(out, lb).drop_last()));
        assert(clean_artist_of(out) =~= Seq::<char>::empty());
    } else {
        assert forall|k: int| 0 <= k < parts.len() implies free_of(#[trigger] parts[k], lb) by {
            assert(good_part(parts[k]));
        }
        lemma_split_joined(parts);
        let again = split(out, lb);
        assert forall|k: int| 0 <= k < parts.len() implies cleaned_piece(#[trigger] again[k])
            == parts[k] && keeps_piece(parts[k]) by {
            assert(good_part(parts[k]));
            assert(free_of(parts[k], Separator::Char('"'))) by {
                let x = parts[k];
                assert(contains_seq(raw, x));
                let i = choose|i: int| 0 <= i && i + x.len() <= raw.len() && #[trigger] raw.subrange(i, i + x.len()) == x;
                assert forall|j: int| 0 <= j < x.len() implies !is_separator(Separator::Char('"'), #[trigger] x[j]) by {
                    assert(x[j] == raw[i + j]);
                }
            }
            lemma_clean_padded(parts[k], k > 0, k < parts.len() - 1);
            assert(again[k] == joined_piece(parts, k));
        }
        lemma_artist_parts_all_kept(again, parts);
    }
}

/// A line as `str::lines` yields it when a line feed followed it: without a
/// carriage return at its end.
pub open spec fn strip_cr(l: Seq<char>) -> Seq<char> {
    if l.len() > 0 && l.last() == '\r' {
        l.drop_last()
    } else {
        l
    }
}

/// The lines of a text as `str::lines` yields them: the text is cut at line
/// feeds, a carriage return before a line feed is dropped, and an empty text
/// after the last line feed is no line.
pub open spec fn rust_lines(s: Seq<char>) -> Seq<Seq<char>> {
    let ls = split(s, Separator::Char('\n'));
    let body = Seq::new((ls.len() - 1) as nat, |k: int| strip_cr(ls[k]));
    if ls.last().len() == 0 {
        body
    } else {
        body.push(ls.last())
    }
}

/// Groups of pieces, one after the other.
pub open spec fn flatten(gs: Seq<Seq<Seq<char>>>) -> Seq<Seq<char>>
    decreases gs.len(),
{
    if gs.len() == 0 {
        Seq::empty()
    } else {
        flatten(gs.drop_last()) + gs.last()
    }
}

/// Each line cut at its bullets.
pub open spec fn bullet_groups(lines: Seq<Seq<char>>) -> Seq<Seq<Seq<char>>> {
    Seq::new(lines.len(), |k: int| split(lines[k], Separator::Char('•')))
}

proof fn lemma_split_two_levels(s: Seq<char>)
    ensures
        split(s, Separator::LineOrBullet) == flatten(bullet_groups(split(s, Separator::Char('\n')))),
    decreases s.len(),
{
    let nl = Separator::Char('\n');
    let b = Separator::Char('•');
    let lb = Separator::LineOrBullet;
    if s.len() == 0 {
        let e = Seq::<char>::empty();
        assert(bullet_groups(split(s, nl)) =~= seq![split(e, b)]);
        assert(seq![split(e, b)].drop_last() =~= Seq::<Seq<Seq<char>>>::empty());
        let g0 = seq![split(e, b)];
        assert(flatten(g0.drop_last()) == Seq::<Seq<char>>::empty());
        assert(flatten(g0) == flatten(g0.drop_last()) + g0.last());
        assert(flatten(g0) =~= split(e, b));
    } else {
        let t = s.drop_last();
        let c = s.last();
        lemma_split_two_levels(t);
        lemma_split_len(t, nl);
        let ls = split(t, nl);
        let n = ls.len();
        let g = bullet_groups(ls);
        let last = ls.last();
        lemma_split_len(last, b);
        assert(g.last() == split(last, b));
        assert(flatten(g) == flatten(g.drop_last()) + g.last());
        if c == '\n' {
            let e = Seq::<char>::empty();
            assert(split(s, nl) == ls.push(e));
            let g2 = bullet_groups(ls.push(e));
            assert(g2 =~= g.push(split(e, b)));
            assert(g2.drop_last() =~= g);
            assert(split(e, b) =~= seq![e]);
            assert(flatten(g2) =~= split(s, lb));
        } else if c == '•' {
            assert(split(s, nl) == ls.update(n - 1, last.push(c)));
            let g2 = bullet_groups(ls.update(n - 1, last.push(c)));
            assert(last.push(c).drop_last() =~= last);
            assert(split(last.push(c), b) == split(last, b).push(Seq::<char>::empty()));
            assert(g2.drop_last() =~= g.drop_last());
            assert(g2.last() == split(last, b).push(Seq::<char>::empty()));
            assert(flatten(g2) =~= split(s, lb));
        } else {
            assert(split(s, nl) == ls.update(n - 1, last.push(c)));
            let g2 = bullet_groups(ls.update(n - 1, last.push(c)));
            let lp = split(last, b);
            assert(last.push(c).drop_last() =~= last);
            assert(split(last.push(c), b) == lp.update(lp.len() - 1, lp.last().push(c)));
            assert(g2.drop_last() =~= g.drop_last());
            assert(g2.last() == lp.update(lp.len() - 1, lp.last().push(c)));
            let pre = flatten(g.drop_last());
            let whole = split(t, lb);
            assert(whole == pre + lp);
            assert(whole.last() == lp.last());
            assert(flatten(g2) =~= whole.update(whole.len() - 1, whole.last().push(c)));
        }
    }
}

proof fn lemma_artist_parts_concat(a: Seq<Seq<char>>, b: Seq<Seq<char>>)
    ensures
        artist_parts(a + b) == artist_parts(a) + artist_parts(b),
    decreases b.len(),
{
    if b.len() == 0 {
        assert(a + b =~= a);
        assert(artist_parts(a) + artist_parts(b) =~= artist_parts(a));
    } else {
        assert((a + b).drop_last() =~= a + b.drop_last());
        assert((a + b).last() == b.last());
        lemma_artist_parts_concat(a, b.drop_last());
        let c = cleaned_piece(b.last());
        if keeps_piece(c) {
            assert(artist_parts(a + b) =~= artist_parts(a) + artist_parts(b));
        } else {
            assert(artist_parts(a + b) =~= artist_parts(a) + artist_parts(b));
        }
    }
}

proof fn lemma_groups_same_parts(gs: Seq<Seq<Seq<char>>>, hs: Seq<Seq<Seq<char>>>)
    requires
        gs.len() == hs.len(),
        forall|k: int| 0 <= k < gs.len() ==> artist_parts(#[trigger] gs[k]) == artist_parts(hs[k]),
    ensures
        artist_parts(flatten(gs)) == artist_parts(flatten(hs)),
    decreases gs.len(),
{
    if gs.len() > 0 {
        let n = gs.len();
        assert forall|k: int| 0 <= k < n - 1 implies artist_parts(#[trigger] gs.drop_last()[k])
            == artist_parts(hs.drop_last()[k]) by {
            assert(gs.drop_last()[k] == gs[k]);
            assert(hs.drop_last()[k] == hs[k]);
        }
        lemma_groups_same_parts(gs.drop_last(), hs.drop_last());
        lemma_artist_parts_concat(flatten(gs.drop_last()), gs.last());
        lemma_artist_parts_concat(flatten(hs.drop_last()), hs.last());
        assert(artist_parts(gs[n - 1]) == artist_parts(hs[n - 1]));
    }
}

proof fn lemma_trim_start_concat(p: Seq<char>, q: Seq<char>, set: CharSet)
    ensures
        trim_start(p + q, set) == (if trim_start(p, set).len() == 0 {
            trim_start(q, set)
        } else {
            trim_start(p, set) + q
        }),
    decreases p.len(),
{
    if p.len() == 0 {
        assert(p + q =~= q);
    } else if in_set(set, p[0]) {
        assert((p + q).drop_first() =~= p.drop_first() + q);
        assert((p + q)[0] == p[0]);
        lemma_trim_start_concat(p.drop_first(), q, set);
    } else {
        assert((p + q)[0] == p[0]);
    }
}

proof fn lemma_cleaned_cr(p: Seq<char>)
    ensures
        cleaned_piece(p.push('\r')) == cleaned_piece(p),
{
    let ws = CharSet::Whitespace;
    let r: Seq<char> = seq!['\r'];
    assert(p.push('\r') =~= p + r);
    lemma_trim_start_concat(p, r, ws);
    let u = trim_start(p, ws);
    if u.len() == 0 {
        assert(r.drop_first() =~= Seq::<char>::empty());
        assert(trim_start(r, ws) == trim_start(r.drop_first(), ws));
        assert(u =~= Seq::<char>::empty());
        assert(trim(p + r, ws) == trim(p, ws));
    } else {
        assert((u + r).drop_last() =~= u);
        assert(trim_end(u + r, ws) == trim_end(u, ws));
    }
}

proof fn lemma_strip_cr_same_parts(l: Seq<char>)
    ensures
        artist_parts(split(strip_cr(l), Separator::Char('•'))) == artist_parts(
            split(l, Separator::Char('•')),
        ),
{
    if l.len() > 0 && l.last() == '\r' {
        let b = Separator::Char('•');
        let l2 = l.drop_last();
        lemma_split_len(l2, b);
        let ps = split(l2, b);
        assert(split(l, b) == ps.update(ps.len() - 1, ps.last().push('\r')));
        let qs = split(l, b);
        assert(qs.drop_last() =~= ps.drop_last());
        lemma_cleaned_cr(ps.last());
    }
}

/// The artist line is the same when the subtitle is first cut into lines as
/// `str::lines` does it, and each line then at its bullets.
pub proof fn law_clean_artist_by_lines(raw: Seq<char>)
    ensures
        clean_artist_of(raw) == joined(artist_parts(flatten(bullet_groups(rust_lines(raw)))), " • "@),
{
    let nl = Separator::Char('\n');
    let b = Separator::Char('•');
    let ls = split(raw, nl);
    lemma_split_len(raw, nl);
    let n = ls.len();
    lemma_split_two_levels(raw);
    let g = bullet_groups(ls);
    let body = Seq::new((n - 1) as nat, |k: int| strip_cr(ls[k]));
    let gb = bullet_groups(body);
    assert forall|k: int| 0 <= k < gb.len() implies artist_parts(#[trigger] gb[k]) == artist_parts(
        g.drop_last()[k],
    ) by {
        lemma_strip_cr_same_parts(ls[k]);
    }
    lemma_groups_same_parts(gb, g.drop_last());
    assert(flatten(g) == flatten(g.drop_last()) + g.last());
    lemma_artist_parts_concat(flatten(g.drop_last()), g.last());
    let x = ls.last();
    if x.len() == 0 {
        assert(x =~= Seq::<char>::empty());
        assert(g.last() == split(x, b));
        let e = Seq::<char>::empty();
        assert(split(x, b) =~= seq![e]);
        assert(seq![e].drop_last() =~= Seq::<Seq<char>>::empty());
        assert(trim(e, CharSet::Whitespace) =~= e);
        assert(trim(e, CharSet::Quote) =~= e);
        assert(cleaned_piece(e).len() == 0);
        assert(artist_parts(seq![e].drop_last()) == Seq::<Seq<char>>::empty());
        assert(artist_parts(seq![e]) =~= Seq::<Seq<char>>::empty());
        assert(artist_parts(flatten(g)) =~= artist_parts(flatten(gb)));
    } else {
        let gl = bullet_groups(body.push(x));
        assert(gl =~= gb.push(g.last()));
        assert(gl.drop_last() =~= gb);
        lemma_artist_parts_concat(flatten(gb), g.last());
    }
}

// ---------------------------------------------------------------------------
// When the presence is sent again
// ---------------------------------------------------------------------------

/// What the player reported, as the presence logic reads it.
pub struct PlayerSnapshot {
    pub title: String,
    /// The subtitle as YouTube Music shows it, before cleaning.
    pub artist: String,
    pub playing: bool,
    pub liked: bool,
    /// The playback position in whole seconds.
    pub position: i64,
    pub thumbnail: String,
}

pub struct SnapshotView {
    pub title: Seq<char>,
    pub artist: Seq<char>,
    pub playing: bool,
    pub liked: bool,
    pub position: int,
    pub thumbnail: Seq<char>,
}

impl View for PlayerSnapshot {
    type V = SnapshotView;

    open spec fn view(&self) -> SnapshotView {
        SnapshotView {
            title: self.title@,
            artist: self.artist@,
            playing: self.playing,
            liked: self.liked,
            position: self.position as int,
            thumbnail: self.thumbnail@,
        }
    }
}

/// What was last sent to Discord: title, when the song started, when the
/// presence was last sent (all times in Unix seconds), play state, thumbnail
/// and like state.
pub struct DiscordTrackState {
    pub title: String,
    pub song_start: i64,
    pub last_update: i64,
    pub playing: bool,
    pub thumbnail: String,
    pub liked: bool,
}

pub struct TrackView {
    pub title: Seq<char>,
    pub song_start: int,
    pub last_update: int,
    pub playing: bool,
    pub thumbnail: Seq<char>,
    pub liked: bool,
}

impl View for DiscordTrackState {
    type V = TrackView;

    open spec fn view(&self) -> TrackView {
        TrackView {
            title: self.title@,
            song_start: self.song_start as int,
            last_update: self.last_update as int,
            playing: self.playing,
            thumbnail: self.thumbnail@,
            liked: self.liked,
        }
    }
}

/// How long an unchanged presence is kept before it is sent again.
pub open spec fn resend_after() -> int {
    15
}

/// The record after a snapshot is observed at `now`, and whether the presence
/// is sent.  A new title resets the whole record, with the song start at
/// `now - position`; a change of play state, of like state or to a non-empty
/// other thumbnail, or a record older than 15 s, refreshes all but title and
/// song start; otherwise nothing changes and nothing is sent.
pub open spec fn observed(t: TrackView, s: SnapshotView, now: int) -> (TrackView, bool) {
    if t.title != s.title {
        (
            TrackView {
                title: s.title,
                song_start: now - s.position,
                last_update: now,
                playing: s.playing,
                thumbnail: s.thumbnail,
                liked: s.liked,
            },
            true,
        )
    } else if t.playing != s.playing || (t.thumbnail != s.thumbnail && s.thumbnail.len() > 0)
        || t.liked != s.liked || now - t.last_update >= resend_after() {
        (
            TrackView {
                title: t.title,
                song_start: t.song_start,
                last_update: now,
                playing: s.playing,
                thumbnail: s.thumbnail,
                liked: s.liked,
            },
            true,
        )
    } else {
        (t, false)
    }
}

fn clone_string(s: &String) -> (r: String)
    ensures
        r@ == s@,
{
    s.clone()
}

impl DiscordTrackState {
    /// The record before anything was sent.
    pub fn new() -> (r: Self)
        ensures
            r@ == (TrackView {
                title: Seq::empty(),
                song_start: 0,
                last_update: 0,
                playing: false,
                thumbnail: Seq::empty(),
                liked: false,
            }),
    {
        DiscordTrackState {
            title: String::new(),
            song_start: 0,
            last_update: 0,
            playing: false,
            thumbnail: String::new(),
            liked: false,
        }
    }

    /// Records a snapshot seen at `now` (Unix seconds) and says whether the
    /// presence is to be sent.
    pub fn observe(&mut self, snap: &PlayerSnapshot, now: i64) -> (sent: bool)
        requires
            i64::MIN <= now - snap.position <= i64::MAX,
            i64::MIN <= now - old(self).last_update <= i64::MAX,
        ensures
            (final(self)@, sent) == observed(old(self)@, snap@, now as int),
    {
        let song_start = now - snap.position;
        let song_changed = !(self.title == snap.title);
        let play_changed = self.playing != snap.playing;
        let thumbnail_changed = !(self.thumbnail == snap.thumbnail) && !snap.thumbnail.as_str().is_empty();
        let liked_changed = self.liked != snap.liked;
        let stale = now - self.last_update >= 15;
        if song_changed {
            self.title = clone_string(&snap.title);
            self.song_start = song_start;
            self.last_update = now;
            self.playing = snap.playing;
            self.thumbnail = clone_string(&snap.thumbnail);
            self.liked = snap.liked;
            true
        } else if play_changed || thumbnail_changed || liked_changed || stale {
            self.last_update = now;
            self.playing = snap.playing;
            self.thumbnail = clone_string(&snap.thumbnail);
            self.liked = snap.liked;
            true
        } else {
            false
        }
    }
}

/// An unchanged snapshot observed again before the resend interval has passed
/// since the last send leaves the record as it is and sends nothing.
pub proof fn law_unchanged_snapshot_is_quiet(t: TrackView, s: SnapshotView, now: int, later: int)
    requires
        later - observed(t, s, now).0.last_update < resend_after(),
    ensures
        observed(observed(t, s, now).0, s, later) == (observed(t, s, now).0, false),
{
}

/// Whatever was recorded before, a snapshot with a new title is sent and
/// restarts the song clock at `now - position`.
pub proof fn law_new_title_restarts_song(t: TrackView, s: SnapshotView, now: int)
    requires
        t.title != s.title,
    ensures
        observed(t, s, now).1,
        observed(t, s, now).0.song_start == now - s.position,
        observed(t, s, now).0.title == s.title,
{
}

/// While the title stays, the song start stays, however often the presence is
/// sent.
pub proof fn law_song_start_kept_while_title_stays(t: TrackView, s: SnapshotView, now: int)
    requires
        t.title == s.title,
    ensures
        observed(t, s, now).0.song_start == t.song_start,
        observed(t, s, now).0.title == t.title,
{
}

/// Every send stamps the record with the send time, and a snapshot that is
/// not sent leaves the record as it was.
pub proof fn law_send_stamps_time(t: TrackView, s: SnapshotView, now: int)
    ensures
        observed(t, s, now).1 ==> observed(t, s, now).0.last_update == now,
        observed(t, s, now).1 ==> observed(t, s, now).0.playing == s.playing
            && observed(t, s, now).0.liked == s.liked && observed(t, s, now).0.thumbnail
            == s.thumbnail && observed(t, s, now).0.title == s.title,
        !observed(t, s, now).1 ==> observed(t, s, now).0 == t,
{
}

/// The presence is sent exactly when the title, the play state or the like
/// state changed, the thumbnail changed to another non-empty one, or the last
/// send is at least 15 s old.
pub proof fn law_sent_exactly_on_change(t: TrackView, s: SnapshotView, now: int)
    ensures
        observed(t, s, now).1 <==> (t.title != s.title || t.playing != s.playing || (t.thumbnail
            != s.thumbnail && s.thumbnail.len() > 0) || t.liked != s.liked || now - t.last_update
            >= resend_after()),
{
}

// ---------------------------------------------------------------------------
// What the presence shows
// ---------------------------------------------------------------------------

/// The hover text of the large image for a play and like state.
pub open spec fn status_line_of(playing: bool, liked: bool) -> Seq<char> {
    if !playing && liked {
        "❤️ Liked · Paused"@
    } else if !playing && !liked {
        "⏸ Paused"@
    } else if playing && liked {
        "❤️ Liked"@
    } else {
        ""@
    }
}

/// The hover text of the large image: empty while a song plays that is not
/// liked.
pub fn status_line(playing: bool, liked: bool) -> (r: &'static str)
    ensures
        r@ == status_line_of(playing, liked),
{
    match (playing, liked) {
        (false, true) => "❤️ Liked · Paused",
        (false, false) => "⏸ Paused",
        (true, true) => "❤️ Liked",
        (true, false) => "",
    }
}

/// The kind of activity that Discord shows.
#[derive(Clone, Copy, Debug, PartialEq, Eq, Structural)]
pub enum ActivityKind {
    Playing,
    Listening,
    Watching,
    Competing,
}

/// Which line of the activity Discord shows in the user's status.
#[derive(Clone, Copy, Debug, PartialEq, Eq, Structural)]
pub enum StatusDisplay {
    Name,
    State,
    Details,
}

/// The presence to send, as plain values.
pub struct ActivityPlan {
    /// The kind of activity: listening.
    pub kind: ActivityKind,
    /// The line shown in the user's status: the details.
    pub status_display: StatusDisplay,
    /// The first line: the song title.
    pub details: String,
    /// The second line: the cleaned artist line.
    pub state: String,
    /// The thumbnail address, or the `ytmusic` asset.
    pub large_image: String,
    /// The hover text of the image, when there is one.
    pub large_text: Option<String>,
    /// When the song started, shown only while it plays.
    pub start: Option<i64>,
}

pub struct ActivityPlanView {
    pub kind: ActivityKind,
    pub status_display: StatusDisplay,
    pub details: Seq<char>,
    pub state: Seq<char>,
    pub large_image: Seq<char>,
    pub large_text: Option<Seq<char>>,
    pub start: Option<int>,
}

impl View for ActivityPlan {
    type V = ActivityPlanView;

    open spec fn view(&self) -> ActivityPlanView {
        ActivityPlanView {
            kind: self.kind,
            status_display: self.status_display,
            details: self.details@,
            state: self.state@,
            large_image: self.large_image@,
            large_text: match self.large_text {
                Some(t) => Some(t@),
                None => None,
            },
            start: match self.start {
                Some(t) => Some(t as int),
                None => None,
            },
        }
    }
}

/// The presence for a snapshot whose song started at `start`: a listening
/// activity whose status line shows the details; a thumbnail is used only when
/// it is an `https://` address.
pub open spec fn plan_of(s: SnapshotView, start: int) -> ActivityPlanView {
    let status = status_line_of(s.playing, s.liked);
    ActivityPlanView {
        kind: ActivityKind::Listening,
        status_display: StatusDisplay::Details,
        details: s.title,
        state: clean_artist_of(s.artist),
        large_image: if starts_with(s.thumbnail, "https://"@) {
            s.thumbnail
        } else {
            "ytmusic"@
        },
        large_text: if status.len() == 0 {
            None
        } else {
            Some(status)
        },
        start: if s.playing {
            Some(start)
        } else {
            None
        },
    }
}

/// The hover text of the image: `❤️ Liked · Paused` for a paused liked song,
/// `⏸ Paused` for a paused song, `❤️ Liked` for a playing liked song, and none
/// for a playing song that is not liked.  The elapsed time is shown exactly
/// while the song plays, from `start`.
pub proof fn law_plan_hover_text(s: SnapshotView, start: int)
    ensures
        !s.playing && s.liked ==> plan_of(s, start).large_text == Some("❤️ Liked · Paused"@),
        !s.playing && !s.liked ==> plan_of(s, start).large_text == Some("⏸ Paused"@),
        s.playing && s.liked ==> plan_of(s, start).large_text == Some("❤️ Liked"@),
        s.playing && !s.liked ==> plan_of(s, start).large_text is None,
        s.playing ==> plan_of(s, start).start == Some(start),
        !s.playing ==> plan_of(s, start).start is None,
        plan_of(s, start).details == s.title,
{
    reveal_strlit("❤️ Liked · Paused");
    reveal_strlit("⏸ Paused");
    reveal_strlit("❤️ Liked");
    reveal_strlit("");
}

/// Builds the presence for a snapshot whose song started at `start`.
pub fn activity_plan(snap: &PlayerSnapshot, start: i64) -> (r: ActivityPlan)
    ensures
        r@ == plan_of(snap@, start as int),
{
    let status = status_line(snap.playing, snap.liked);
    let thumb = chars_of(snap.thumbnail.as_str());
    let https = chars_of("https://");
    let large_image = if starts_with_chars(&thumb, &https) {
        clone_string(&snap.thumbnail)
    } else {
        let mut s = String::new();
        push_str(&mut s, "ytmusic");
        s
    };
    let large_text = if status.is_empty() {
        None
    } else {
        let mut s = String::new();
        push_str(&mut s, status);
        Some(s)
    };
    ActivityPlan {
        kind: ActivityKind::Listening,
        status_display: StatusDisplay::Details,
        details: clone_string(&snap.title),
        state: clean_artist(snap.artist.as_str()),
        large_image,
        large_text,
        start: if snap.playing {
            Some(start)
        } else {
            None
        },
    }
}

/// Handles a player snapshot seen at `now` (Unix seconds): records it and, when
/// the presence is to be sent, gives what to send.
pub fn handle_player_snapshot(track: &mut DiscordTrackState, snap: &PlayerSnapshot, now: i64) -> (r:
    Option<ActivityPlan>)
    requires
        i64::MIN <= now - snap.position <= i64::MAX,
        i64::MIN <= now - old(track).last_update <= i64::MAX,
    ensures
        final(track)@ == observed(old(track)@, snap@, now as int).0,
        match r {
            Some(p) => observed(old(track)@, snap@, now as int).1 && p@ == plan_of(
                snap@,
                final(track)@.song_start,
            ),
            None => !observed(old(track)@, snap@, now as int).1,
        },
{
    if track.observe(snap, now) {
        Some(activity_plan(snap, track.song_start))
    } else {
        None
    }
}

// ---------------------------------------------------------------------------
// Keeping the connection
// ---------------------------------------------------------------------------

/// Where the connection loop stands.
#[derive(Clone, Copy, Debug, PartialEq, Eq, Structural)]
pub enum LinkPhase {
    /// About to connect to the Discord client.
    Connecting,
    /// Connected; the client is checked at intervals.
    Watching,
}

/// What the last step of the connection loop found.
#[derive(Clone, Copy, Debug, PartialEq, Eq, Structural)]
pub enum LinkEvent {
    /// The connection succeeded; `stored` tells whether there was application
    /// state to keep the client in.
    Connected { stored: bool },
    /// The connection failed.
    ConnectFailed,
    /// A check while watching; `present` tells whether the client is still kept.
    Checked { present: bool },
}

/// What the connection loop does next.
#[derive(Clone, Copy, Debug, PartialEq, Eq, Structural)]
pub enum LinkAction {
    /// Wait this many seconds and then check the client.
    WaitThenCheck(u64),
    /// Wait this many seconds and then connect again.
    WaitThenConnect(u64),
}

/// The next phase and action of the connection loop: a kept client is checked
/// every 5 s; a failed or lost connection is tried again after 15 s.
pub open spec fn link_next(event: LinkEvent) -> (LinkPhase, LinkAction) {
    match event {
        LinkEvent::Connected { stored } => if stored {
            (LinkPhase::Watching, LinkAction::WaitThenCheck(5))
        } else {
            (LinkPhase::Connecting, LinkAction::WaitThenConnect(15))
        },
        LinkEvent::ConnectFailed => (LinkPhase::Connecting, LinkAction::WaitThenConnect(15)),
        LinkEvent::Checked { present } => if present {
            (LinkPhase::Watching, LinkAction::WaitThenCheck(5))
        } else {
            (LinkPhase::Connecting, LinkAction::WaitThenConnect(15))
        },
    }
}

/// One step of the loop that keeps Discord connected: the phase to enter and
/// what to do, given what the last connection attempt or check found.  The
/// loop checks the client exactly when it enters the watching phase.
pub fn link_step(event: LinkEvent) -> (r: (LinkPhase, LinkAction))
    ensures
        r == link_next(event),
        (r.0 == LinkPhase::Watching) == (r.1 is WaitThenCheck),
{
    match event {
        LinkEvent::Connected { stored } => if stored {
            (LinkPhase::Watching, LinkAction::WaitThenCheck(5))
        } else {
            (LinkPhase::Connecting, LinkAction::WaitThenConnect(15))
        },
        LinkEvent::ConnectFailed => (LinkPhase::Connecting, LinkAction::WaitThenConnect(15)),
        LinkEvent::Checked { present } => if present {
            (LinkPhase::Watching, LinkAction::WaitThenCheck(5))
        } else {
            (LinkPhase::Connecting, LinkAction::WaitThenConnect(15))
        },
    }
}

/// A failed connection and a lost client are both retried after 15 s, and a
/// kept client is checked every 5 s; so once the client is lost, a new attempt
/// starts at most 5 + 15 s later.
pub proof fn law_lost_connection_is_retried()
    ensures
        link_next(LinkEvent::ConnectFailed) == (LinkPhase::Connecting, LinkAction::WaitThenConnect(15)),
        link_next(LinkEvent::Checked { present: false }) == (
            LinkPhase::Connecting,
            LinkAction::WaitThenConnect(15),
        ),
        link_next(LinkEvent::Checked { present: true }) == (
            LinkPhase::Watching,
            LinkAction::WaitThenCheck(5),
        ),
        link_next(LinkEvent::Connected { stored: true }) == (
            LinkPhase::Watching,
            LinkAction::WaitThenCheck(5),
        ),
{
}

} // verus!
