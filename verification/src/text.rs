//! Character-level text helpers shared by the parsers of this crate.
//!
//! Strings are modelled by their view, a `Seq<char>`.  The helpers here work on
//! `Vec<char>` copies of the input and state their results over that view.
use vstd::prelude::*;

verus! {

broadcast use vstd::string::group_string_axioms;

// ---------------------------------------------------------------------------
// Building strings
// ---------------------------------------------------------------------------

/// `String::push`: appends one character at the end.
#[verifier::external_body]
pub(crate) fn push_char(s: &mut String, c: char)
    ensures
        final(s)@ == old(s)@.push(c),
{
    s.push(c);
}

/// Collects the characters of a string slice into a vector.
pub fn chars_of(s: &str) -> (v: Vec<char>)
    ensures
        v@ == s@,
{
    let mut v: Vec<char> = Vec::new();
    let mut it = s.chars();
    let ghost whole = s@;
    loop
        invariant
            vstd::std_specs::iter::IteratorSpec::remaining(&it) == whole.skip(v@.len() as int),
            v@ == whole.take(v@.len() as int),
            v@.len() <= whole.len(),
            whole == s@,
        ensures
            v@ == s@,
        decreases whole.len() - v@.len(),
    {
        match it.next() {
            Some(c) => {
                v.push(c);
            },
            None => {
                assert(v@ =~= whole);
                break;
            },
        }
    }
    v
}

/// Appends all characters of `v` to `s`.
pub fn push_all(s: &mut String, v: &Vec<char>)
    ensures
        final(s)@ == old(s)@ + v@,
{
    let ghost start = s@;
    let mut i: usize = 0;
    while i < v.len()
        invariant
            i <= v.len(),
            s@ == start + v@.take(i as int),
        decreases v.len() - i,
    {
        push_char(s, v[i]);
        i += 1;
        assert(v@.take(i as int) =~= v@.take(i - 1).push(v@[i - 1]));
    }
    assert(v@.take(v.len() as int) =~= v@);
}

/// Appends all characters of `t` to `s`.
pub fn push_str(s: &mut String, t: &str)
    ensures
        final(s)@ == old(s)@ + t@,
{
    let v = chars_of(t);
    push_all(s, &v);
}

/// A `String` holding exactly the characters of `v`.
pub fn string_of(v: &Vec<char>) -> (s: String)
    ensures
        s@ == v@,
{
    let mut s = String::new();
    push_all(&mut s, v);
    s
}

/// Copies the characters `v[a..b]`.
pub fn sub_chars(v: &Vec<char>, a: usize, b: usize) -> (r: Vec<char>)
    requires
        a <= b <= v.len(),
    ensures
        r@ == v@.subrange(a as int, b as int),
{
    let mut r: Vec<char> = Vec::new();
    let mut i: usize = a;
    while i < b
        invariant
            a <= i <= b,
            b <= v.len(),
            r@ == v@.subrange(a as int, i as int),
        decreases b - i,
    {
        r.push(v[i]);
        i += 1;
        assert(r@ =~= v@.subrange(a as int, i as int));
    }
    r
}

// ---------------------------------------------------------------------------
// Trimming
// ---------------------------------------------------------------------------

/// The characters that `char::is_whitespace` accepts (Unicode `White_Space`).
pub open spec fn is_unicode_whitespace(c: char) -> bool {
    let u = c as u32;
    ||| 0x09 <= u <= 0x0d
    ||| u == 0x20
    ||| u == 0x85
    ||| u == 0xa0
    ||| u == 0x1680
    ||| 0x2000 <= u <= 0x200a
    ||| u == 0x2028
    ||| u == 0x2029
    ||| u == 0x202f
    ||| u == 0x205f
    ||| u == 0x3000
}

/// Whether `c` is Unicode white space.
pub fn is_whitespace(c: char) -> (b: bool)
    ensures
        b == is_unicode_whitespace(c),
{
    let u = c as u32;
    (0x09 <= u && u <= 0x0d) || u == 0x20 || u == 0x85 || u == 0xa0 || u == 0x1680 || (0x2000
        <= u && u <= 0x200a) || u == 0x2028 || u == 0x2029 || u == 0x202f || u == 0x205f || u
        == 0x3000
}

/// A set of characters that trimming strips from both ends.
#[derive(Clone, Copy)]
pub enum CharSet {
    /// Unicode white space, as `str::trim` strips it.
    Whitespace,
    /// The double quote, as `str::trim_matches('"')` strips it.
    Quote,
}

pub open spec fn in_set(set: CharSet, c: char) -> bool {
    match set {
        CharSet::Whitespace => is_unicode_whitespace(c),
        CharSet::Quote => c == '"',
    }
}

fn in_set_exec(set: CharSet, c: char) -> (b: bool)
    ensures
        b == in_set(set, c),
{
    match set {
        CharSet::Whitespace => is_whitespace(c),
        CharSet::Quote => c == '"',
    }
}

/// `s` without its leading characters from `set`.
pub open spec fn trim_start(s: Seq<char>, set: CharSet) -> Seq<char>
    decreases s.len(),
{
    if s.len() > 0 && in_set(set, s[0]) {
        trim_start(s.drop_first(), set)
    } else {
        s
    }
}

/// `s` without its trailing characters from `set`.
pub open spec fn trim_end(s: Seq<char>, set: CharSet) -> Seq<char>
    decreases s.len(),
{
    if s.len() > 0 && in_set(set, s.last()) {
        trim_end(s.drop_last(), set)
    } else {
        s
    }
}

/// `s` without leading and trailing characters from `set`.
pub open spec fn trim(s: Seq<char>, set: CharSet) -> Seq<char> {
    trim_end(trim_start(s, set), set)
}

/// Strips the characters of `set` from both ends of `v`.
pub fn trim_chars(v: &Vec<char>, set: CharSet) -> (r: Vec<char>)
    ensures
        r@ == trim(v@, set),
{
    let n = v.len();
    let mut a: usize = 0;
    assert(v@.skip(0) =~= v@);
    while a < n && in_set_exec(set, v[a])
        invariant
            a <= n,
            n == v@.len(),
            trim_start(v@, set) == trim_start(v@.skip(a as int), set),
        decreases n - a,
    {
        assert(v@.skip(a as int).drop_first() =~= v@.skip(a + 1));
        a += 1;
    }
    assert(trim_start(v@, set) == v@.skip(a as int));
    assert(v@.skip(a as int) =~= v@.subrange(a as int, n as int));
    let mut b: usize = n;
    while b > a && in_set_exec(set, v[b - 1])
        invariant
            a <= b <= n,
            n == v@.len(),
            trim(v@, set) == trim_end(v@.subrange(a as int, b as int), set),
        decreases b,
    {
        assert(v@.subrange(a as int, b as int).drop_last() =~= v@.subrange(a as int, b - 1));
        b -= 1;
    }
    sub_chars(v, a, b)
}

/// What `trim_start` leaves ends the text and, when not empty, begins with a
/// character outside the set.
pub proof fn lemma_trim_start_shape(s: Seq<char>, set: CharSet)
    ensures
        ends_with(s, trim_start(s, set)),
        trim_start(s, set).len() > 0 ==> !in_set(set, trim_start(s, set)[0]),
    decreases s.len(),
{
    if s.len() > 0 && in_set(set, s[0]) {
        let t = s.drop_first();
        lemma_trim_start_shape(t, set);
        let r = trim_start(s, set);
        assert(s.subrange(s.len() - r.len(), s.len() as int) =~= t.subrange(
            t.len() - r.len(),
            t.len() as int,
        ));
    } else {
        assert(s.subrange(0, s.len() as int) =~= s);
    }
}

/// What `trim_end` leaves begins the text and, when not empty, ends with a
/// character outside the set.
pub proof fn lemma_trim_end_shape(s: Seq<char>, set: CharSet)
    ensures
        starts_with(s, trim_end(s, set)),
        trim_end(s, set).len() > 0 ==> !in_set(set, trim_end(s, set).last()),
    decreases s.len(),
{
    if s.len() > 0 && in_set(set, s.last()) {
        let t = s.drop_last();
        lemma_trim_end_shape(t, set);
        let r = trim_end(s, set);
        assert(s.take(r.len() as int) =~= t.take(r.len() as int));
    } else {
        assert(s.take(s.len() as int) =~= s);
    }
}

/// A trimmed text occurs in the text, and when not empty it begins and ends
/// with characters outside the set.
pub proof fn lemma_trim_shape(s: Seq<char>, set: CharSet)
    ensures
        contains_seq(s, trim(s, set)),
        trim(s, set).len() > 0 ==> !in_set(set, trim(s, set)[0]) && !in_set(
            set,
            trim(s, set).last(),
        ),
{
    let u = trim_start(s, set);
    let r = trim(s, set);
    lemma_trim_start_shape(s, set);
    lemma_trim_end_shape(u, set);
    if r.len() > 0 {
        assert(r[0] == u[0]);
    }
    let off = s.len() - u.len();
    assert(s.subrange(off, off + r.len()) =~= r) by {
        assert forall|i: int| 0 <= i < r.len() implies s.subrange(off, off + r.len())[i] == r[i] by {
            assert(r[i] == u[i]);
            assert(u[i] == s[off + i]);
        }
    }
}

/// Trimming a trimmed text changes nothing.
pub proof fn lemma_trim_idempotent(s: Seq<char>, set: CharSet)
    ensures
        trim(trim(s, set), set) == trim(s, set),
{
    lemma_trim_shape(s, set);
    let r = trim(s, set);
    assert(trim_start(r, set) == r);
    assert(trim_end(r, set) == r);
}

/// The characters of a text that occurs in a text free of separators are
/// free of them too.
pub proof fn lemma_contained_free(a: Seq<char>, b: Seq<char>, sep: Separator)
    requires
        contains_seq(a, b),
        free_of(a, sep),
    ensures
        free_of(b, sep),
{
    let i = choose|i: int| 0 <= i && i + b.len() <= a.len() && #[trigger] a.subrange(i, i + b.len()) == b;
    assert forall|j: int| 0 <= j < b.len() implies !is_separator(sep, #[trigger] b[j]) by {
        assert(b[j] == a[i + j]);
    }
}

// ---------------------------------------------------------------------------
// Searching
// ---------------------------------------------------------------------------

/// The index of the first `c` in `s`, if any.
pub open spec fn find_char(s: Seq<char>, c: char) -> Option<int>
    decreases s.len(),
{
    if s.len() == 0 {
        None
    } else if s[0] == c {
        Some(0)
    } else {
        match find_char(s.drop_first(), c) {
            Some(i) => Some(i + 1),
            None => None,
        }
    }
}

/// `find_char` is the first position that holds `c`.
pub proof fn lemma_find_char(s: Seq<char>, c: char, i: int)
    requires
        0 <= i <= s.len(),
        forall|j: int| 0 <= j < i ==> s[j] != c,
        i < s.len() ==> s[i] == c,
    ensures
        find_char(s, c) == (if i < s.len() {
            Some(i)
        } else {
            None::<int>
        }),
    decreases s.len(),
{
    if s.len() > 0 && i > 0 {
        assert forall|j: int| 0 <= j < i - 1 implies s.drop_first()[j] != c by {
            assert(s.drop_first()[j] == s[j + 1]);
        }
        lemma_find_char(s.drop_first(), c, i - 1);
    }
}

/// What `find_char` returns is a position of `c` with no `c` before it.
pub proof fn lemma_find_char_bounds(s: Seq<char>, c: char)
    ensures
        find_char(s, c) is Some ==> {
            let i = find_char(s, c)->0;
            &&& 0 <= i < s.len()
            &&& s[i] == c
            &&& forall|j: int| 0 <= j < i ==> s[j] != c
        },
        find_char(s, c) is None ==> forall|j: int| 0 <= j < s.len() ==> s[j] != c,
    decreases s.len(),
{
    if s.len() > 0 && s[0] != c {
        lemma_find_char_bounds(s.drop_first(), c);
        assert forall|j: int| 0 < j < s.len() implies s[j] == s.drop_first()[j - 1] by {}
    }
}

pub open spec fn opt_index(r: Option<usize>) -> Option<int> {
    match r {
        Some(i) => Some(i as int),
        None => None,
    }
}

/// The index of the first `c` in `v`, if any.
pub fn find_char_in(v: &Vec<char>, c: char) -> (r: Option<usize>)
    ensures
        opt_index(r) == find_char(v@, c),
{
    let mut i: usize = 0;
    while i < v.len()
        invariant
            i <= v.len(),
            forall|j: int| 0 <= j < i ==> v@[j] != c,
        decreases v.len() - i,
    {
        if v[i] == c {
            proof {
                lemma_find_char(v@, c, i as int);
            }
            return Some(i);
        }
        i += 1;
    }
    proof {
        lemma_find_char(v@, c, i as int);
    }
    None
}

/// `s` begins with `p`.
pub open spec fn starts_with(s: Seq<char>, p: Seq<char>) -> bool {
    p.len() <= s.len() && s.take(p.len() as int) == p
}

/// `p` occurs in `v` at position `start`.
pub fn matches_at(v: &Vec<char>, start: usize, p: &Vec<char>) -> (b: bool)
    ensures
        b == (start + p.len() <= v.len() && v@.subrange(start as int, start + p.len()) == p@),
{
    if start > v.len() || p.len() > v.len() - start {
        return false;
    }
    let mut k: usize = 0;
    while k < p.len()
        invariant
            k <= p.len(),
            start + p.len() <= v.len(),
            forall|j: int| 0 <= j < k ==> v@[start + j] == p@[j],
        decreases p.len() - k,
    {
        if v[start + k] != p[k] {
            assert(v@.subrange(start as int, start + p.len())[k as int] != p@[k as int]);
            return false;
        }
        k += 1;
    }
    assert(v@.subrange(start as int, start + p.len()) =~= p@);
    true
}

/// Whether `a` and `b` hold the same characters.
pub fn chars_eq(a: &Vec<char>, b: &Vec<char>) -> (r: bool)
    ensures
        r == (a@ == b@),
{
    if a.len() != b.len() {
        return false;
    }
    let r = matches_at(a, 0, b);
    assert(a@.subrange(0, b.len() as int) =~= a@);
    r
}

/// `v` begins with `p`.
pub fn starts_with_chars(v: &Vec<char>, p: &Vec<char>) -> (b: bool)
    ensures
        b == starts_with(v@, p@),
{
    let b = matches_at(v, 0, p);
    assert(v@.take(p.len() as int) == v@.subrange(0, p.len() as int));
    b
}

/// `s` after removing `p` from its front again and again while it is there
/// (what `str::trim_start_matches` with a string pattern does).
pub open spec fn strip_all_prefix(s: Seq<char>, p: Seq<char>) -> Seq<char>
    decreases s.len(),
{
    if p.len() > 0 && starts_with(s, p) {
        strip_all_prefix(s.skip(p.len() as int), p)
    } else {
        s
    }
}

/// Removes every leading repetition of `p` from `v`.
pub fn strip_all_prefix_chars(v: &Vec<char>, p: &Vec<char>) -> (r: Vec<char>)
    ensures
        r@ == strip_all_prefix(v@, p@),
{
    let n = v.len();
    if p.len() == 0 {
        return sub_chars(v, 0, n);
    }
    let mut start: usize = 0;
    assert(v@.skip(0) =~= v@);
    while matches_at(v, start, p)
        invariant
            start <= n,
            n == v@.len(),
            p@.len() > 0,
            strip_all_prefix(v@, p@) == strip_all_prefix(v@.skip(start as int), p@),
        decreases n - start,
    {
        assert(v@.skip(start as int).take(p.len() as int) =~= v@.subrange(
            start as int,
            start + p.len(),
        ));
        assert(v@.skip(start as int).skip(p.len() as int) =~= v@.skip(start + p.len()));
        start = start + p.len();
    }
    if p.len() <= n - start {
        assert(v@.skip(start as int).take(p.len() as int) =~= v@.subrange(
            start as int,
            start + p.len(),
        ));
    }
    assert(v@.skip(start as int) =~= v@.subrange(start as int, n as int));
    sub_chars(v, start, n)
}

/// `needle` occurs somewhere in `s`.
pub open spec fn contains_seq(s: Seq<char>, needle: Seq<char>) -> bool {
    exists|i: int|
        0 <= i && i + needle.len() <= s.len() && #[trigger] s.subrange(i, i + needle.len())
            == needle
}

/// Whether `needle` occurs in `v`.
pub fn contains_chars(v: &Vec<char>, needle: &Vec<char>) -> (b: bool)
    ensures
        b == contains_seq(v@, needle@),
{
    if needle.len() > v.len() {
        return false;
    }
    let last = v.len() - needle.len();
    let mut i: usize = 0;
    loop
        invariant
            last + needle.len() == v.len(),
            i <= last,
            forall|j: int|
                0 <= j < i ==> #[trigger] v@.subrange(j, j + needle.len()) != needle@,
        decreases last - i,
    {
        if matches_at(v, i, needle) {
            return true;
        }
        if i == last {
            return false;
        }
        i += 1;
    }
}

// ---------------------------------------------------------------------------
// Splitting
// ---------------------------------------------------------------------------

/// Where text is cut into pieces.
#[derive(Clone, Copy)]
pub enum Separator {
    /// At every occurrence of one character.
    Char(char),
    /// At every line feed and every bullet `•`.
    LineOrBullet,
}

pub open spec fn is_separator(sep: Separator, c: char) -> bool {
    match sep {
        Separator::Char(d) => c == d,
        Separator::LineOrBullet => c == '\n' || c == '•',
    }
}

fn is_separator_exec(sep: Separator, c: char) -> (b: bool)
    ensures
        b == is_separator(sep, c),
{
    match sep {
        Separator::Char(d) => c == d,
        Separator::LineOrBullet => c == '\n' || c == '•',
    }
}

/// The pieces between separators, in order; `n` separators give `n + 1` pieces
/// (what `str::split` yields).
pub open spec fn split(s: Seq<char>, sep: Separator) -> Seq<Seq<char>>
    decreases s.len(),
{
    if s.len() == 0 {
        seq![Seq::<char>::empty()]
    } else {
        let prev = split(s.drop_last(), sep);
        if is_separator(sep, s.last()) {
            prev.push(Seq::<char>::empty())
        } else {
            prev.update(prev.len() - 1, prev.last().push(s.last()))
        }
    }
}

pub proof fn lemma_split_len(s: Seq<char>, sep: Separator)
    ensures
        split(s, sep).len() >= 1,
    decreases s.len(),
{
    if s.len() > 0 {
        lemma_split_len(s.drop_last(), sep);
    }
}

/// No character of `p` is a separator.
pub open spec fn free_of(p: Seq<char>, sep: Separator) -> bool {
    forall|i: int| 0 <= i < p.len() ==> !is_separator(sep, #[trigger] p[i])
}

/// `p` is a suffix of `s`.
pub open spec fn ends_with(s: Seq<char>, p: Seq<char>) -> bool {
    p.len() <= s.len() && s.subrange(s.len() - p.len(), s.len() as int) == p
}

/// A text occurs in any text that extends the one it occurs in.
pub proof fn lemma_contains_trans(a: Seq<char>, b: Seq<char>, c: Seq<char>)
    requires
        contains_seq(a, b),
        contains_seq(b, c),
    ensures
        contains_seq(a, c),
{
    let i = choose|i: int| 0 <= i && i + b.len() <= a.len() && #[trigger] a.subrange(i, i + b.len()) == b;
    let j = choose|j: int| 0 <= j && j + c.len() <= b.len() && #[trigger] b.subrange(j, j + c.len()) == c;
    assert(a.subrange(i + j, i + j + c.len()) =~= c);
}

/// A suffix of a text occurs in it.
pub proof fn lemma_suffix_contained(s: Seq<char>, p: Seq<char>)
    requires
        ends_with(s, p),
    ensures
        contains_seq(s, p),
{
    assert(s.subrange(s.len() - p.len(), s.len() - p.len() + p.len()) == p);
}

/// Every piece of a split is free of separators and occurs in the text, and
/// the last piece ends it.
pub proof fn lemma_split_pieces(s: Seq<char>, sep: Separator)
    ensures
        forall|k: int|
            0 <= k < split(s, sep).len() ==> free_of(#[trigger] split(s, sep)[k], sep)
                && contains_seq(s, split(s, sep)[k]),
        split(s, sep).len() >= 1,
        ends_with(s, split(s, sep).last()),
    decreases s.len(),
{
    if s.len() == 0 {
        let e = Seq::<char>::empty();
        assert(s.subrange(0, 0int + e.len()) =~= e);
        assert(split(s, sep)[0] == e);
    } else {
        let t = s.drop_last();
        lemma_split_pieces(t, sep);
        let prev = split(t, sep);
        let c = s.last();
        assert forall|k: int| 0 <= k < prev.len() implies contains_seq(s, #[trigger] prev[k]) by {
            let p = prev[k];
            assert(contains_seq(t, p));
            let i = choose|i: int| 0 <= i && i + p.len() <= t.len() && #[trigger] t.subrange(i, i + p.len()) == p;
            assert(s.subrange(i, i + p.len()) =~= t.subrange(i, i + p.len()));
        }
        if is_separator(sep, c) {
            let e = Seq::<char>::empty();
            assert(s.subrange(s.len() - e.len(), s.len() as int) =~= e);
            assert(s.subrange(0, 0int + e.len()) =~= e);
            assert(contains_seq(s, e));
            let new = split(s, sep);
            assert forall|k: int| 0 <= k < new.len() implies free_of(#[trigger] new[k], sep)
                && contains_seq(s, new[k]) by {
                if k < prev.len() {
                    assert(new[k] == prev[k]);
                } else {
                    assert(new[k] == e);
                }
            }
        } else {
            let last = prev.last();
            let np = last.push(c);
            assert(free_of(np, sep)) by {
                assert forall|i: int| 0 <= i < np.len() implies !is_separator(sep, #[trigger] np[i]) by {
                    if i < last.len() {
                        assert(np[i] == last[i]);
                        assert(free_of(prev[prev.len() - 1], sep));
                    }
                }
            }
            assert(s.subrange(s.len() - np.len(), s.len() as int) =~= np) by {
                assert(t.subrange(t.len() - last.len(), t.len() as int) == last);
                assert forall|i: int| 0 <= i < np.len() implies s.subrange(s.len() - np.len(), s.len() as int)[i] == np[i] by {
                    if i < last.len() {
                        assert(s[s.len() - np.len() + i] == t[t.len() - last.len() + i]);
                    }
                }
            }
            lemma_suffix_contained(s, np);
            let new = split(s, sep);
            assert forall|k: int| 0 <= k < new.len() implies free_of(#[trigger] new[k], sep)
                && contains_seq(s, new[k]) by {
                if k < prev.len() - 1 {
                    assert(new[k] == prev[k]);
                }
            }
        }
    }
}

/// A text free of separators is one piece.
pub proof fn lemma_split_free(t: Seq<char>, sep: Separator)
    requires
        free_of(t, sep),
    ensures
        split(t, sep) == seq![t],
    decreases t.len(),
{
    if t.len() > 0 {
        let u = t.drop_last();
        assert(free_of(u, sep)) by {
            assert forall|i: int| 0 <= i < u.len() implies !is_separator(sep, #[trigger] u[i]) by {
                assert(u[i] == t[i]);
            }
        }
        lemma_split_free(u, sep);
        assert(!is_separator(sep, t[t.len() - 1]));
        assert(u.push(t.last()) =~= t);
        assert(split(t, sep) =~= seq![t]);
    } else {
        assert(t =~= Seq::<char>::empty());
    }
}

/// Appending text free of separators extends the last piece.
pub proof fn lemma_split_append_free(s: Seq<char>, t: Seq<char>, sep: Separator)
    requires
        free_of(t, sep),
    ensures
        split(s + t, sep) == split(s, sep).update(
            split(s, sep).len() - 1,
            split(s, sep).last() + t,
        ),
    decreases t.len(),
{
    lemma_split_len(s, sep);
    let ps = split(s, sep);
    if t.len() == 0 {
        assert(s + t =~= s);
        assert(ps.last() + t =~= ps.last());
        assert(ps.update(ps.len() - 1, ps.last()) =~= ps);
    } else {
        let u = t.drop_last();
        assert(free_of(u, sep)) by {
            assert forall|i: int| 0 <= i < u.len() implies !is_separator(sep, #[trigger] u[i]) by {
                assert(u[i] == t[i]);
            }
        }
        lemma_split_append_free(s, u, sep);
        let c = t.last();
        assert(!is_separator(sep, t[t.len() - 1]));
        assert((s + t).drop_last() =~= s + u);
        assert((s + t).last() == c);
        let prev = split(s + u, sep);
        assert(prev.last() == ps.last() + u);
        assert((ps.last() + u).push(c) =~= ps.last() + t);
        assert(split(s + t, sep) =~= ps.update(ps.len() - 1, ps.last() + t));
    }
}

/// The piece that `first_with_prefix` returns is one of the pieces and begins
/// with the key.
pub proof fn lemma_first_with_prefix_member(pieces: Seq<Seq<char>>, key: Seq<char>)
    ensures
        first_with_prefix(pieces, key) is Some ==> {
            let p = first_with_prefix(pieces, key)->0;
            &&& starts_with(p, key)
            &&& exists|k: int| 0 <= k < pieces.len() && #[trigger] pieces[k] == p
        },
    decreases pieces.len(),
{
    if pieces.len() > 0 {
        if starts_with(pieces[0], key) {
            assert(pieces[0] == pieces[0]);
        } else {
            lemma_first_with_prefix_member(pieces.drop_first(), key);
            if first_with_prefix(pieces, key) is Some {
                let p = first_with_prefix(pieces, key)->0;
                let k = choose|k: int| 0 <= k < pieces.drop_first().len() && #[trigger] pieces.drop_first()[k] == p;
                assert(pieces[k + 1] == p);
            }
        }
    }
}

/// Removing every leading `key` leaves a text that does not begin with `key`,
/// ends the original text, and follows one `key` there when one was removed.
pub proof fn lemma_strip_all_prefix(s: Seq<char>, key: Seq<char>)
    requires
        key.len() > 0,
    ensures
        !starts_with(strip_all_prefix(s, key), key),
        ends_with(s, strip_all_prefix(s, key)),
        starts_with(s, key) ==> ends_with(s, key + strip_all_prefix(s, key)),
    decreases s.len(),
{
    if starts_with(s, key) {
        let rest = s.skip(key.len() as int);
        lemma_strip_all_prefix(rest, key);
        let r = strip_all_prefix(s, key);
        assert(r == strip_all_prefix(rest, key));
        assert(rest.subrange(rest.len() - r.len(), rest.len() as int) == r);
        assert(s.subrange(s.len() - r.len(), s.len() as int) =~= r);
        if starts_with(rest, key) {
            let kr = key + r;
            assert(rest.subrange(rest.len() - kr.len(), rest.len() as int) == kr);
            assert(s.subrange(s.len() - kr.len(), s.len() as int) =~= kr);
        } else {
            assert(r == rest);
            assert(s.subrange(0, key.len() as int) == key);
            assert(s.subrange(s.len() - (key + r).len(), s.len() as int) =~= key + r);
        }
    } else {
        assert(s.subrange(0, s.len() as int) =~= s);
    }
}

/// Characters of a text that ends another are characters of that other text.
pub proof fn lemma_ends_with_free(s: Seq<char>, p: Seq<char>, sep: Separator)
    requires
        ends_with(s, p),
        free_of(s, sep),
    ensures
        free_of(p, sep),
{
    assert forall|i: int| 0 <= i < p.len() implies !is_separator(sep, #[trigger] p[i]) by {
        assert(p[i] == s[s.len() - p.len() + i]);
    }
}

pub open spec fn views(v: Seq<Vec<char>>) -> Seq<Seq<char>> {
    Seq::new(v.len(), |i: int| v[i]@)
}

/// Cuts `v` into the pieces between separators.
pub fn split_chars(v: &Vec<char>, sep: Separator) -> (r: Vec<Vec<char>>)
    ensures
        views(r@) == split(v@, sep),
{
    let mut pieces: Vec<Vec<char>> = Vec::new();
    let mut cur: Vec<char> = Vec::new();
    let mut i: usize = 0;
    assert(v@.take(0) =~= Seq::<char>::empty());
    assert(views(pieces@).push(cur@) =~= split(v@.take(0), sep));
    while i < v.len()
        invariant
            i <= v.len(),
            views(pieces@).push(cur@) == split(v@.take(i as int), sep),
        decreases v.len() - i,
    {
        let c = v[i];
        let ghost before = split(v@.take(i as int), sep);
        assert(v@.take(i + 1).drop_last() =~= v@.take(i as int));
        assert(v@.take(i + 1).last() == c);
        if is_separator_exec(sep, c) {
            let done = cur;
            pieces.push(done);
            cur = Vec::new();
            assert(views(pieces@) =~= before);
            assert(views(pieces@).push(cur@) =~= before.push(Seq::<char>::empty()));
        } else {
            cur.push(c);
            assert(views(pieces@).push(cur@) =~= before.update(
                before.len() - 1,
                before.last().push(c),
            ));
        }
        i += 1;
    }
    assert(v@.take(v.len() as int) =~= v@);
    let ghost total = split(v@, sep);
    pieces.push(cur);
    assert(views(pieces@) =~= total);
    pieces
}

/// The first piece that begins with `key`.
pub open spec fn first_with_prefix(pieces: Seq<Seq<char>>, key: Seq<char>) -> Option<Seq<char>>
    decreases pieces.len(),
{
    if pieces.len() == 0 {
        None
    } else if starts_with(pieces[0], key) {
        Some(pieces[0])
    } else {
        first_with_prefix(pieces.drop_first(), key)
    }
}

/// The first of `pieces` that begins with `key`, if any.
pub fn first_with_prefix_in(pieces: &Vec<Vec<char>>, key: &Vec<char>) -> (r: Option<Vec<char>>)
    ensures
        match r {
            Some(p) => first_with_prefix(views(pieces@), key@) == Some(p@),
            None => first_with_prefix(views(pieces@), key@) is None,
        },
{
    let mut i: usize = 0;
    assert(views(pieces@).skip(0) =~= views(pieces@));
    while i < pieces.len()
        invariant
            i <= pieces.len(),
            first_with_prefix(views(pieces@), key@) == first_with_prefix(
                views(pieces@).skip(i as int),
                key@,
            ),
        decreases pieces.len() - i,
    {
        let ghost rest = views(pieces@).skip(i as int);
        assert(rest[0] == pieces@[i as int]@);
        if starts_with_chars(&pieces[i], key) {
            let found = sub_chars(&pieces[i], 0, pieces[i].len());
            assert(found@ =~= pieces@[i as int]@);
            return Some(found);
        }
        assert(rest.drop_first() =~= views(pieces@).skip(i + 1));
        i += 1;
    }
    assert(views(pieces@).skip(i as int) =~= Seq::<Seq<char>>::empty());
    None
}

} // verus!
