//! String models and verified string primitives.
//!
//! The message grammar is stated over `Seq<char>` views.  This module
//! defines the spec-level string operations the grammar needs — first
//! occurrence of a pattern, trimming, splitting into lines, splitting
//! into whitespace-separated tokens — together with executable
//! routines proved against them.

use vstd::prelude::*;

use crate::chars::{is_ws, is_ws_char};

verus! {

// ---------------------------------------------------------------------
// Searching
// ---------------------------------------------------------------------
/// Whether the pattern `p` occurs in `s` starting at index `i`.
pub open spec fn is_match_at(s: Seq<char>, p: Seq<char>, i: int) -> bool {
    &&& 0 <= i
    &&& i + p.len() <= s.len()
    &&& s.subrange(i, i + p.len()) == p
}

/// The first index at or after `i` where `p` occurs in `s`.
pub open spec fn find_from(s: Seq<char>, p: Seq<char>, i: int) -> Option<int>
    decreases s.len() + 1 - i,
{
    if i < 0 || i + p.len() > s.len() {
        None
    } else if is_match_at(s, p, i) {
        Some(i)
    } else {
        find_from(s, p, i + 1)
    }
}

/// The first occurrence of `p` in `s`, as `str::find` reports it.
pub open spec fn find(s: Seq<char>, p: Seq<char>) -> Option<int> {
    find_from(s, p, 0)
}

/// What [`find`] returns: the first match when one exists, `None`
/// when no index matches.
pub proof fn lemma_find_characterization(s: Seq<char>, p: Seq<char>)
    ensures
        match find(s, p) {
            Some(k) => is_match_at(s, p, k) && forall|j: int| 0 <= j < k ==> !is_match_at(s, p, j),
            None => forall|j: int| !is_match_at(s, p, j),
        },
{
    lemma_find_from_characterization(s, p, 0);
}

proof fn lemma_find_from_characterization(s: Seq<char>, p: Seq<char>, i: int)
    requires
        0 <= i,
    ensures
        match find_from(s, p, i) {
            Some(k) => i <= k && is_match_at(s, p, k) && forall|j: int|
                i <= j < k ==> !is_match_at(s, p, j),
            None => forall|j: int| j >= i ==> !is_match_at(s, p, j),
        },
    decreases s.len() + 1 - i,
{
    if i + p.len() > s.len() {
        assert forall|j: int| j >= i implies !is_match_at(s, p, j) by {}
    } else if is_match_at(s, p, i) {
    } else {
        lemma_find_from_characterization(s, p, i + 1);
    }
}

/// Conversely: a first match determines [`find`].
pub proof fn lemma_find_is_first(s: Seq<char>, p: Seq<char>, k: int)
    requires
        is_match_at(s, p, k),
        forall|j: int| 0 <= j < k ==> !is_match_at(s, p, j),
    ensures
        find(s, p) == Some(k),
{
    lemma_find_characterization(s, p);
    match find(s, p) {
        Some(k2) => {
            if k2 < k {
                assert(!is_match_at(s, p, k2));
            }
            if k < k2 {
                assert(!is_match_at(s, p, k));
            }
        },
        None => {
            assert(!is_match_at(s, p, k));
        },
    }
}

/// No match anywhere determines [`find`].
pub proof fn lemma_find_is_none(s: Seq<char>, p: Seq<char>)
    requires
        forall|j: int| !is_match_at(s, p, j),
    ensures
        find(s, p) == None::<int>,
{
    lemma_find_characterization(s, p);
    if let Some(k) = find(s, p) {
        assert(!is_match_at(s, p, k));
    }
}

// ---------------------------------------------------------------------
// Trimming
// ---------------------------------------------------------------------
/// `s` without its leading whitespace.
pub open spec fn ltrim(s: Seq<char>) -> Seq<char>
    decreases s.len(),
{
    if s.len() > 0 && is_ws(s[0]) {
        ltrim(s.drop_first())
    } else {
        s
    }
}

/// `s` without its trailing whitespace.
pub open spec fn rtrim(s: Seq<char>) -> Seq<char>
    decreases s.len(),
{
    if s.len() > 0 && is_ws(s.last()) {
        rtrim(s.drop_last())
    } else {
        s
    }
}

/// `s` without leading and trailing whitespace, as `str::trim`
/// computes it.
pub open spec fn trim(s: Seq<char>) -> Seq<char> {
    rtrim(ltrim(s))
}

/// [`ltrim`] keeps exactly the part after the first non-blank
/// character.
pub proof fn lemma_ltrim_subrange(s: Seq<char>, a: int)
    requires
        0 <= a <= s.len(),
        forall|j: int| 0 <= j < a ==> is_ws(s[j]),
        a == s.len() || !is_ws(s[a]),
    ensures
        ltrim(s) == s.subrange(a, s.len() as int),
    decreases s.len(),
{
    if s.len() > 0 && is_ws(s[0]) {
        assert(a > 0) by {
            if a == 0 {
                assert(!is_ws(s[0]));
            }
        }
        lemma_ltrim_subrange(s.drop_first(), a - 1);
        assert(s.drop_first().subrange(a - 1, s.drop_first().len() as int) =~= s.subrange(
            a,
            s.len() as int,
        ));
    } else {
        assert(a == 0) by {
            if a > 0 {
                assert(is_ws(s[0]));
            }
        }
        assert(s.subrange(0, s.len() as int) =~= s);
    }
}

/// [`rtrim`] keeps exactly the part before the last non-blank
/// character.
pub proof fn lemma_rtrim_subrange(s: Seq<char>, b: int)
    requires
        0 <= b <= s.len(),
        forall|j: int| b <= j < s.len() ==> is_ws(s[j]),
        b == 0 || !is_ws(s[b - 1]),
    ensures
        rtrim(s) == s.subrange(0, b),
    decreases s.len(),
{
    if s.len() > 0 && is_ws(s.last()) {
        assert(b < s.len()) by {
            if b == s.len() {
                assert(!is_ws(s[s.len() - 1]));
            }
        }
        lemma_rtrim_subrange(s.drop_last(), b);
        assert(s.drop_last().subrange(0, b) =~= s.subrange(0, b));
    } else {
        assert(b == s.len()) by {
            if b < s.len() {
                assert(is_ws(s[s.len() - 1]));
            }
        }
        assert(s.subrange(0, s.len() as int) =~= s);
    }
}

/// Trimming is idempotent, and a trimmed string neither starts nor
/// ends with whitespace.
pub proof fn lemma_trim_shape(s: Seq<char>)
    ensures
        trim(s).len() > 0 ==> !is_ws(trim(s)[0]) && !is_ws(trim(s).last()),
        trim(trim(s)) == trim(s),
    decreases s.len(),
{
    lemma_ltrim_shape(s);
    lemma_rtrim_shape(ltrim(s));
    let t = trim(s);
    if t.len() > 0 {
        assert(!is_ws(t[0])) by {
            if is_ws(t[0]) {
                assert(ltrim(s)[0] == t[0]);
            }
        }
        assert(ltrim(t) == t);
        assert(rtrim(t) == t) by {
            lemma_rtrim_shape(ltrim(s));
        }
    } else {
        assert(t =~= Seq::<char>::empty());
    }
}

/// A character absent from `s` is absent from `trim(s)`.
pub proof fn lemma_trim_no_char(s: Seq<char>, c: char)
    requires
        forall|j: int| 0 <= j < s.len() ==> s[j] != c,
    ensures
        forall|j: int| 0 <= j < trim(s).len() ==> trim(s)[j] != c,
{
    lemma_ltrim_no_char(s, c);
    lemma_rtrim_shape(ltrim(s));
    assert forall|j: int| 0 <= j < trim(s).len() implies trim(s)[j] != c by {
        assert(trim(s)[j] == ltrim(s)[j]);
    }
}

/// A character absent from `s` is absent from `ltrim(s)`.
proof fn lemma_ltrim_no_char(s: Seq<char>, c: char)
    requires
        forall|j: int| 0 <= j < s.len() ==> s[j] != c,
    ensures
        forall|j: int| 0 <= j < ltrim(s).len() ==> ltrim(s)[j] != c,
    decreases s.len(),
{
    if s.len() > 0 && is_ws(s[0]) {
        let d = s.drop_first();
        assert forall|j: int| 0 <= j < d.len() implies d[j] != c by {
            assert(d[j] == s[j + 1]);
        }
        lemma_ltrim_no_char(d, c);
        assert forall|j: int| 0 <= j < ltrim(s).len() implies ltrim(s)[j] != c by {
            assert(ltrim(s) == ltrim(d));
            assert(ltrim(d)[j] != c);
        }
    }
}

/// `ltrim` does not begin with whitespace.
proof fn lemma_ltrim_shape(s: Seq<char>)
    ensures
        ltrim(s).len() <= s.len(),
        ltrim(s).len() > 0 ==> !is_ws(ltrim(s)[0]),
    decreases s.len(),
{
    if s.len() > 0 && is_ws(s[0]) {
        lemma_ltrim_shape(s.drop_first());
    }
}

/// The mirror of [`lemma_ltrim_shape`] for `rtrim`.
proof fn lemma_rtrim_shape(s: Seq<char>)
    ensures
        rtrim(s).len() <= s.len(),
        rtrim(s).len() > 0 ==> !is_ws(rtrim(s).last()),
        rtrim(s).len() > 0 && !is_ws(s[0]) ==> rtrim(s)[0] == s[0],
        rtrim(rtrim(s)) == rtrim(s),
        forall|j: int| 0 <= j < rtrim(s).len() ==> rtrim(s)[j] == s[j],
    decreases s.len(),
{
    if s.len() > 0 && is_ws(s.last()) {
        let d = s.drop_last();
        lemma_rtrim_shape(d);
        assert forall|j: int| 0 <= j < rtrim(s).len() implies rtrim(s)[j] == s[j] by {
            assert(rtrim(s) == rtrim(d));
            assert(rtrim(d)[j] == d[j]);
            assert(d[j] == s[j]);
        }
    }
}

/// Computes [`trim`] of a string slice.
pub fn trim_str<'a>(s: &'a str) -> (r: &'a str)
    ensures
        r@ == trim(s@),
{
    let n = s.unicode_len();
    let mut a: usize = 0;
    while a < n && is_ws_char(s.get_char(a))
        invariant
            n == s@.len(),
            a <= n,
            forall|j: int| 0 <= j < a ==> is_ws(s@[j]),
        decreases n - a,
    {
        a = a + 1;
    }
    let mut b: usize = n;
    while b > a && is_ws_char(s.get_char(b - 1))
        invariant
            n == s@.len(),
            a <= b <= n,
            forall|j: int| 0 <= j < a ==> is_ws(s@[j]),
            forall|j: int| b <= j < n ==> is_ws(s@[j]),
        decreases b,
    {
        b = b - 1;
    }
    proof {
        lemma_ltrim_subrange(s@, a as int);
        let u = s@.subrange(a as int, n as int);
        if b == a {
            lemma_rtrim_subrange(u, 0);
        } else {
            lemma_rtrim_subrange(u, b - a);
        }
        assert(u.subrange(0, b - a) =~= s@.subrange(a as int, b as int));
    }
    s.substring_char(a, b)
}

// ---------------------------------------------------------------------
// Lines
// ---------------------------------------------------------------------
/// The index of the first occurrence of `c` in `s`, or `s.len()`
/// when `c` does not occur.
pub open spec fn first_ch(s: Seq<char>, c: char) -> nat
    decreases s.len(),
{
    if s.len() == 0 {
        0
    } else if s[0] == c {
        0
    } else {
        1 + first_ch(s.drop_first(), c)
    }
}

/// What [`first_ch`] returns.
pub proof fn lemma_first_ch(s: Seq<char>, c: char)
    ensures
        first_ch(s, c) <= s.len(),
        first_ch(s, c) < s.len() ==> s[first_ch(s, c) as int] == c,
        forall|j: int| 0 <= j < first_ch(s, c) ==> s[j] != c,
    decreases s.len(),
{
    if s.len() > 0 && s[0] != c {
        let d = s.drop_first();
        lemma_first_ch(d, c);
        assert forall|j: int| 0 <= j < first_ch(s, c) implies s[j] != c by {
            if j > 0 {
                assert(d[j - 1] != c);
            }
        }
    }
}

/// A known first occurrence determines [`first_ch`].
pub proof fn lemma_first_ch_is(s: Seq<char>, c: char, k: int)
    requires
        0 <= k <= s.len(),
        forall|j: int| 0 <= j < k ==> s[j] != c,
        k < s.len() ==> s[k] == c,
    ensures
        first_ch(s, c) == k,
    decreases s.len(),
{
    if s.len() == 0 {
    } else if s[0] == c {
        assert(k == 0) by {
            if k > 0 {
                assert(s[0] != c);
            }
        }
    } else {
        let d = s.drop_first();
        assert(k >= 1);
        assert forall|j: int| 0 <= j < k - 1 implies d[j] != c by {
            assert(d[j] == s[j + 1]);
        }
        assert(k - 1 < d.len() ==> d[k - 1] == c);
        lemma_first_ch_is(d, c, k - 1);
    }
}

/// `s` split at every occurrence of the terminator `c`, keeping the
/// final segment even when it is empty.
pub open spec fn split_term(s: Seq<char>, c: char) -> Seq<Seq<char>>
    decreases s.len(),
{
    let i = first_ch(s, c);
    if i >= s.len() {
        seq![s]
    } else {
        seq![s.subrange(0, i as int)] + split_term(s.subrange(i as int + 1, s.len() as int), c)
    }
}

/// A line with its trailing carriage return removed.
pub open spec fn strip_cr(l: Seq<char>) -> Seq<char> {
    if l.len() > 0 && l.last() == '\r' {
        l.drop_last()
    } else {
        l
    }
}

/// The lines of `s`: split at every line feed, drop the trailing
/// empty segment a final line feed leaves behind, and strip one
/// trailing carriage return from each line.
pub open spec fn lines_of(s: Seq<char>) -> Seq<Seq<char>> {
    let ps = split_term(s, '\n');
    let qs = if ps.len() > 0 && ps.last().len() == 0 {
        ps.drop_last()
    } else {
        ps
    };
    qs.map_values(|l: Seq<char>| strip_cr(l))
}

/// [`split_term`] always yields at least one segment, and no segment
/// contains the terminator.
pub proof fn lemma_split_term_shape(s: Seq<char>, c: char)
    ensures
        split_term(s, c).len() >= 1,
        forall|k: int, j: int|
            0 <= k < split_term(s, c).len() && 0 <= j < split_term(s, c)[k].len()
                ==> split_term(s, c)[k][j] != c,
    decreases s.len(),
{
    lemma_first_ch(s, c);
    let i = first_ch(s, c);
    if i < s.len() {
        let rest = s.subrange(i as int + 1, s.len() as int);
        lemma_split_term_shape(rest, c);
        assert forall|k: int, j: int|
            0 <= k < split_term(s, c).len() && 0 <= j < split_term(s, c)[k].len() implies split_term(
            s,
            c,
        )[k][j] != c by {
            if k == 0 {
                assert(split_term(s, c)[0] == s.subrange(0, i as int));
                assert(s.subrange(0, i as int)[j] == s[j]);
            } else {
                assert(split_term(s, c)[k] == split_term(rest, c)[k - 1]);
            }
        }
    }
}

/// No line of [`lines_of`] contains a line feed.
pub proof fn lemma_lines_no_nl(s: Seq<char>)
    ensures
        forall|k: int, j: int|
            0 <= k < lines_of(s).len() && 0 <= j < lines_of(s)[k].len() ==> lines_of(s)[k][j]
                != '\n',
{
    lemma_split_term_shape(s, '\n');
    let ps = split_term(s, '\n');
    assert forall|k: int, j: int|
        0 <= k < lines_of(s).len() && 0 <= j < lines_of(s)[k].len() implies lines_of(s)[k][j]
        != '\n' by {
        assert(lines_of(s)[k] == strip_cr(ps[k]));
        assert(ps[k][j] != '\n');
    }
}

/// Splitting a terminated segment off the front: for `w` free of the
/// line feed, the lines of `w + "\n" + rest` are `strip_cr(w)`
/// followed by the lines of `rest`.
pub proof fn lemma_lines_step(w: Seq<char>, rest: Seq<char>)
    requires
        forall|j: int| 0 <= j < w.len() ==> w[j] != '\n',
    ensures
        lines_of(w + seq!['\n'] + rest) == seq![strip_cr(w)] + lines_of(rest),
{
    let s = w + seq!['\n'] + rest;
    lemma_first_ch_is(s, '\n', w.len() as int);
    assert(s.subrange(0, w.len() as int) =~= w);
    assert(s.subrange(w.len() as int + 1, s.len() as int) =~= rest);
    assert(split_term(s, '\n') == seq![w] + split_term(rest, '\n'));
    let ps = split_term(s, '\n');
    let pr = split_term(rest, '\n');
    lemma_split_term_shape(rest, '\n');
    assert(ps.last() == pr.last());
    if pr.last().len() == 0 {
        assert(ps.drop_last() =~= seq![w] + pr.drop_last());
        assert(lines_of(s) =~= seq![strip_cr(w)] + lines_of(rest));
    } else {
        assert(lines_of(s) =~= seq![strip_cr(w)] + lines_of(rest));
    }
}

/// The lines of a string without line feeds: none when it is empty,
/// otherwise the string itself with a trailing carriage return
/// stripped.
pub proof fn lemma_lines_last(w: Seq<char>)
    requires
        forall|j: int| 0 <= j < w.len() ==> w[j] != '\n',
    ensures
        w.len() == 0 ==> lines_of(w) == Seq::<Seq<char>>::empty(),
        w.len() > 0 ==> lines_of(w) == seq![strip_cr(w)],
{
    lemma_first_ch_is(w, '\n', w.len() as int);
    assert(split_term(w, '\n') == seq![w]);
    if w.len() == 0 {
        assert(lines_of(w) =~= Seq::<Seq<char>>::empty());
    } else {
        assert(lines_of(w) =~= seq![strip_cr(w)]);
    }
}

/// Splits a string into its lines.
pub fn split_lines(s: &str) -> (r: Vec<String>)
    ensures
        r.deep_view() == lines_of(s@),
{
    let n = s.unicode_len();
    let mut out: Vec<String> = Vec::new();
    let mut start: usize = 0;
    let mut done = false;
    proof {
        assert(out.deep_view() =~= Seq::<Seq<char>>::empty());
        assert(s@.subrange(0, n as int) =~= s@);
        assert(out.deep_view() + lines_of(s@) =~= lines_of(s@));
    }
    while !done
        invariant
            n == s@.len(),
            start <= n,
            lines_of(s@) == out.deep_view() + lines_of(s@.subrange(start as int, n as int)),
            done ==> forall|j: int| start <= j < n ==> s@[j] != '\n',
        decreases n - start + (if done { 0int } else { 1int }),
    {
        match find_char_from(s, '\n', start) {
            None => {
                done = true;
            },
            Some(i) => {
                let end = if i > start && s.get_char(i - 1) == '\r' {
                    i - 1
                } else {
                    i
                };
                let line = s.substring_char(start, end);
                let ghost old_dv = out.deep_view();
                out.push(String::from_str(line));
                proof {
                    let tail = s@.subrange(start as int, n as int);
                    let w = s@.subrange(start as int, i as int);
                    let rest = s@.subrange(i + 1, n as int);
                    assert forall|j: int| 0 <= j < w.len() implies w[j] != '\n' by {
                        assert(w[j] == s@[start + j]);
                    }
                    assert(tail =~= w + seq!['\n'] + rest);
                    lemma_lines_step(w, rest);
                    assert(line@ =~= strip_cr(w));
                    assert(out.deep_view() =~= old_dv.push(strip_cr(w)));
                    assert(out.deep_view() + lines_of(rest) =~= old_dv + (seq![strip_cr(w)]
                        + lines_of(rest)));
                }
                start = i + 1;
            },
        }
    }
    let ghost tail = s@.subrange(start as int, n as int);
    if start < n {
        let end = if s.get_char(n - 1) == '\r' {
            n - 1
        } else {
            n
        };
        let line = s.substring_char(start, end);
        let ghost old_dv = out.deep_view();
        out.push(String::from_str(line));
        proof {
            lemma_lines_last(tail);
            assert(line@ =~= strip_cr(tail));
            assert(out.deep_view() =~= old_dv.push(strip_cr(tail)));
            assert(out.deep_view() =~= old_dv + lines_of(tail));
        }
    } else {
        proof {
            lemma_lines_last(tail);
            assert(out.deep_view() + lines_of(tail) =~= out.deep_view());
        }
    }
    out
}

// ---------------------------------------------------------------------
// Whitespace-separated tokens
// ---------------------------------------------------------------------
/// The index of the first whitespace character of `s`, or `s.len()`
/// when there is none.
pub open spec fn first_ws(s: Seq<char>) -> nat
    decreases s.len(),
{
    if s.len() == 0 {
        0
    } else if is_ws(s[0]) {
        0
    } else {
        1 + first_ws(s.drop_first())
    }
}

/// What [`first_ws`] returns.
pub proof fn lemma_first_ws(s: Seq<char>)
    ensures
        first_ws(s) <= s.len(),
        first_ws(s) < s.len() ==> is_ws(s[first_ws(s) as int]),
        forall|j: int| 0 <= j < first_ws(s) ==> !is_ws(s[j]),
    decreases s.len(),
{
    if s.len() > 0 && !is_ws(s[0]) {
        let d = s.drop_first();
        lemma_first_ws(d);
        assert forall|j: int| 0 <= j < first_ws(s) implies !is_ws(s[j]) by {
            if j > 0 {
                assert(!is_ws(d[j - 1]));
            }
        }
    }
}

/// A known first whitespace position determines [`first_ws`].
pub proof fn lemma_first_ws_is(s: Seq<char>, k: int)
    requires
        0 <= k <= s.len(),
        forall|j: int| 0 <= j < k ==> !is_ws(s[j]),
        k < s.len() ==> is_ws(s[k]),
    ensures
        first_ws(s) == k,
    decreases s.len(),
{
    if s.len() == 0 {
    } else if is_ws(s[0]) {
        assert(k == 0) by {
            if k > 0 {
                assert(!is_ws(s[0]));
            }
        }
    } else {
        let d = s.drop_first();
        assert(k >= 1);
        assert forall|j: int| 0 <= j < k - 1 implies !is_ws(d[j]) by {
            assert(d[j] == s[j + 1]);
        }
        assert(k - 1 < d.len() ==> is_ws(d[k - 1]));
        lemma_first_ws_is(d, k - 1);
    }
}

/// The whitespace-separated tokens of `s`, as
/// `str::split_whitespace` yields them.
pub open spec fn tokens(s: Seq<char>) -> Seq<Seq<char>>
    decreases s.len(),
{
    if s.len() == 0 {
        Seq::empty()
    } else if is_ws(s[0]) {
        tokens(s.drop_first())
    } else {
        let j = first_ws(s);
        if j >= s.len() {
            seq![s]
        } else {
            seq![s.subrange(0, j as int)] + tokens(s.subrange(j as int, s.len() as int))
        }
    }
}

/// Every token is non-empty and free of whitespace.
pub proof fn lemma_tokens_shape(s: Seq<char>)
    ensures
        forall|k: int| 0 <= k < tokens(s).len() ==> tokens(s)[k].len() > 0,
        forall|k: int, j: int|
            0 <= k < tokens(s).len() && 0 <= j < tokens(s)[k].len() ==> !is_ws(tokens(s)[k][j]),
    decreases s.len(),
{
    if s.len() == 0 {
    } else if is_ws(s[0]) {
        lemma_tokens_shape(s.drop_first());
        assert(tokens(s) == tokens(s.drop_first()));
        assert forall|k: int| 0 <= k < tokens(s).len() implies tokens(s)[k].len() > 0 by {
            assert(tokens(s.drop_first())[k].len() > 0);
        }
        assert forall|k: int, j: int|
            0 <= k < tokens(s).len() && 0 <= j < tokens(s)[k].len() implies !is_ws(
            tokens(s)[k][j],
        ) by {
            assert(!is_ws(tokens(s.drop_first())[k][j]));
        }
    } else {
        lemma_first_ws(s);
        let j0 = first_ws(s);
        if j0 >= s.len() {
            assert(tokens(s)[0] == s);
        } else {
            let rest = s.subrange(j0 as int, s.len() as int);
            lemma_tokens_shape(rest);
            assert forall|k: int, j: int|
                0 <= k < tokens(s).len() && 0 <= j < tokens(s)[k].len() implies !is_ws(
                tokens(s)[k][j],
            ) by {
                if k == 0 {
                    assert(tokens(s)[0] == s.subrange(0, j0 as int));
                    assert(s.subrange(0, j0 as int)[j] == s[j]);
                } else {
                    assert(tokens(s)[k] == tokens(rest)[k - 1]);
                }
            }
            assert forall|k: int| 0 <= k < tokens(s).len() implies tokens(s)[k].len() > 0 by {
                if k > 0 {
                    assert(tokens(s)[k] == tokens(rest)[k - 1]);
                }
            }
        }
    }
}

/// Dropping one leading whitespace character leaves the tokens
/// unchanged.
pub proof fn lemma_tokens_skip_ws(c: char, rest: Seq<char>)
    requires
        is_ws(c),
    ensures
        tokens(seq![c] + rest) == tokens(rest),
{
    let s = seq![c] + rest;
    assert(s.drop_first() =~= rest);
}

/// Splitting one leading token off: for a non-empty whitespace-free
/// `t` followed by nothing or by whitespace, the tokens of
/// `t + rest` are `t` followed by the tokens of `rest`.
pub proof fn lemma_tokens_word(t: Seq<char>, rest: Seq<char>)
    requires
        t.len() > 0,
        forall|j: int| 0 <= j < t.len() ==> !is_ws(t[j]),
        rest.len() == 0 || is_ws(rest[0]),
    ensures
        tokens(t + rest) == seq![t] + tokens(rest),
{
    let s = t + rest;
    assert(!is_ws(s[0]));
    assert forall|j: int| 0 <= j < t.len() implies !is_ws(s[j]) by {
        assert(s[j] == t[j]);
    }
    if rest.len() == 0 {
        lemma_first_ws_is(s, s.len() as int);
        assert(s =~= t);
        assert(tokens(rest) =~= Seq::<Seq<char>>::empty());
        assert(seq![t] + tokens(rest) =~= seq![t]);
    } else {
        assert(is_ws(s[t.len() as int]));
        lemma_first_ws_is(s, t.len() as int);
        assert(s.subrange(0, t.len() as int) =~= t);
        assert(s.subrange(t.len() as int, s.len() as int) =~= rest);
    }
}

/// Splits a string into its whitespace-separated tokens.
pub fn tokenize(s: &str) -> (r: Vec<String>)
    ensures
        r.deep_view() == tokens(s@),
{
    let n = s.unicode_len();
    let mut out: Vec<String> = Vec::new();
    let mut i: usize = 0;
    proof {
        assert(out.deep_view() =~= Seq::<Seq<char>>::empty());
        assert(s@.subrange(0, n as int) =~= s@);
        assert(out.deep_view() + tokens(s@) =~= tokens(s@));
    }
    while i < n
        invariant
            n == s@.len(),
            i <= n,
            tokens(s@) == out.deep_view() + tokens(s@.subrange(i as int, n as int)),
        decreases n - i,
    {
        let ghost tail = s@.subrange(i as int, n as int);
        if is_ws_char(s.get_char(i)) {
            proof {
                assert(tail.drop_first() =~= s@.subrange(i + 1, n as int));
            }
            i = i + 1;
        } else {
            let mut j = i + 1;
            while j < n && !is_ws_char(s.get_char(j))
                invariant
                    n == s@.len(),
                    i < j <= n,
                    forall|k: int| i <= k < j ==> !is_ws(s@[k]),
                decreases n - j,
            {
                j = j + 1;
            }
            let tok = s.substring_char(i, j);
            let ghost old_dv = out.deep_view();
            out.push(String::from_str(tok));
            proof {
                let w = s@.subrange(i as int, j as int);
                let rest = s@.subrange(j as int, n as int);
                assert forall|k: int| 0 <= k < w.len() implies !is_ws(w[k]) by {
                    assert(w[k] == s@[i + k]);
                }
                assert(tail =~= w + rest);
                lemma_tokens_word(w, rest);
                assert(out.deep_view() =~= old_dv.push(w));
                assert(out.deep_view() + tokens(rest) =~= old_dv + (seq![w] + tokens(rest)));
            }
            i = j;
        }
    }
    proof {
        assert(s@.subrange(n as int, n as int) =~= Seq::<char>::empty());
        assert(out.deep_view() + tokens(s@.subrange(n as int, n as int)) =~= out.deep_view());
    }
    out
}

/// Compares two strings character by character.
pub fn str_eq(a: &str, b: &str) -> (r: bool)
    ensures
        r == (a@ == b@),
{
    let an = a.unicode_len();
    let bn = b.unicode_len();
    if an != bn {
        proof {
            assert(a@ != b@);
        }
        return false;
    }
    let mut i: usize = 0;
    while i < an
        invariant
            an == a@.len(),
            an == b@.len(),
            i <= an,
            forall|j: int| 0 <= j < i ==> a@[j] == b@[j],
        decreases an - i,
    {
        if a.get_char(i) != b.get_char(i) {
            proof {
                assert(a@[i as int] != b@[i as int]);
            }
            return false;
        }
        i = i + 1;
    }
    proof {
        assert(a@ =~= b@);
    }
    true
}

/// The first occurrence of the character `c` in `s` at or after
/// index `from`, found by a linear scan.
pub fn find_char_from(s: &str, c: char, from: usize) -> (r: Option<usize>)
    requires
        from <= s@.len(),
    ensures
        match r {
            Some(k) => from <= k < s@.len() && s@[k as int] == c && forall|j: int|
                from <= j < k ==> s@[j] != c,
            None => forall|j: int| from <= j < s@.len() ==> s@[j] != c,
        },
{
    let n = s.unicode_len();
    let mut i: usize = from;
    while i < n
        invariant
            n == s@.len(),
            from <= i <= n,
            forall|j: int| from <= j < i ==> s@[j] != c,
        decreases n - i,
    {
        if s.get_char(i) == c {
            return Some(i);
        }
        i = i + 1;
    }
    None
}

/// The first occurrence of the pattern `p` in `s`, as
/// [`find`] describes it.
pub fn find_sub(s: &str, p: &str) -> (r: Option<usize>)
    ensures
        match r {
            Some(k) => find(s@, p@) == Some(k as int),
            None => find(s@, p@) == None::<int>,
        },
{
    let n = s.unicode_len();
    let m = p.unicode_len();
    if m > n {
        proof {
            assert forall|j: int| !is_match_at(s@, p@, j) by {}
            lemma_find_is_none(s@, p@);
        }
        return None;
    }
    let mut i: usize = 0;
    while i <= n - m
        invariant
            n == s@.len(),
            m == p@.len(),
            m <= n,
            i <= n - m + 1,
            forall|j: int| 0 <= j < i ==> !is_match_at(s@, p@, j),
        decreases n - i,
    {
        let mut k: usize = 0;
        let mut matched = true;
        while k < m
            invariant
                n == s@.len(),
                m == p@.len(),
                i + m <= n,
                k <= m,
                matched ==> forall|t: int| 0 <= t < k ==> s@[i + t] == p@[t],
                !matched ==> exists|t: int| 0 <= t < m && s@[i + t] != p@[t],
            decreases m - k,
        {
            if s.get_char(i + k) != p.get_char(k) {
                proof {
                    assert(s@[i + k] != p@[k as int]);
                }
                matched = false;
                k = m;
            } else {
                k = k + 1;
            }
        }
        if matched {
            proof {
                assert(s@.subrange(i as int, i + p@.len()) =~= p@);
                lemma_find_is_first(s@, p@, i as int);
            }
            return Some(i);
        }
        proof {
            let t = choose|t: int| 0 <= t < m && s@[i + t] != p@[t];
            assert(s@.subrange(i as int, i + p@.len())[t] == s@[i + t]);
            assert(!is_match_at(s@, p@, i as int));
        }
        i = i + 1;
    }
    proof {
        assert forall|j: int| !is_match_at(s@, p@, j) by {
            if 0 <= j < i {
                assert(!is_match_at(s@, p@, j));
            }
        }
        lemma_find_is_none(s@, p@);
    }
    None
}

} // verus!
