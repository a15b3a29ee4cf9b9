//! The headers-and-body portion common to requests and responses.
//!
//! A `Content` is parsed from the part of a message that follows the
//! start-line: a block of `Name: Value` lines, a blank line, and a
//! verbatim body.  The grammar is stated by [`parse_content`] and
//! serialization by [`ser_content`]; the executable routines are
//! proved against them.

use vstd::prelude::*;

use crate::assoc::{
    assoc_insert, assoc_lookup, assoc_map, keys_unique, pairs_view,
};
use crate::chars::is_ws;
use crate::errors::ParseContentError;
use crate::text::{
    find, find_char_from, find_sub, first_ch, is_match_at, lemma_find_characterization,
    lemma_find_is_first, lemma_first_ch_is, lemma_lines_last, lemma_lines_no_nl,
    lemma_lines_step, lemma_trim_no_char, lemma_trim_shape, lines_of, ltrim, rtrim, split_lines,
    strip_cr, trim, trim_str,
};

verus! {

// ---------------------------------------------------------------------
// Wire-format fragments
// ---------------------------------------------------------------------
/// The line terminator.
pub open spec fn crlf() -> Seq<char> {
    seq!['\r', '\n']
}

/// The preferred header/body separator.
pub open spec fn crlfcrlf() -> Seq<char> {
    seq!['\r', '\n', '\r', '\n']
}

/// The fallback header/body separator.
pub open spec fn lflf() -> Seq<char> {
    seq!['\n', '\n']
}

/// What serialization puts between a header name and its value.
pub open spec fn colon_sp() -> Seq<char> {
    seq![':', ' ']
}

// ---------------------------------------------------------------------
// The grammar
// ---------------------------------------------------------------------
/// One header line, split at its first colon and trimmed, or
/// nothing when the line has no colon.
pub open spec fn header_pair(line: Seq<char>) -> Option<(Seq<char>, Seq<char>)> {
    let i = first_ch(line, ':');
    if i >= line.len() {
        None
    } else {
        Some(
            (
                trim(line.subrange(0, i as int)),
                trim(line.subrange(i as int + 1, line.len() as int)),
            ),
        )
    }
}

/// The header map a list of lines denotes: empty lines are skipped,
/// a line without a colon spoils the whole parse, and on duplicate
/// names the later line wins.
pub open spec fn headers_from_lines(ls: Seq<Seq<char>>) -> Option<Map<Seq<char>, Seq<char>>>
    decreases ls.len(),
{
    if ls.len() == 0 {
        Some(Map::empty())
    } else {
        match headers_from_lines(ls.drop_last()) {
            None => None,
            Some(m) => {
                if ls.last().len() == 0 {
                    Some(m)
                } else {
                    match header_pair(ls.last()) {
                        None => None,
                        Some(p) => Some(m.insert(p.0, p.1)),
                    }
                }
            },
        }
    }
}

/// Where the body starts: four characters past the first
/// `"\r\n\r\n"` when one occurs, else two past the first `"\n\n"`,
/// else nowhere.
pub open spec fn body_cut(s: Seq<char>) -> Option<int> {
    match find(s, crlfcrlf()) {
        Some(p) => Some(p + 4),
        None => match find(s, lflf()) {
            Some(p) => Some(p + 2),
            None => None,
        },
    }
}

/// The whole content grammar: what parsing a headers-and-body
/// string yields.
pub open spec fn parse_content(s: Seq<char>) -> Result<
    (Map<Seq<char>, Seq<char>>, Seq<char>),
    ParseContentError,
> {
    if s.len() == 0 {
        Err(ParseContentError::Empty)
    } else {
        match body_cut(s) {
            None => Err(ParseContentError::Invalid),
            Some(cut) => match headers_from_lines(lines_of(s.subrange(0, cut))) {
                None => Err(ParseContentError::Invalid),
                Some(m) => Ok((m, s.subrange(cut, s.len() as int))),
            },
        }
    }
}

// ---------------------------------------------------------------------
// Serialization
// ---------------------------------------------------------------------
/// One serialized header line, terminator included.
pub open spec fn ser_header_line(p: (Seq<char>, Seq<char>)) -> Seq<char> {
    p.0 + colon_sp() + p.1 + crlf()
}

/// The serialized header block: each pair as `Name: Value` followed
/// by the line terminator, in storage order.
pub open spec fn ser_headers(hs: Seq<(Seq<char>, Seq<char>)>) -> Seq<char>
    decreases hs.len(),
{
    if hs.len() == 0 {
        Seq::empty()
    } else {
        ser_headers(hs.drop_last()) + ser_header_line(hs.last())
    }
}

/// A serialized content: header block, blank line, body verbatim.
pub open spec fn ser_content(hs: Seq<(Seq<char>, Seq<char>)>, body: Seq<char>) -> Seq<char> {
    ser_headers(hs) + crlf() + body
}

// ---------------------------------------------------------------------
// The shape of parsed headers
// ---------------------------------------------------------------------
/// What holds of every header pair a parse produces: both parts are
/// trimmed and free of line feeds, and the name has no colon.
pub open spec fn header_pair_ok(p: (Seq<char>, Seq<char>)) -> bool {
    &&& trim(p.0) == p.0
    &&& trim(p.1) == p.1
    &&& forall|j: int| 0 <= j < p.0.len() ==> p.0[j] != '\n' && p.0[j] != ':'
    &&& forall|j: int| 0 <= j < p.1.len() ==> p.1[j] != '\n'
}

/// A header list as a parse produces it: unique names, every pair
/// well shaped.
pub open spec fn headers_ok(hs: Seq<(Seq<char>, Seq<char>)>) -> bool {
    &&& keys_unique(hs)
    &&& forall|i: int| 0 <= i < hs.len() ==> header_pair_ok(#[trigger] hs[i])
}

// ---------------------------------------------------------------------
// The type
// ---------------------------------------------------------------------
/// The headers and body of a message.  Headers are kept in first-
/// insertion order with unique names; the body is an arbitrary
/// string.
#[derive(Debug, PartialEq)]
pub struct Content {
    headers: Vec<(String, String)>,
    body: String,
}

/// Shared access to a content, whether held directly or inside a
/// request or response.
pub trait Contentable: Sized {
    /// The header pairs, in storage order.
    spec fn headers_seq(&self) -> Seq<(Seq<char>, Seq<char>)>;

    /// The body.
    spec fn body_view(&self) -> Seq<char>;

    /// The headers' names are unique.
    spec fn content_wf(&self) -> bool;

    /// The map the headers denote.
    open spec fn headers_view(&self) -> Map<Seq<char>, Seq<char>> {
        assoc_map(self.headers_seq())
    }

    /// Borrows the body.
    fn get_body(&self) -> (b: &str)
        ensures
            b@ == self.body_view(),
    ;

    /// Replaces the body and hands the previous one back.
    fn set_body(&mut self, new_body: String) -> (old_body: String)
        ensures
            old_body@ == old(self).body_view(),
            final (self).body_view() == new_body@,
            final (self).headers_seq() == old(self).headers_seq(),
            final (self).content_wf() == old(self).content_wf(),
    ;

    /// Looks a header up by its exact, case-sensitive name.
    fn has_header<'a>(&'a self, name: &str) -> (r: Option<&'a str>)
        requires
            self.content_wf(),
        ensures
            match r {
                Some(val) => self.headers_view().contains_key(name@) && val@
                    == self.headers_view()[name@],
                None => !self.headers_view().contains_key(name@),
            },
    ;

    /// Adds a header, overwriting in place, and hands back the value
    /// the name previously had.
    fn add_header(&mut self, name: String, value: String) -> (prev: Option<String>)
        requires
            old(self).content_wf(),
        ensures
            final (self).content_wf(),
            final (self).body_view() == old(self).body_view(),
            final (self).headers_view() == old(self).headers_view().insert(name@, value@),
            !old(self).headers_view().contains_key(name@) ==> final (self).headers_seq() == old(
                self,
            ).headers_seq().push((name@, value@)),
            match prev {
                Some(p) => old(self).headers_view().contains_key(name@) && p@ == old(
                    self,
                ).headers_view()[name@],
                None => !old(self).headers_view().contains_key(name@),
            },
    ;
}

impl Content {
    /// A content with the given body and no headers.
    pub fn new(body: String) -> (c: Content)
        ensures
            c.content_wf(),
            c.headers_seq() == Seq::<(Seq<char>, Seq<char>)>::empty(),
            c.headers_view() == Map::<Seq<char>, Seq<char>>::empty(),
            c.body_view() == body@,
    {
        let c = Content { headers: Vec::new(), body };
        proof {
            assert(c.headers_seq() =~= Seq::<(Seq<char>, Seq<char>)>::empty());
            assert(c.headers_view() =~= Map::<Seq<char>, Seq<char>>::empty());
        }
        c
    }
}

impl Contentable for Content {
    closed spec fn headers_seq(&self) -> Seq<(Seq<char>, Seq<char>)> {
        pairs_view(self.headers@)
    }

    closed spec fn body_view(&self) -> Seq<char> {
        self.body@
    }

    closed spec fn content_wf(&self) -> bool {
        keys_unique(pairs_view(self.headers@))
    }

    fn get_body(&self) -> (b: &str) {
        self.body.as_str()
    }

    fn set_body(&mut self, new_body: String) -> (old_body: String) {
        let mut nb = new_body;
        core::mem::swap(&mut self.body, &mut nb);
        nb
    }

    fn has_header<'a>(&'a self, name: &str) -> (r: Option<&'a str>) {
        assoc_lookup(&self.headers, name)
    }

    fn add_header(&mut self, name: String, value: String) -> (prev: Option<String>) {
        let ghost hs0 = pairs_view(self.headers@);
        let r = assoc_insert(&mut self.headers, name, value);
        proof {
            if !assoc_map(hs0).contains_key(name@) {
                assert forall|i: int| 0 <= i < self.headers@.len() implies pairs_view(
                    self.headers@,
                )[i] == hs0.push((name@, value@))[i] by {
                    assert(pairs_view(self.headers@)[i] == (self.headers@[i].0@,
                    self.headers@[i].1@));
                    if i < hs0.len() {
                        assert(self.headers@[i] == old(self).headers@[i]);
                        assert(hs0[i] == (old(self).headers@[i].0@, old(self).headers@[i].1@));
                    }
                }
                assert(self.headers_seq() =~= hs0.push((name@, value@)));
            }
        }
        r
    }
}

/// A line without a colon anywhere in the list spoils the whole
/// header parse.
pub proof fn lemma_headers_lines_bad(ls: Seq<Seq<char>>, i: int)
    requires
        0 <= i < ls.len(),
        ls[i].len() > 0,
        header_pair(ls[i]) is None,
    ensures
        headers_from_lines(ls) is None,
    decreases ls.len(),
{
    if i == ls.len() - 1 {
    } else {
        lemma_headers_lines_bad(ls.drop_last(), i);
    }
}

impl Content {
    /// Parses a headers-and-body string, as [`parse_content`]
    /// describes it.
    pub fn try_from(s: String) -> (r: Result<Content, ParseContentError>)
        ensures
            match r {
                Ok(c) => {
                    &&& c.content_wf()
                    &&& headers_ok(c.headers_seq())
                    &&& parse_content(s@) matches Ok(p) && c.headers_view() == p.0
                        && c.body_view() == p.1
                },
                Err(e) => parse_content(s@) == Err::<
                    (Map<Seq<char>, Seq<char>>, Seq<char>),
                    ParseContentError,
                >(e),
            },
    {
        let st = s.as_str();
        let n = st.unicode_len();
        if n == 0 {
            return Err(ParseContentError::Empty);
        }
        proof {
            reveal_strlit("\r\n\r\n");
            reveal_strlit("\n\n");
            assert("\r\n\r\n"@ =~= crlfcrlf());
            assert("\n\n"@ =~= lflf());
        }
        let cut: usize = match find_sub(st, "\r\n\r\n") {
            Some(p) => {
                proof {
                    lemma_find_characterization(s@, crlfcrlf());
                }
                p + 4
            },
            None => match find_sub(st, "\n\n") {
                Some(p) => {
                    proof {
                        lemma_find_characterization(s@, lflf());
                    }
                    p + 2
                },
                None => {
                    return Err(ParseContentError::Invalid);
                },
            },
        };
        let ghost head_v = s@.subrange(0, cut as int);
        let head = st.substring_char(0, cut);
        let body = String::from_str(st.substring_char(cut, n));
        let lines = split_lines(head);
        proof {
            lemma_lines_no_nl(head_v);
        }
        let nl = lines.len();
        let mut headers: Vec<(String, String)> = Vec::new();
        let mut i: usize = 0;
        proof {
            assert(lines.deep_view().subrange(0, 0) =~= Seq::<Seq<char>>::empty());
            assert(pairs_view(headers@) =~= Seq::<(Seq<char>, Seq<char>)>::empty());
            assert(assoc_map(pairs_view(headers@)) =~= Map::<Seq<char>, Seq<char>>::empty());
        }
        while i < nl
            invariant
                nl == lines@.len(),
                i <= nl,
                s@.len() > 0,
                body_cut(s@) == Some(cut as int),
                head_v == s@.subrange(0, cut as int),
                lines.deep_view() == lines_of(head_v),
                keys_unique(pairs_view(headers@)),
                headers_ok(pairs_view(headers@)),
                headers_from_lines(lines.deep_view().subrange(0, i as int)) == Some(
                    assoc_map(pairs_view(headers@)),
                ),
                forall|k: int, j: int|
                    0 <= k < lines_of(head_v).len() && 0 <= j < lines_of(head_v)[k].len()
                        ==> lines_of(head_v)[k][j] != '\n',
            decreases nl - i,
        {
            let ghost lv = lines.deep_view()[i as int];
            let ghost pre = lines.deep_view().subrange(0, i as int);
            let ghost pre2 = lines.deep_view().subrange(0, i as int + 1);
            proof {
                assert(pre2.drop_last() =~= pre);
                assert(pre2.last() == lv);
                assert(lines@[i as int]@ == lv);
            }
            let line = lines[i].as_str();
            let ln = line.unicode_len();
            if ln == 0 {
                proof {
                    assert(lv.len() == 0);
                    assert(headers_from_lines(pre2) == Some(assoc_map(pairs_view(headers@))));
                }
            } else {
                match find_char_from(line, ':', 0) {
                    None => {
                        proof {
                            lemma_first_ch_is(lv, ':', lv.len() as int);
                            assert(header_pair(lv) is None);
                            lemma_headers_lines_bad(lines.deep_view(), i as int);
                        }
                        return Err(ParseContentError::Invalid);
                    },
                    Some(ci) => {
                        let name = String::from_str(trim_str(line.substring_char(0, ci)));
                        let value = String::from_str(trim_str(line.substring_char(ci + 1, ln)));
                        proof {
                            lemma_first_ch_is(lv, ':', ci as int);
                            assert(header_pair(lv) == Some((name@, value@)));
                            let raw_name = lv.subrange(0, ci as int);
                            let raw_value = lv.subrange(ci as int + 1, lv.len() as int);
                            assert forall|j: int|
                                0 <= j < raw_name.len() implies raw_name[j] != '\n' && raw_name[j]
                                != ':' by {
                                assert(raw_name[j] == lv[j]);
                            }
                            assert forall|j: int| 0 <= j < raw_value.len() implies raw_value[j]
                                != '\n' by {
                                assert(raw_value[j] == lv[ci as int + 1 + j]);
                            }
                            lemma_trim_no_char(raw_name, '\n');
                            lemma_trim_no_char(raw_name, ':');
                            lemma_trim_no_char(raw_value, '\n');
                            lemma_trim_shape(raw_name);
                            lemma_trim_shape(raw_value);
                            assert(header_pair_ok((name@, value@)));
                        }
                        let ghost hs_before = pairs_view(headers@);
                        let ghost vec_before = headers@;
                        let ghost nm = name@;
                        let ghost vl = value@;
                        assoc_insert(&mut headers, name, value);
                        proof {
                            assert forall|x: int|
                                0 <= x < pairs_view(headers@).len() implies header_pair_ok(
                                #[trigger] pairs_view(headers@)[x],
                            ) by {
                                assert(pairs_view(headers@)[x] == (headers@[x].0@,
                                headers@[x].1@));
                                if x < hs_before.len() {
                                    assert(hs_before[x] == (vec_before[x].0@, vec_before[x].1@));
                                    assert(header_pair_ok(hs_before[x]));
                                    if headers@[x] == vec_before[x] {
                                        assert(pairs_view(headers@)[x] == hs_before[x]);
                                    } else {
                                        assert(headers@[x].0@ == nm && headers@[x].1@ == vl);
                                        assert(header_pair_ok((nm, vl)));
                                    }
                                } else {
                                    assert(!assoc_map(hs_before).contains_key(nm));
                                    assert(headers@[x].0@ == nm && headers@[x].1@ == vl);
                                    assert(header_pair_ok((nm, vl)));
                                }
                            }
                            assert(headers_from_lines(pre2) == Some(
                                assoc_map(pairs_view(headers@)),
                            ));
                        }
                    },
                }
            }
            i = i + 1;
        }
        proof {
            assert(lines.deep_view().subrange(0, nl as int) =~= lines.deep_view());
        }
        let c = Content { headers, body };
        proof {
            assert(parse_content(s@) matches Ok(p) && c.headers_view() == p.0 && c.body_view()
                == p.1);
        }
        Ok(c)
    }

    /// Serializes this content, as [`ser_content`] describes it.
    pub fn to_string(&self) -> (r: String)
        ensures
            r@ == ser_content(self.headers_seq(), self.body_view()),
    {
        proof {
            reveal_strlit(": ");
            reveal_strlit("\r\n");
            assert(": "@ =~= colon_sp());
            assert("\r\n"@ =~= crlf());
        }
        let mut out = String::new();
        let n = self.headers.len();
        let mut i: usize = 0;
        proof {
            assert(pairs_view(self.headers@).subrange(0, 0) =~= Seq::<
                (Seq<char>, Seq<char>),
            >::empty());
            assert(out@ =~= ser_headers(pairs_view(self.headers@).subrange(0, 0)));
        }
        while i < n
            invariant
                n == self.headers@.len(),
                i <= n,
                out@ == ser_headers(pairs_view(self.headers@).subrange(0, i as int)),
            decreases n - i,
        {
            let ghost pre = pairs_view(self.headers@).subrange(0, i as int);
            let ghost pre2 = pairs_view(self.headers@).subrange(0, i as int + 1);
            out.append(self.headers[i].0.as_str());
            out.append(": ");
            out.append(self.headers[i].1.as_str());
            out.append("\r\n");
            proof {
                reveal_strlit(": ");
                reveal_strlit("\r\n");
                assert(": "@ =~= colon_sp());
                assert("\r\n"@ =~= crlf());
                assert(pre2.drop_last() =~= pre);
                assert(pre2.last() == pairs_view(self.headers@)[i as int]);
                assert(pairs_view(self.headers@)[i as int] == (self.headers@[i as int].0@,
                self.headers@[i as int].1@));
                assert(out@ =~= ser_headers(pre) + ser_header_line(pre2.last()));
                assert(out@ == ser_headers(pre2));
            }
            i = i + 1;
        }
        out.append("\r\n");
        out.append(self.body.as_str());
        proof {
            reveal_strlit("\r\n");
            assert("\r\n"@ =~= crlf());
            assert(pairs_view(self.headers@).subrange(0, n as int) =~= pairs_view(self.headers@));
            assert(out@ =~= ser_content(self.headers_seq(), self.body_view()));
        }
        out
    }
}

// ---------------------------------------------------------------------
// Laws
// ---------------------------------------------------------------------
/// The serialized content of each header pair, without its line
/// terminator: what re-parsing sees as the header lines.
pub open spec fn header_lines(hs: Seq<(Seq<char>, Seq<char>)>) -> Seq<Seq<char>> {
    hs.map_values(|p: (Seq<char>, Seq<char>)| p.0 + colon_sp() + p.1)
}

/// A header-less content parses to exactly its body: for every
/// body, the separator alone in front of it yields the empty header
/// map and the body verbatim.
pub proof fn lemma_headerless_content(b: Seq<char>)
    requires
        b.len() > 0,
    ensures
        parse_content(crlfcrlf() + b) == Ok::<(Map<Seq<char>, Seq<char>>, Seq<char>),
            ParseContentError,
        >((Map::empty(), b)),
{
    let s = crlfcrlf() + b;
    assert(s.subrange(0, 4) =~= crlfcrlf());
    assert(is_match_at(s, crlfcrlf(), 0));
    lemma_find_is_first(s, crlfcrlf(), 0);
    assert(body_cut(s) == Some(4int));
    let head = s.subrange(0, 4);
    assert(head =~= seq!['\r'] + seq!['\n'] + (seq!['\r'] + seq!['\n'] + Seq::<char>::empty()));
    lemma_lines_step(seq!['\r'], seq!['\r'] + seq!['\n'] + Seq::<char>::empty());
    lemma_lines_step(seq!['\r'], Seq::<char>::empty());
    lemma_lines_last(Seq::<char>::empty());
    assert(strip_cr(seq!['\r']) =~= Seq::<char>::empty());
    assert(lines_of(head) =~= seq![Seq::<char>::empty(), Seq::<char>::empty()]);
    let ls = lines_of(head);
    assert(ls.drop_last() =~= seq![Seq::<char>::empty()]);
    assert(ls.drop_last().drop_last() =~= Seq::<Seq<char>>::empty());
    assert(headers_from_lines(ls.drop_last().drop_last()) == Some(
        Map::<Seq<char>, Seq<char>>::empty(),
    ));
    assert(ls.drop_last().last().len() == 0);
    assert(headers_from_lines(ls.drop_last()) == Some(Map::<Seq<char>, Seq<char>>::empty()));
    assert(ls.last().len() == 0);
    assert(headers_from_lines(ls) == Some(Map::<Seq<char>, Seq<char>>::empty()));
    assert(s.subrange(4, s.len() as int) =~= b);
}

/// A header line without a colon, anywhere in the header block,
/// makes the whole parse fail as invalid.
pub proof fn lemma_malformed_header_line(s: Seq<char>, i: int)
    requires
        s.len() > 0,
        body_cut(s) is Some,
        0 <= i < lines_of(s.subrange(0, body_cut(s)->0)).len(),
        lines_of(s.subrange(0, body_cut(s)->0))[i].len() > 0,
        forall|j: int|
            0 <= j < lines_of(s.subrange(0, body_cut(s)->0))[i].len() ==> lines_of(
                s.subrange(0, body_cut(s)->0),
            )[i][j] != ':',
    ensures
        parse_content(s) == Err::<(Map<Seq<char>, Seq<char>>, Seq<char>), ParseContentError>(
            ParseContentError::Invalid,
        ),
{
    let ls = lines_of(s.subrange(0, body_cut(s)->0));
    lemma_first_ch_is(ls[i], ':', ls[i].len() as int);
    assert(header_pair(ls[i]) is None);
    lemma_headers_lines_bad(ls, i);
}

/// [`ser_headers`] unfolded at the front.
proof fn lemma_ser_headers_front(hs: Seq<(Seq<char>, Seq<char>)>)
    requires
        hs.len() > 0,
    ensures
        ser_headers(hs) == ser_header_line(hs[0]) + ser_headers(hs.drop_first()),
    decreases hs.len(),
{
    let d = hs.drop_last();
    if hs.len() == 1 {
        assert(d =~= Seq::<(Seq<char>, Seq<char>)>::empty());
        assert(hs.drop_first() =~= Seq::<(Seq<char>, Seq<char>)>::empty());
        assert(ser_headers(hs) =~= ser_header_line(hs[0]) + ser_headers(hs.drop_first()));
    } else {
        lemma_ser_headers_front(d);
        assert(hs.drop_first().drop_last() =~= d.drop_first());
        assert(hs.drop_first().last() == hs.last());
        assert(ser_headers(hs.drop_first()) == ser_headers(d.drop_first()) + ser_header_line(
            hs.last(),
        ));
        assert(d[0] == hs[0]);
        assert(ser_headers(hs) =~= ser_header_line(hs[0]) + ser_headers(hs.drop_first()));
    }
}

/// A well-shaped header list drops its shape when its first pair is
/// removed.
proof fn lemma_headers_ok_drop_first(hs: Seq<(Seq<char>, Seq<char>)>)
    requires
        headers_ok(hs),
        hs.len() > 0,
    ensures
        headers_ok(hs.drop_first()),
{
    let d = hs.drop_first();
    assert forall|i: int, j: int| 0 <= i < j < d.len() implies d[i].0 != d[j].0 by {
        assert(hs[i + 1].0 != hs[j + 1].0);
    }
    assert forall|i: int| 0 <= i < d.len() implies header_pair_ok(#[trigger] d[i]) by {
        assert(header_pair_ok(hs[i + 1]));
    }
}

/// In a serialized header block every line feed comes at least three
/// characters in, the block ends with the line terminator, and two
/// line feeds are never closer than four characters.
proof fn lemma_ser_headers_newlines(hs: Seq<(Seq<char>, Seq<char>)>)
    requires
        headers_ok(hs),
        hs.len() > 0,
    ensures
        ser_headers(hs).len() >= 4,
        ser_headers(hs)[ser_headers(hs).len() - 1] == '\n',
        ser_headers(hs)[ser_headers(hs).len() - 2] == '\r',
        forall|q: int| 0 <= q < ser_headers(hs).len() && ser_headers(hs)[q] == '\n' ==> q >= 3,
        forall|q1: int, q2: int|
            0 <= q1 < q2 < ser_headers(hs).len() && ser_headers(hs)[q1] == '\n' && ser_headers(
                hs,
            )[q2] == '\n' ==> q2 - q1 >= 4,
    decreases hs.len(),
{
    lemma_ser_headers_front(hs);
    let p = hs[0];
    assert(header_pair_ok(p));
    let w = p.0 + colon_sp() + p.1;
    let line = ser_header_line(p);
    assert(line =~= w + crlf());
    assert(w.len() >= 2);
    assert forall|j: int| 0 <= j < w.len() implies w[j] != '\n' by {
        if j < p.0.len() {
            assert(w[j] == p.0[j]);
        } else if j < p.0.len() + 2 {
            assert(w[j] == colon_sp()[j - p.0.len()]);
        } else {
            assert(w[j] == p.1[j - p.0.len() - 2]);
        }
    }
    assert forall|j: int| 0 <= j < line.len() && line[j] == '\n' implies j == line.len() - 1 by {
        if j < w.len() {
            assert(line[j] == w[j]);
        } else {
            assert(line[j] == crlf()[j - w.len()]);
        }
    }
    assert(line[line.len() - 1] == '\n');
    assert(line[line.len() - 2] == '\r');
    let sh = ser_headers(hs);
    let rest = hs.drop_first();
    if rest.len() == 0 {
        assert(sh =~= line);
    } else {
        lemma_headers_ok_drop_first(hs);
        lemma_ser_headers_newlines(rest);
        let sr = ser_headers(rest);
        assert(sh == line + sr);
        assert(sh.len() == line.len() + sr.len());
        assert(sh[sh.len() - 1] == sr[sr.len() - 1]);
        assert(sh[sh.len() - 2] == sr[sr.len() - 2]);
        assert forall|q: int| 0 <= q < sh.len() && sh[q] == '\n' implies q >= 3 by {
            if q < line.len() {
                assert(sh[q] == line[q]);
            }
        }
        assert forall|q1: int, q2: int|
            0 <= q1 < q2 < sh.len() && sh[q1] == '\n' && sh[q2] == '\n' implies q2 - q1 >= 4 by {
            if q2 < line.len() {
                assert(sh[q1] == line[q1] && sh[q2] == line[q2]);
            } else if q1 >= line.len() {
                assert(sh[q1] == sr[q1 - line.len()] && sh[q2] == sr[q2 - line.len()]);
            } else {
                assert(sh[q1] == line[q1]);
                assert(q1 == line.len() - 1);
                assert(sh[q2] == sr[q2 - line.len()]);
                assert(q2 - line.len() >= 3);
            }
        }
    }
}

/// Re-parsing finds the header/body separator of a serialized
/// content exactly at the end of the header block.
proof fn lemma_ser_content_cut(hs: Seq<(Seq<char>, Seq<char>)>, body: Seq<char>)
    requires
        headers_ok(hs),
        hs.len() > 0,
    ensures
        body_cut(ser_content(hs, body)) == Some(ser_headers(hs).len() + 2int),
{
    lemma_ser_headers_newlines(hs);
    let sh = ser_headers(hs);
    let s = ser_content(hs, body);
    let k = sh.len() - 2;
    assert(s[k] == sh[k] && s[k + 1] == sh[k + 1]);
    assert(s[k + 2] == crlf()[0] && s[k + 3] == crlf()[1]);
    assert(s.subrange(k, k + 4) =~= crlfcrlf());
    assert(is_match_at(s, crlfcrlf(), k));
    assert forall|j: int| 0 <= j < k implies !is_match_at(s, crlfcrlf(), j) by {
        if is_match_at(s, crlfcrlf(), j) {
            assert(s.subrange(j, j + 4)[1] == s[j + 1]);
            assert(s.subrange(j, j + 4)[3] == s[j + 3]);
            assert(s[j + 1] == '\n' && s[j + 3] == '\n');
            assert(s[j + 1] == sh[j + 1]);
            if j + 3 < sh.len() {
                assert(s[j + 3] == sh[j + 3]);
            } else {
                assert(j + 3 == sh.len());
                assert(s[j + 3] == crlf()[0]);
            }
        }
    }
    lemma_find_is_first(s, crlfcrlf(), k);
}

/// The lines of a serialized header block followed by the blank
/// line: one line for each pair, then one empty line.
proof fn lemma_lines_of_ser(hs: Seq<(Seq<char>, Seq<char>)>)
    requires
        headers_ok(hs),
    ensures
        lines_of(ser_headers(hs) + crlf()) == header_lines(hs) + seq![Seq::<char>::empty()],
    decreases hs.len(),
{
    if hs.len() == 0 {
        assert(ser_headers(hs) + crlf() =~= seq!['\r'] + seq!['\n'] + Seq::<char>::empty());
        lemma_lines_step(seq!['\r'], Seq::<char>::empty());
        lemma_lines_last(Seq::<char>::empty());
        assert(strip_cr(seq!['\r']) =~= Seq::<char>::empty());
        assert(lines_of(ser_headers(hs) + crlf()) =~= header_lines(hs) + seq![
            Seq::<char>::empty(),
        ]);
    } else {
        lemma_ser_headers_front(hs);
        lemma_headers_ok_drop_first(hs);
        let p = hs[0];
        assert(header_pair_ok(p));
        let w = p.0 + colon_sp() + p.1;
        let rest = hs.drop_first();
        let tail = ser_headers(rest) + crlf();
        assert(ser_headers(hs) + crlf() =~= (w + seq!['\r']) + seq!['\n'] + tail);
        assert forall|j: int| 0 <= j < (w + seq!['\r']).len() implies (w + seq!['\r'])[j]
            != '\n' by {
            if j < p.0.len() {
                assert((w + seq!['\r'])[j] == p.0[j]);
            } else if j < p.0.len() + 2 {
                assert((w + seq!['\r'])[j] == colon_sp()[j - p.0.len()]);
            } else if j < w.len() {
                assert((w + seq!['\r'])[j] == p.1[j - p.0.len() - 2]);
            }
        }
        lemma_lines_step(w + seq!['\r'], tail);
        lemma_lines_of_ser(rest);
        assert(strip_cr(w + seq!['\r']) =~= w);
        assert(lines_of(ser_headers(hs) + crlf()) =~= seq![w] + (header_lines(rest) + seq![
            Seq::<char>::empty(),
        ]));
        assert(header_lines(hs) =~= seq![w] + header_lines(rest));
        assert(lines_of(ser_headers(hs) + crlf()) =~= header_lines(hs) + seq![
            Seq::<char>::empty(),
        ]);
    }
}

/// One serialized header line parses back to exactly its pair.
proof fn lemma_header_pair_of_line(p: (Seq<char>, Seq<char>))
    requires
        header_pair_ok(p),
    ensures
        header_pair(p.0 + colon_sp() + p.1) == Some(p),
{
    let w = p.0 + colon_sp() + p.1;
    assert forall|j: int| 0 <= j < p.0.len() implies w[j] != ':' by {
        assert(w[j] == p.0[j]);
    }
    assert(w[p.0.len() as int] == ':');
    lemma_first_ch_is(w, ':', p.0.len() as int);
    assert(w.subrange(0, p.0.len() as int) =~= p.0);
    let after = w.subrange(p.0.len() as int + 1, w.len() as int);
    assert(after =~= seq![' '] + p.1);
    lemma_trim_shape(p.1);
    assert(ltrim(p.1) == p.1) by {
        if p.1.len() > 0 {
            assert(!is_ws(trim(p.1)[0]));
        }
    }
    assert(ltrim(after) == ltrim(p.1)) by {
        assert(after.len() > 0 && is_ws(after[0]));
        assert(after.drop_first() =~= p.1);
    }
    assert(trim(after) == rtrim(p.1));
    assert(rtrim(p.1) == p.1) by {
        assert(trim(p.1) == rtrim(ltrim(p.1)));
    }
    assert(trim(p.0) == p.0);
}

/// The header lines of a serialized block parse back to exactly the
/// map the block was made from.
proof fn lemma_hfl_of_ser(hs: Seq<(Seq<char>, Seq<char>)>)
    requires
        headers_ok(hs),
    ensures
        headers_from_lines(header_lines(hs)) == Some(assoc_map(hs)),
    decreases hs.len(),
{
    if hs.len() == 0 {
        assert(header_lines(hs) =~= Seq::<Seq<char>>::empty());
        assert(assoc_map(hs) =~= Map::<Seq<char>, Seq<char>>::empty());
    } else {
        let d = hs.drop_last();
        assert(headers_ok(d)) by {
            assert forall|i: int, j: int| 0 <= i < j < d.len() implies d[i].0 != d[j].0 by {
                assert(hs[i].0 != hs[j].0);
            }
            assert forall|i: int| 0 <= i < d.len() implies header_pair_ok(#[trigger] d[i]) by {
                assert(header_pair_ok(hs[i]));
            }
        }
        lemma_hfl_of_ser(d);
        let ls = header_lines(hs);
        assert(ls.drop_last() =~= header_lines(d));
        let p = hs.last();
        assert(header_pair_ok(p)) by {
            assert(header_pair_ok(hs[hs.len() - 1]));
        }
        assert(ls.last() == p.0 + colon_sp() + p.1);
        assert(ls.last().len() > 0);
        lemma_header_pair_of_line(p);
    }
}

/// Serialization then parsing is the identity on contents with at
/// least one header: re-parsing a serialized content yields exactly
/// the header map and the body it was made from.  (With no headers
/// the serialized form starts with a lone blank line, which the
/// parser does not take for a separator, so such a string parses
/// differently.)
pub proof fn lemma_content_round_trip(hs: Seq<(Seq<char>, Seq<char>)>, body: Seq<char>)
    requires
        headers_ok(hs),
        hs.len() > 0,
    ensures
        parse_content(ser_content(hs, body)) == Ok::<(Map<Seq<char>, Seq<char>>, Seq<char>),
            ParseContentError,
        >((assoc_map(hs), body)),
{
    let s = ser_content(hs, body);
    let sh = ser_headers(hs);
    lemma_ser_headers_newlines(hs);
    lemma_ser_content_cut(hs, body);
    let cut = sh.len() + 2;
    assert(s.subrange(0, cut as int) =~= sh + crlf());
    lemma_lines_of_ser(hs);
    lemma_hfl_of_ser(hs);
    let ls = header_lines(hs) + seq![Seq::<char>::empty()];
    assert(ls.drop_last() =~= header_lines(hs));
    assert(ls.last().len() == 0);
    assert(headers_from_lines(ls) == Some(assoc_map(hs)));
    assert(s.subrange(cut as int, s.len() as int) =~= body);
}

impl Default for Content {
    /// The same as `Content::new` of the empty string.
    fn default() -> (c: Content)
        ensures
            c.content_wf(),
            c.headers_seq() == Seq::<(Seq<char>, Seq<char>)>::empty(),
            c.body_view() == Seq::<char>::empty(),
    {
        let c = Content { headers: Vec::new(), body: String::new() };
        proof {
            assert(c.headers_seq() =~= Seq::<(Seq<char>, Seq<char>)>::empty());
        }
        c
    }
}

} // verus!
