//! A lenient message reader and a builder.
//!
//! `Message::from_str` reads header lines up to the first blank line
//! and takes for the body the characters that the remaining lines
//! account for, counting each with a two-character terminator.  It
//! is more forgiving than the request and response parsers: it
//! needs no start-line and no separator when the header lines simply
//! run out.

use vstd::prelude::*;

use crate::assoc::{assoc_insert, assoc_map, keys_unique, pairs_view};
use crate::content::{header_pair, headers_from_lines};
use crate::text::{find_char_from, lemma_first_ch_is, lines_of, split_lines, trim_str};

verus! {

/// The position of the first empty line, or the number of lines
/// when none is empty.
pub open spec fn first_empty(ls: Seq<Seq<char>>) -> nat
    decreases ls.len(),
{
    if ls.len() == 0 {
        0
    } else if ls[0].len() == 0 {
        0
    } else {
        1 + first_empty(ls.drop_first())
    }
}

/// What [`first_empty`] returns.
proof fn lemma_first_empty(ls: Seq<Seq<char>>)
    ensures
        first_empty(ls) <= ls.len(),
        first_empty(ls) < ls.len() ==> ls[first_empty(ls) as int].len() == 0,
        forall|j: int| 0 <= j < first_empty(ls) ==> ls[j].len() > 0,
    decreases ls.len(),
{
    if ls.len() > 0 && ls[0].len() > 0 {
        let d = ls.drop_first();
        lemma_first_empty(d);
        assert forall|j: int| 0 <= j < first_empty(ls) implies ls[j].len() > 0 by {
            if j > 0 {
                assert(d[j - 1].len() > 0);
            }
        }
    }
}

/// A known first empty line determines [`first_empty`].
proof fn lemma_first_empty_is(ls: Seq<Seq<char>>, k: int)
    requires
        0 <= k <= ls.len(),
        forall|j: int| 0 <= j < k ==> ls[j].len() > 0,
        k < ls.len() ==> ls[k].len() == 0,
    ensures
        first_empty(ls) == k,
    decreases ls.len(),
{
    if ls.len() == 0 {
    } else if ls[0].len() == 0 {
        assert(k == 0) by {
            if k > 0 {
                assert(ls[0].len() > 0);
            }
        }
    } else {
        let d = ls.drop_first();
        assert(k >= 1);
        assert forall|j: int| 0 <= j < k - 1 implies d[j].len() > 0 by {
            assert(d[j] == ls[j + 1]);
        }
        assert(k - 1 < d.len() ==> d[k - 1].len() == 0);
        lemma_first_empty_is(d, k - 1);
    }
}

/// The characters a list of lines accounts for, each line counted
/// with a two-character terminator.
pub open spec fn sum_len2(ls: Seq<Seq<char>>) -> nat
    decreases ls.len(),
{
    if ls.len() == 0 {
        0
    } else {
        sum_len2(ls.drop_last()) + ls.last().len() + 2
    }
}

/// What reading a message yields: the headers before the first
/// blank line, and as the body the last characters of the input
/// that the lines after the blank one account for.
pub open spec fn parse_message(s: Seq<char>) -> Option<(Map<Seq<char>, Seq<char>>, Seq<char>)> {
    let ls = lines_of(s);
    let k = first_empty(ls);
    match headers_from_lines(ls.subrange(0, k as int)) {
        None => None,
        Some(m) => {
            let rest = if k < ls.len() {
            ls.subrange(k as int + 1, ls.len() as int)
            } else {
            Seq::<Seq<char>>::empty()
            };
            let rb = sum_len2(rest);
            let body = if rb < s.len() {
            s.subrange(s.len() - rb, s.len() as int)
            } else {
            Seq::<char>::empty()
            };
            Some((m, body))
        },
    }
}

/// The headers and body a lenient read yields.
#[derive(Debug, PartialEq)]
pub struct Message {
    headers: Vec<(String, String)>,
    body: String,
}

impl Message {
    /// The header pairs, in storage order.
    pub closed spec fn headers_seq(&self) -> Seq<(Seq<char>, Seq<char>)> {
        pairs_view(self.headers@)
    }

    /// The map the headers denote.
    pub open spec fn headers_view(&self) -> Map<Seq<char>, Seq<char>> {
        assoc_map(self.headers_seq())
    }

    /// The body.
    pub closed spec fn body_view(&self) -> Seq<char> {
        self.body@
    }

    /// The headers' names are unique.
    pub closed spec fn wf(&self) -> bool {
        keys_unique(pairs_view(self.headers@))
    }

    /// Reads a message leniently, as [`parse_message`] describes it.
    pub fn from_str(message_str: &str) -> (r: Option<Message>)
        ensures
            match r {
                Some(msg) => msg.wf() && parse_message(message_str@) == Some(
                    (msg.headers_view(), msg.body_view()),
                ),
                None => parse_message(message_str@) == None::<
                    (Map<Seq<char>, Seq<char>>, Seq<char>),
                >,
            },
    {
        let n = message_str.unicode_len();
        let lines = split_lines(message_str);
        let nl = lines.len();
        let mut headers: Vec<(String, String)> = Vec::new();
        let mut i: usize = 0;
        let mut blank = false;
        proof {
            assert(lines.deep_view().subrange(0, 0) =~= Seq::<Seq<char>>::empty());
            assert(pairs_view(headers@) =~= Seq::<(Seq<char>, Seq<char>)>::empty());
            assert(assoc_map(pairs_view(headers@)) =~= Map::<Seq<char>, Seq<char>>::empty());
        }
        while i < nl && !blank
            invariant
                nl == lines@.len(),
                i <= nl,
                n == message_str@.len(),
                lines.deep_view() == lines_of(message_str@),
                keys_unique(pairs_view(headers@)),
                forall|j: int| 0 <= j < i ==> lines.deep_view()[j].len() > 0,
                blank ==> i < nl && lines.deep_view()[i as int].len() == 0,
                headers_from_lines(lines.deep_view().subrange(0, i as int)) == Some(
                    assoc_map(pairs_view(headers@)),
                ),
            decreases nl - i + (if blank {
                0int
            } else {
                1int
            }),
        {
            let ghost lv = lines.deep_view()[i as int];
            let ghost pre = lines.deep_view().subrange(0, i as int);
            let ghost pre2 = lines.deep_view().subrange(0, i as int + 1);
            proof {
                assert(pre2.drop_last() =~= pre);
                assert(pre2.last() == lv);
                assert(lines@[i as int]@ == lv);
            }
            let line = lines[i].as_str();
            let ln = line.unicode_len();
            if ln == 0 {
                blank = true;
            } else {
                match find_char_from(line, ':', 0) {
                    None => {
                        proof {
                            lemma_first_ch_is(lv, ':', lv.len() as int);
                            assert(header_pair(lv) is None);
                            let ls = lines.deep_view();
                            lemma_first_empty(ls);
                            let k = first_empty(ls) as int;
                            assert(i < k) by {
                                if k <= i {
                                    assert(ls[k].len() > 0);
                                }
                            }
                            let hls = ls.subrange(0, k);
                            assert(hls[i as int] == lv);
                            crate::content::lemma_headers_lines_bad(hls, i as int);
                        }
                        return None;
                    },
                    Some(ci) => {
                        let name = String::from_str(trim_str(line.substring_char(0, ci)));
                        let value = String::from_str(trim_str(line.substring_char(ci + 1, ln)));
                        proof {
                            lemma_first_ch_is(lv, ':', ci as int);
                            assert(header_pair(lv) == Some((name@, value@)));
                        }
                        assoc_insert(&mut headers, name, value);
                        proof {
                            assert(headers_from_lines(pre2) == Some(
                                assoc_map(pairs_view(headers@)),
                            ));
                        }
                        i = i + 1;
                    },
                }
            }
        }
        proof {
            if blank {
                lemma_first_empty_is(lines.deep_view(), i as int);
            } else {
                lemma_first_empty_is(lines.deep_view(), nl as int);
            }
        }
        let mut rb: usize = 0;
        let mut j: usize = if blank {
            i + 1
        } else {
            nl
        };
        let ghost start = j as int;
        proof {
            assert(lines.deep_view().subrange(start, start) =~= Seq::<Seq<char>>::empty());
        }
        while j < nl
            invariant
                nl == lines@.len(),
                n == message_str@.len(),
                0 <= start <= j <= nl,
                lines.deep_view() == lines_of(message_str@),
                rb == if sum_len2(lines.deep_view().subrange(start, j as int)) < n {
                    sum_len2(lines.deep_view().subrange(start, j as int)) as int
                } else {
                    n as int
                },
                rb <= n,
            decreases nl - j,
        {
            let ghost seg = lines.deep_view().subrange(start, j as int);
            let ghost seg2 = lines.deep_view().subrange(start, j as int + 1);
            proof {
                assert(0 <= start && start <= j as int && j as int + 1
                    <= lines.deep_view().len());
                assert(seg2.len() == j as int + 1 - start);
                assert(seg2.drop_last() =~= seg);
                assert(seg2.last() == lines.deep_view()[j as int]);
                assert(lines@[j as int]@ == lines.deep_view()[j as int]);
            }
            let d = lines[j].unicode_len();
            if d >= n - rb {
                rb = n;
            } else {
                rb = rb + d;
                if 2 >= n - rb {
                    rb = n;
                } else {
                    rb = rb + 2;
                }
            }
            proof {
                if rb < n {
                    assert(rb == sum_len2(seg2));
                } else {
                    assert(sum_len2(seg2) >= n);
                }
            }
            j = j + 1;
        }
        let body = if rb < n {
            String::from_str(message_str.substring_char(n - rb, n))
        } else {
            String::new()
        };
        let msg = Message { headers, body };
        proof {
            let ls = lines.deep_view();
            let k = first_empty(ls);
            let rest = if k < ls.len() {
                ls.subrange(k as int + 1, ls.len() as int)
            } else {
                Seq::<Seq<char>>::empty()
            };
            if blank {
                assert(rest =~= ls.subrange(start, nl as int));
            } else {
                assert(start == nl);
                assert(rest =~= ls.subrange(start, nl as int));
            }
            let rbs = sum_len2(rest);
            if rb < n {
                assert(rb == rbs);
            } else {
                assert(rbs >= n || n == 0);
            }
            assert(headers_from_lines(ls.subrange(0, k as int)) == Some(msg.headers_view()));
        }
        Some(msg)
    }
}

/// Builds a [`Message`] a piece at a time.
pub struct MessageBuilder {
    headers: Vec<(String, String)>,
    body: String,
}

impl MessageBuilder {
    /// The header pairs gathered so far.
    pub closed spec fn headers_seq(&self) -> Seq<(Seq<char>, Seq<char>)> {
        pairs_view(self.headers@)
    }

    /// The map the gathered headers denote.
    pub open spec fn headers_view(&self) -> Map<Seq<char>, Seq<char>> {
        assoc_map(self.headers_seq())
    }

    /// The body gathered so far.
    pub closed spec fn body_view(&self) -> Seq<char> {
        self.body@
    }

    /// The gathered headers' names are unique.
    pub closed spec fn wf(&self) -> bool {
        keys_unique(pairs_view(self.headers@))
    }

    /// A builder with no headers and an empty body.
    pub fn new() -> (b: MessageBuilder)
        ensures
            b.wf(),
            b.headers_view() == Map::<Seq<char>, Seq<char>>::empty(),
            b.body_view() == Seq::<char>::empty(),
    {
        let b = MessageBuilder { headers: Vec::new(), body: String::new() };
        proof {
            assert(b.headers_seq() =~= Seq::<(Seq<char>, Seq<char>)>::empty());
            assert(b.headers_view() =~= Map::<Seq<char>, Seq<char>>::empty());
        }
        b
    }

    /// Replaces the body.
    pub fn body(self, body: String) -> (b: MessageBuilder)
        ensures
            b.wf() == self.wf(),
            b.headers_view() == self.headers_view(),
            b.body_view() == body@,
    {
        MessageBuilder { headers: self.headers, body }
    }

    /// Adds a header; on a repeated name the later value wins.
    pub fn add_header(self, name: String, value: String) -> (b: MessageBuilder)
        requires
            self.wf(),
        ensures
            b.wf(),
            b.headers_view() == self.headers_view().insert(name@, value@),
            b.body_view() == self.body_view(),
    {
        let mut headers = self.headers;
        assoc_insert(&mut headers, name, value);
        MessageBuilder { headers, body: self.body }
    }

    /// The message gathered so far.
    pub fn build(self) -> (m: Message)
        ensures
            m.wf() == self.wf(),
            m.headers_view() == self.headers_view(),
            m.body_view() == self.body_view(),
    {
        Message { headers: self.headers, body: self.body }
    }
}

} // verus!
