//! Requests and the request-method enumeration.
//!
//! A request message is a start-line `METHOD URI HTTP/1.1`, then the
//! headers-and-body content.  [`parse_request`] states the grammar,
//! [`ser_request`] the serialized form.

use vstd::prelude::*;

use crate::assoc::assoc_map;
use crate::chars::is_ws;
use crate::content::{
    crlf, headers_ok, parse_content, ser_content, Content, Contentable,
};
use crate::errors::{request_err_of_content, ParseRequestError, ParseRequestMethodError};
use crate::text::{
    find, find_char_from, find_sub, first_ch, is_match_at, lemma_find_characterization,
    lemma_find_is_first, lemma_first_ch_is, lemma_tokens_shape, lemma_tokens_skip_ws,
    lemma_tokens_word, str_eq, tokenize, tokens,
};
use crate::{lemma_version_literal, version_seq, HTTP_VERSION};

verus! {

/// The kind of a request.
#[derive(Copy, Clone, Debug, PartialEq, Eq, Structural)]
pub enum RequestMethod {
    GET,
    HEAD,
    PUT,
    POST,
}

/// The token a method is written as on the wire.
pub open spec fn method_token(m: RequestMethod) -> Seq<char> {
    match m {
        RequestMethod::GET => seq!['G', 'E', 'T'],
        RequestMethod::HEAD => seq!['H', 'E', 'A', 'D'],
        RequestMethod::PUT => seq!['P', 'U', 'T'],
        RequestMethod::POST => seq!['P', 'O', 'S', 'T'],
    }
}

/// The method a token names, if any; the match is exact and
/// case-sensitive.
pub open spec fn method_of(s: Seq<char>) -> Option<RequestMethod> {
    if s == method_token(RequestMethod::GET) {
        Some(RequestMethod::GET)
    } else if s == method_token(RequestMethod::HEAD) {
        Some(RequestMethod::HEAD)
    } else if s == method_token(RequestMethod::PUT) {
        Some(RequestMethod::PUT)
    } else if s == method_token(RequestMethod::POST) {
        Some(RequestMethod::POST)
    } else {
        None
    }
}

/// The method literals spelled out.
proof fn lemma_method_literals()
    ensures
        "GET"@ == method_token(RequestMethod::GET),
        "HEAD"@ == method_token(RequestMethod::HEAD),
        "PUT"@ == method_token(RequestMethod::PUT),
        "POST"@ == method_token(RequestMethod::POST),
{
    reveal_strlit("GET");
    reveal_strlit("HEAD");
    reveal_strlit("PUT");
    reveal_strlit("POST");
    assert("GET"@ =~= method_token(RequestMethod::GET));
    assert("HEAD"@ =~= method_token(RequestMethod::HEAD));
    assert("PUT"@ =~= method_token(RequestMethod::PUT));
    assert("POST"@ =~= method_token(RequestMethod::POST));
}

impl RequestMethod {
    /// Reads a method token, as [`method_of`] describes it.
    pub fn from_str(s: &str) -> (r: Result<RequestMethod, ParseRequestMethodError>)
        ensures
            match method_of(s@) {
                Some(m) => r == Ok::<RequestMethod, ParseRequestMethodError>(m),
                None => r == Err::<RequestMethod, ParseRequestMethodError>(
                    ParseRequestMethodError::Invalid,
                ),
            },
    {
        proof {
            lemma_method_literals();
        }
        if str_eq(s, "GET") {
            Ok(RequestMethod::GET)
        } else if str_eq(s, "HEAD") {
            Ok(RequestMethod::HEAD)
        } else if str_eq(s, "PUT") {
            Ok(RequestMethod::PUT)
        } else if str_eq(s, "POST") {
            Ok(RequestMethod::POST)
        } else {
            Err(ParseRequestMethodError::Invalid)
        }
    }

    /// Prints the method's token.
    pub fn to_string(&self) -> (r: String)
        ensures
            r@ == method_token(*self),
    {
        proof {
            lemma_method_literals();
        }
        let t = match self {
            RequestMethod::GET => "GET",
            RequestMethod::HEAD => "HEAD",
            RequestMethod::PUT => "PUT",
            RequestMethod::POST => "POST",
        };
        String::from_str(t)
    }
}

// ---------------------------------------------------------------------
// The grammar
// ---------------------------------------------------------------------
/// Where the content starts: two characters past the first `"\r\n"`
/// when one occurs, else one past the first `"\n"`, else nowhere.
pub open spec fn line_cut(s: Seq<char>) -> Option<int> {
    match find(s, crlf()) {
        Some(p) => Some(p + 2),
        None => {
            let i = first_ch(s, '\n');
            if i < s.len() {
                Some(i as int + 1)
            } else {
                None
            }
        },
    }
}

/// The whole request grammar: method, URI, header map and body, or
/// the reason the message is rejected.
pub open spec fn parse_request(s: Seq<char>) -> Result<
    (RequestMethod, Seq<char>, Map<Seq<char>, Seq<char>>, Seq<char>),
    ParseRequestError,
> {
    if s.len() == 0 {
        Err(ParseRequestError::Empty)
    } else {
        match line_cut(s) {
            None => Err(ParseRequestError::Invalid),
            Some(cut) => {
                let tk = tokens(s.subrange(0, cut));
                if tk.len() < 3 {
                    Err(ParseRequestError::Invalid)
                } else if tk[2] != version_seq() {
                    Err(ParseRequestError::Invalid)
                } else {
                    match method_of(tk[0]) {
                        None => Err(ParseRequestError::Invalid),
                        Some(m) => match parse_content(s.subrange(cut, s.len() as int)) {
                            Err(e) => Err(request_err_of_content(e)),
                            Ok(p) => Ok((m, tk[1], p.0, p.1)),
                        },
                    }
                }
            },
        }
    }
}

/// The serialized form of a request.
pub open spec fn ser_request(
    m: RequestMethod,
    uri: Seq<char>,
    hs: Seq<(Seq<char>, Seq<char>)>,
    body: Seq<char>,
) -> Seq<char> {
    method_token(m) + seq![' '] + uri + seq![' '] + version_seq() + crlf() + ser_content(hs, body)
}

// ---------------------------------------------------------------------
// The type
// ---------------------------------------------------------------------
/// An HTTP request: a method, a URI taken verbatim from the
/// start-line, and the message content.
#[derive(Debug, PartialEq)]
pub struct Request {
    method: RequestMethod,
    uri: String,
    content: Content,
}

impl Request {
    /// The method.
    pub closed spec fn method_view(&self) -> RequestMethod {
        self.method
    }

    /// The URI.
    pub closed spec fn uri_view(&self) -> Seq<char> {
        self.uri@
    }

    /// A request with the given method and URI and an empty content.
    pub fn new(method: RequestMethod, uri: String) -> (req: Request)
        ensures
            req.content_wf(),
            req.method_view() == method,
            req.uri_view() == uri@,
            req.headers_seq() == Seq::<(Seq<char>, Seq<char>)>::empty(),
            req.headers_view() == Map::<Seq<char>, Seq<char>>::empty(),
            req.body_view() == Seq::<char>::empty(),
    {
        let req = Request { method, uri, content: Content::new(String::new()) };
        proof {
            assert(req.headers_view() =~= Map::<Seq<char>, Seq<char>>::empty());
        }
        req
    }

    /// The method, copied out.
    pub fn method(&self) -> (m: RequestMethod)
        ensures
            m == self.method_view(),
    {
        self.method
    }

    /// The URI, borrowed.
    pub fn uri(&self) -> (u: &str)
        ensures
            u@ == self.uri_view(),
    {
        self.uri.as_str()
    }

    /// Parses a whole request message, as [`parse_request`]
    /// describes it.
    pub fn try_from(s: String) -> (r: Result<Request, ParseRequestError>)
        ensures
            match r {
                Ok(req) => {
                    &&& req.content_wf()
                    &&& headers_ok(req.headers_seq())
                    &&& req.uri_view().len() > 0
                    &&& forall|j: int| 0 <= j < req.uri_view().len() ==> !is_ws(req.uri_view()[j])
                    &&& parse_request(s@) == Ok::<
                        (RequestMethod, Seq<char>, Map<Seq<char>, Seq<char>>, Seq<char>),
                        ParseRequestError,
                    >((req.method_view(), req.uri_view(), req.headers_view(), req.body_view()))
                },
                Err(e) => parse_request(s@) == Err::<
                    (RequestMethod, Seq<char>, Map<Seq<char>, Seq<char>>, Seq<char>),
                    ParseRequestError,
                >(e),
            },
    {
        let st = s.as_str();
        let n = st.unicode_len();
        if n == 0 {
            return Err(ParseRequestError::Empty);
        }
        proof {
            reveal_strlit("\r\n");
            assert("\r\n"@ =~= crlf());
        }
        let cut: usize = match find_sub(st, "\r\n") {
            Some(p) => {
                proof {
                    lemma_find_characterization(s@, crlf());
                }
                p + 2
            },
            None => match find_char_from(st, '\n', 0) {
                Some(p) => {
                    proof {
                        lemma_first_ch_is(s@, '\n', p as int);
                    }
                    p + 1
                },
                None => {
                    proof {
                        lemma_first_ch_is(s@, '\n', s@.len() as int);
                    }
                    return Err(ParseRequestError::Invalid);
                },
            },
        };
        let head = st.substring_char(0, cut);
        let rest = String::from_str(st.substring_char(cut, n));
        let tk = tokenize(head);
        proof {
            lemma_tokens_shape(head@);
        }
        if tk.len() < 3 {
            return Err(ParseRequestError::Invalid);
        }
        proof {
            lemma_version_literal();
            assert(tk.deep_view()[2] == tk@[2]@);
            assert(tk.deep_view()[0] == tk@[0]@);
            assert(tk.deep_view()[1] == tk@[1]@);
        }
        if !str_eq(tk[2].as_str(), HTTP_VERSION) {
            return Err(ParseRequestError::Invalid);
        }
        let method = match RequestMethod::from_str(tk[0].as_str()) {
            Ok(m) => m,
            Err(e) => {
                return Err(ParseRequestError::from(e));
            },
        };
        let uri = tk[1].clone();
        match Content::try_from(rest) {
            Ok(content) => {
                let req = Request { method, uri, content };
                proof {
                    assert(tokens(s@.subrange(0, cut as int))[1] == req.uri_view());
                }
                Ok(req)
            },
            Err(e) => Err(ParseRequestError::from(e)),
        }
    }

    /// Serializes this request, as [`ser_request`] describes it.
    pub fn to_string(&self) -> (r: String)
        ensures
            r@ == ser_request(self.method_view(), self.uri_view(), self.headers_seq(),
            self.body_view()),
    {
        proof {
            reveal_strlit(" ");
            reveal_strlit("\r\n");
            lemma_version_literal();
        }
        let mut out = self.method.to_string();
        out.append(" ");
        out.append(self.uri.as_str());
        out.append(" ");
        out.append(HTTP_VERSION);
        out.append("\r\n");
        let content_str = self.content.to_string();
        out.append(content_str.as_str());
        proof {
            assert(" "@ =~= seq![' ']);
            assert("\r\n"@ =~= crlf());
            assert(out@ =~= ser_request(self.method_view(), self.uri_view(), self.headers_seq(),
            self.body_view()));
        }
        out
    }
}

// ---------------------------------------------------------------------
// Laws
// ---------------------------------------------------------------------
/// The method tokens and the version token are non-empty and free of
/// whitespace.
proof fn lemma_start_tokens_plain(m: RequestMethod)
    ensures
        method_token(m).len() > 0,
        forall|j: int| 0 <= j < method_token(m).len() ==> !is_ws(#[trigger] method_token(m)[j]),
        version_seq().len() > 0,
        forall|j: int| 0 <= j < version_seq().len() ==> !is_ws(#[trigger] version_seq()[j]),
{
    assert forall|j: int| 0 <= j < method_token(m).len() implies !is_ws(
        #[trigger] method_token(m)[j],
    ) by {
        match m {
            RequestMethod::GET => {
                assert(method_token(m) == seq!['G', 'E', 'T']);
            },
            RequestMethod::HEAD => {
                assert(method_token(m) == seq!['H', 'E', 'A', 'D']);
            },
            RequestMethod::PUT => {
                assert(method_token(m) == seq!['P', 'U', 'T']);
            },
            RequestMethod::POST => {
                assert(method_token(m) == seq!['P', 'O', 'S', 'T']);
            },
        }
    }
    assert forall|j: int| 0 <= j < version_seq().len() implies !is_ws(
        #[trigger] version_seq()[j],
    ) by {}
}

/// Reading back its own token gives the method back.
proof fn lemma_method_round_trip(m: RequestMethod)
    ensures
        method_of(method_token(m)) == Some(m),
{
}

/// The tokens of a serialized start-line are exactly the method
/// token, the URI and the version token.
proof fn lemma_start_line_tokens(m: RequestMethod, uri: Seq<char>)
    requires
        uri.len() > 0,
        forall|j: int| 0 <= j < uri.len() ==> !is_ws(uri[j]),
    ensures
        tokens(method_token(m) + seq![' '] + uri + seq![' '] + version_seq() + crlf()) == seq![
            method_token(m),
            uri,
            version_seq(),
        ],
{
    lemma_start_tokens_plain(m);
    let t3 = version_seq() + crlf();
    let t2 = uri + seq![' '] + t3;
    let t1 = method_token(m) + seq![' '] + t2;
    assert(tokens(seq!['\n'] + Seq::<char>::empty()) =~= tokens(Seq::<char>::empty())) by {
        lemma_tokens_skip_ws('\n', Seq::<char>::empty());
    }
    assert(crlf() =~= seq!['\r'] + (seq!['\n'] + Seq::<char>::empty()));
    lemma_tokens_skip_ws('\r', seq!['\n'] + Seq::<char>::empty());
    lemma_tokens_skip_ws('\n', Seq::<char>::empty());
    assert(tokens(crlf()) =~= Seq::<Seq<char>>::empty());
    lemma_tokens_word(version_seq(), crlf());
    assert(tokens(t3) =~= seq![version_seq()]);
    assert(uri + seq![' '] + t3 =~= uri + (seq![' '] + t3));
    lemma_tokens_word(uri, seq![' '] + t3);
    lemma_tokens_skip_ws(' ', t3);
    assert(tokens(t2) =~= seq![uri, version_seq()]);
    assert(method_token(m) + seq![' '] + t2 =~= method_token(m) + (seq![' '] + t2));
    lemma_tokens_word(method_token(m), seq![' '] + t2);
    lemma_tokens_skip_ws(' ', t2);
    assert(tokens(t1) =~= seq![method_token(m), uri, version_seq()]);
    assert(t1 =~= method_token(m) + seq![' '] + uri + seq![' '] + version_seq() + crlf());
}

/// Serialization then parsing is the identity on requests whose URI
/// is a plain token and whose headers are parse-shaped and
/// non-empty: re-parsing a serialized request yields exactly the
/// method, URI, header map and body it was made from.
pub proof fn lemma_request_round_trip(
    m: RequestMethod,
    uri: Seq<char>,
    hs: Seq<(Seq<char>, Seq<char>)>,
    body: Seq<char>,
)
    requires
        uri.len() > 0,
        forall|j: int| 0 <= j < uri.len() ==> !is_ws(uri[j]),
        headers_ok(hs),
        hs.len() > 0,
    ensures
        parse_request(ser_request(m, uri, hs, body)) == Ok::<
            (RequestMethod, Seq<char>, Map<Seq<char>, Seq<char>>, Seq<char>),
            ParseRequestError,
        >((m, uri, assoc_map(hs), body)),
{
    lemma_start_tokens_plain(m);
    let s = ser_request(m, uri, hs, body);
    let head = method_token(m) + seq![' '] + uri + seq![' '] + version_seq() + crlf();
    let lc = head.len() - 2;
    assert(s.len() >= head.len());
    assert forall|j: int| 0 <= j < lc implies s[j] != '\r' by {
        let mt = method_token(m);
        if j < mt.len() {
            assert(s[j] == mt[j]);
            assert(!is_ws(mt[j]));
        } else if j == mt.len() {
            assert(s[j] == ' ');
        } else if j < mt.len() + 1 + uri.len() {
            assert(s[j] == uri[j - mt.len() - 1]);
            assert(!is_ws(uri[j - mt.len() - 1]));
        } else if j == mt.len() + 1 + uri.len() {
            assert(s[j] == ' ');
        } else {
            assert(s[j] == version_seq()[j - mt.len() - 2 - uri.len()]);
            assert(!is_ws(version_seq()[j - mt.len() - 2 - uri.len()]));
        }
    }
    assert(s[lc] == '\r' && s[lc + 1] == '\n') by {
        assert(head[lc] == crlf()[0]);
        assert(head[lc + 1] == crlf()[1]);
        assert(s[lc] == head[lc] && s[lc + 1] == head[lc + 1]);
    }
    assert(s.subrange(lc, lc + 2) =~= crlf());
    assert(is_match_at(s, crlf(), lc));
    assert forall|j: int| 0 <= j < lc implies !is_match_at(s, crlf(), j) by {
        if is_match_at(s, crlf(), j) {
            assert(s.subrange(j, j + 2)[0] == s[j]);
            assert(s[j] == '\r');
        }
    }
    lemma_find_is_first(s, crlf(), lc);
    assert(line_cut(s) == Some(lc + 2));
    assert(s.subrange(0, lc + 2) =~= head);
    lemma_start_line_tokens(m, uri);
    lemma_method_round_trip(m);
    assert(s.subrange(lc + 2, s.len() as int) =~= ser_content(hs, body));
    crate::content::lemma_content_round_trip(hs, body);
}

impl Contentable for Request {
    closed spec fn headers_seq(&self) -> Seq<(Seq<char>, Seq<char>)> {
        self.content.headers_seq()
    }

    closed spec fn body_view(&self) -> Seq<char> {
        self.content.body_view()
    }

    closed spec fn content_wf(&self) -> bool {
        self.content.content_wf()
    }

    fn get_body(&self) -> (b: &str) {
        self.content.get_body()
    }

    fn set_body(&mut self, new_body: String) -> (old_body: String) {
        self.content.set_body(new_body)
    }

    fn has_header<'a>(&'a self, name: &str) -> (r: Option<&'a str>) {
        self.content.has_header(name)
    }

    fn add_header(&mut self, name: String, value: String) -> (prev: Option<String>) {
        self.content.add_header(name, value)
    }
}

} // verus!
