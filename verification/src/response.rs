//! Responses and the status-code enumeration.
//!
//! A response message is a status-line `HTTP/1.1 CODE REASON`, then
//! the headers-and-body content.  [`parse_response`] states the
//! grammar, [`ser_response`] the serialized form.

use vstd::prelude::*;

use crate::assoc::assoc_map;
use crate::chars::is_ws;
use crate::content::{crlf, headers_ok, parse_content, ser_content, Content, Contentable};
use crate::errors::{
    response_err_of_content, response_err_of_status, ParseResponseError, ParseStatusCodeError,
};
use crate::num::{dec_str, parse_u16, u16_of, u16_to_string};
use crate::request::line_cut;
use crate::text::{
    find_char_from, find_sub, is_match_at, lemma_find_characterization, lemma_find_is_first,
    lemma_first_ch_is, lemma_tokens_skip_ws, lemma_tokens_word, str_eq, tokenize, tokens,
};
use crate::{lemma_version_literal, version_seq, HTTP_VERSION};

verus! {

/// The status of a response, one of the codes this crate knows.
#[derive(Copy, Clone, Debug, PartialEq, Eq, Structural)]
pub enum StatusCode {
    Continue,
    SwitchingProtocols,
    OK,
    Created,
    Accepted,
    NonAuthoritativeInformation,
    NoContent,
    ResetContent,
    PartialContent,
    MultipleChoices,
    MovedPermanently,
    Found,
    SeeOther,
    NotModified,
    UseProxy,
    TemporaryRedirect,
    BadRequest,
    Unauthorized,
    PaymentRequired,
    Forbidden,
    NotFound,
    MethodNotAllowed,
    NotAcceptable,
    ProxyAuthenticationRequired,
    RequestTimeout,
    Conflict,
    Gone,
    LengthRequired,
    PreconditionFailed,
    RequestEntityTooLarge,
    RequestURITooLarge,
    UnsupportedMediaType,
    Requestedrangenotsatisfiable,
    ExpectationFailed,
    InternalServerError,
    NotImplemented,
    BadGateway,
    ServiceUnavailable,
    GatewayTimeout,
    HTTPVersionnotsupported,
}

/// The numeric value of a status code.
pub open spec fn code_num(sc: StatusCode) -> u16 {
    match sc {
        StatusCode::Continue => 100,
        StatusCode::SwitchingProtocols => 101,
        StatusCode::OK => 200,
        StatusCode::Created => 201,
        StatusCode::Accepted => 202,
        StatusCode::NonAuthoritativeInformation => 203,
        StatusCode::NoContent => 204,
        StatusCode::ResetContent => 205,
        StatusCode::PartialContent => 206,
        StatusCode::MultipleChoices => 300,
        StatusCode::MovedPermanently => 301,
        StatusCode::Found => 302,
        StatusCode::SeeOther => 303,
        StatusCode::NotModified => 304,
        StatusCode::UseProxy => 305,
        StatusCode::TemporaryRedirect => 307,
        StatusCode::BadRequest => 400,
        StatusCode::Unauthorized => 401,
        StatusCode::PaymentRequired => 402,
        StatusCode::Forbidden => 403,
        StatusCode::NotFound => 404,
        StatusCode::MethodNotAllowed => 405,
        StatusCode::NotAcceptable => 406,
        StatusCode::ProxyAuthenticationRequired => 407,
        StatusCode::RequestTimeout => 408,
        StatusCode::Conflict => 409,
        StatusCode::Gone => 410,
        StatusCode::LengthRequired => 411,
        StatusCode::PreconditionFailed => 412,
        StatusCode::RequestEntityTooLarge => 413,
        StatusCode::RequestURITooLarge => 414,
        StatusCode::UnsupportedMediaType => 415,
        StatusCode::Requestedrangenotsatisfiable => 416,
        StatusCode::ExpectationFailed => 417,
        StatusCode::InternalServerError => 500,
        StatusCode::NotImplemented => 501,
        StatusCode::BadGateway => 502,
        StatusCode::ServiceUnavailable => 503,
        StatusCode::GatewayTimeout => 504,
        StatusCode::HTTPVersionnotsupported => 505,
    }
}

/// The status code a number names, if any.
pub open spec fn code_of_num(n: u16) -> Option<StatusCode> {
    if n == 100 {
        Some(StatusCode::Continue)
    } else if n == 101 {
        Some(StatusCode::SwitchingProtocols)
    } else if n == 200 {
        Some(StatusCode::OK)
    } else if n == 201 {
        Some(StatusCode::Created)
    } else if n == 202 {
        Some(StatusCode::Accepted)
    } else if n == 203 {
        Some(StatusCode::NonAuthoritativeInformation)
    } else if n == 204 {
        Some(StatusCode::NoContent)
    } else if n == 205 {
        Some(StatusCode::ResetContent)
    } else if n == 206 {
        Some(StatusCode::PartialContent)
    } else if n == 300 {
        Some(StatusCode::MultipleChoices)
    } else if n == 301 {
        Some(StatusCode::MovedPermanently)
    } else if n == 302 {
        Some(StatusCode::Found)
    } else if n == 303 {
        Some(StatusCode::SeeOther)
    } else if n == 304 {
        Some(StatusCode::NotModified)
    } else if n == 305 {
        Some(StatusCode::UseProxy)
    } else if n == 307 {
        Some(StatusCode::TemporaryRedirect)
    } else if n == 400 {
        Some(StatusCode::BadRequest)
    } else if n == 401 {
        Some(StatusCode::Unauthorized)
    } else if n == 402 {
        Some(StatusCode::PaymentRequired)
    } else if n == 403 {
        Some(StatusCode::Forbidden)
    } else if n == 404 {
        Some(StatusCode::NotFound)
    } else if n == 405 {
        Some(StatusCode::MethodNotAllowed)
    } else if n == 406 {
        Some(StatusCode::NotAcceptable)
    } else if n == 407 {
        Some(StatusCode::ProxyAuthenticationRequired)
    } else if n == 408 {
        Some(StatusCode::RequestTimeout)
    } else if n == 409 {
        Some(StatusCode::Conflict)
    } else if n == 410 {
        Some(StatusCode::Gone)
    } else if n == 411 {
        Some(StatusCode::LengthRequired)
    } else if n == 412 {
        Some(StatusCode::PreconditionFailed)
    } else if n == 413 {
        Some(StatusCode::RequestEntityTooLarge)
    } else if n == 414 {
        Some(StatusCode::RequestURITooLarge)
    } else if n == 415 {
        Some(StatusCode::UnsupportedMediaType)
    } else if n == 416 {
        Some(StatusCode::Requestedrangenotsatisfiable)
    } else if n == 417 {
        Some(StatusCode::ExpectationFailed)
    } else if n == 500 {
        Some(StatusCode::InternalServerError)
    } else if n == 501 {
        Some(StatusCode::NotImplemented)
    } else if n == 502 {
        Some(StatusCode::BadGateway)
    } else if n == 503 {
        Some(StatusCode::ServiceUnavailable)
    } else if n == 504 {
        Some(StatusCode::GatewayTimeout)
    } else if n == 505 {
        Some(StatusCode::HTTPVersionnotsupported)
    } else {
        None
    }
}

/// The canonical reason phrase of a status code.
pub open spec fn phrase_of(sc: StatusCode) -> Seq<char> {
    match sc {
        StatusCode::Continue => "Continue"@,
        StatusCode::SwitchingProtocols => "Switching Protocols"@,
        StatusCode::OK => "OK"@,
        StatusCode::Created => "Created"@,
        StatusCode::Accepted => "Accepted"@,
        StatusCode::NonAuthoritativeInformation => "Non Authoritative Information"@,
        StatusCode::NoContent => "No Content"@,
        StatusCode::ResetContent => "Reset Content"@,
        StatusCode::PartialContent => "Partial Content"@,
        StatusCode::MultipleChoices => "Multiple Choices"@,
        StatusCode::MovedPermanently => "Moved Permanently"@,
        StatusCode::Found => "Found"@,
        StatusCode::SeeOther => "See Other"@,
        StatusCode::NotModified => "Not Modified"@,
        StatusCode::UseProxy => "Use Proxy"@,
        StatusCode::TemporaryRedirect => "Temporary Redirect"@,
        StatusCode::BadRequest => "Bad Request"@,
        StatusCode::Unauthorized => "Unauthorized"@,
        StatusCode::PaymentRequired => "Payment Required"@,
        StatusCode::Forbidden => "Forbidden"@,
        StatusCode::NotFound => "Not Found"@,
        StatusCode::MethodNotAllowed => "Method Not Allowed"@,
        StatusCode::NotAcceptable => "Not Acceptable"@,
        StatusCode::ProxyAuthenticationRequired => "Proxy Authentication Required"@,
        StatusCode::RequestTimeout => "Request Timeout"@,
        StatusCode::Conflict => "Conflict"@,
        StatusCode::Gone => "Gone"@,
        StatusCode::LengthRequired => "Length Required"@,
        StatusCode::PreconditionFailed => "Precondition Failed"@,
        StatusCode::RequestEntityTooLarge => "Request Entity Too Large"@,
        StatusCode::RequestURITooLarge => "Request-URI Too Large"@,
        StatusCode::UnsupportedMediaType => "Unsupported Media Type"@,
        StatusCode::Requestedrangenotsatisfiable => "Requested range not satisfiable"@,
        StatusCode::ExpectationFailed => "Expectation Failed"@,
        StatusCode::InternalServerError => "Internal Server Error"@,
        StatusCode::NotImplemented => "Not Implemented"@,
        StatusCode::BadGateway => "Bad Gateway"@,
        StatusCode::ServiceUnavailable => "Service Unavailable"@,
        StatusCode::GatewayTimeout => "Gateway Timeout"@,
        StatusCode::HTTPVersionnotsupported => "HTTP-Version not supported"@,
    }
}

/// What reading a status code from a decimal string yields.
pub open spec fn code_from_str(s: Seq<char>) -> Result<StatusCode, ParseStatusCodeError> {
    match u16_of(s) {
        None => Err(ParseStatusCodeError::Invalid),
        Some(n) => match code_of_num(n) {
            None => Err(ParseStatusCodeError::Invalid),
            Some(sc) => Ok(sc),
        },
    }
}

impl StatusCode {
    /// The numeric value of this code.
    pub fn to_u16(&self) -> (n: u16)
        ensures
            n == code_num(*self),
    {
        match self {
            StatusCode::Continue => 100,
            StatusCode::SwitchingProtocols => 101,
            StatusCode::OK => 200,
            StatusCode::Created => 201,
            StatusCode::Accepted => 202,
            StatusCode::NonAuthoritativeInformation => 203,
            StatusCode::NoContent => 204,
            StatusCode::ResetContent => 205,
            StatusCode::PartialContent => 206,
            StatusCode::MultipleChoices => 300,
            StatusCode::MovedPermanently => 301,
            StatusCode::Found => 302,
            StatusCode::SeeOther => 303,
            StatusCode::NotModified => 304,
            StatusCode::UseProxy => 305,
            StatusCode::TemporaryRedirect => 307,
            StatusCode::BadRequest => 400,
            StatusCode::Unauthorized => 401,
            StatusCode::PaymentRequired => 402,
            StatusCode::Forbidden => 403,
            StatusCode::NotFound => 404,
            StatusCode::MethodNotAllowed => 405,
            StatusCode::NotAcceptable => 406,
            StatusCode::ProxyAuthenticationRequired => 407,
            StatusCode::RequestTimeout => 408,
            StatusCode::Conflict => 409,
            StatusCode::Gone => 410,
            StatusCode::LengthRequired => 411,
            StatusCode::PreconditionFailed => 412,
            StatusCode::RequestEntityTooLarge => 413,
            StatusCode::RequestURITooLarge => 414,
            StatusCode::UnsupportedMediaType => 415,
            StatusCode::Requestedrangenotsatisfiable => 416,
            StatusCode::ExpectationFailed => 417,
            StatusCode::InternalServerError => 500,
            StatusCode::NotImplemented => 501,
            StatusCode::BadGateway => 502,
            StatusCode::ServiceUnavailable => 503,
            StatusCode::GatewayTimeout => 504,
            StatusCode::HTTPVersionnotsupported => 505,
        }
    }

    /// Reads a status code from its numeric value, as
    /// [`code_of_num`] describes it.
    pub fn try_from(num: u16) -> (r: Result<StatusCode, ParseStatusCodeError>)
        ensures
            match code_of_num(num) {
                Some(sc) => r == Ok::<StatusCode, ParseStatusCodeError>(sc),
                None => r == Err::<StatusCode, ParseStatusCodeError>(
                    ParseStatusCodeError::Invalid,
                ),
            },
    {
        match num {
            100 => Ok(StatusCode::Continue),
            101 => Ok(StatusCode::SwitchingProtocols),
            200 => Ok(StatusCode::OK),
            201 => Ok(StatusCode::Created),
            202 => Ok(StatusCode::Accepted),
            203 => Ok(StatusCode::NonAuthoritativeInformation),
            204 => Ok(StatusCode::NoContent),
            205 => Ok(StatusCode::ResetContent),
            206 => Ok(StatusCode::PartialContent),
            300 => Ok(StatusCode::MultipleChoices),
            301 => Ok(StatusCode::MovedPermanently),
            302 => Ok(StatusCode::Found),
            303 => Ok(StatusCode::SeeOther),
            304 => Ok(StatusCode::NotModified),
            305 => Ok(StatusCode::UseProxy),
            307 => Ok(StatusCode::TemporaryRedirect),
            400 => Ok(StatusCode::BadRequest),
            401 => Ok(StatusCode::Unauthorized),
            402 => Ok(StatusCode::PaymentRequired),
            403 => Ok(StatusCode::Forbidden),
            404 => Ok(StatusCode::NotFound),
            405 => Ok(StatusCode::MethodNotAllowed),
            406 => Ok(StatusCode::NotAcceptable),
            407 => Ok(StatusCode::ProxyAuthenticationRequired),
            408 => Ok(StatusCode::RequestTimeout),
            409 => Ok(StatusCode::Conflict),
            410 => Ok(StatusCode::Gone),
            411 => Ok(StatusCode::LengthRequired),
            412 => Ok(StatusCode::PreconditionFailed),
            413 => Ok(StatusCode::RequestEntityTooLarge),
            414 => Ok(StatusCode::RequestURITooLarge),
            415 => Ok(StatusCode::UnsupportedMediaType),
            416 => Ok(StatusCode::Requestedrangenotsatisfiable),
            417 => Ok(StatusCode::ExpectationFailed),
            500 => Ok(StatusCode::InternalServerError),
            501 => Ok(StatusCode::NotImplemented),
            502 => Ok(StatusCode::BadGateway),
            503 => Ok(StatusCode::ServiceUnavailable),
            504 => Ok(StatusCode::GatewayTimeout),
            505 => Ok(StatusCode::HTTPVersionnotsupported),
            _ => Err(ParseStatusCodeError::Invalid),
        }
    }

    /// Reads a status code from a decimal string, as
    /// [`code_from_str`] describes it.
    pub fn from_str(s: &str) -> (r: Result<StatusCode, ParseStatusCodeError>)
        ensures
            r == code_from_str(s@),
    {
        match parse_u16(s) {
            None => Err(ParseStatusCodeError::Invalid),
            Some(n) => StatusCode::try_from(n),
        }
    }

    /// The canonical reason phrase, as [`phrase_of`] gives it.
    pub fn to_reason_phrase(&self) -> (r: &'static str)
        ensures
            r@ == phrase_of(*self),
    {
        match self {
            StatusCode::Continue => "Continue",
            StatusCode::SwitchingProtocols => "Switching Protocols",
            StatusCode::OK => "OK",
            StatusCode::Created => "Created",
            StatusCode::Accepted => "Accepted",
            StatusCode::NonAuthoritativeInformation => "Non Authoritative Information",
            StatusCode::NoContent => "No Content",
            StatusCode::ResetContent => "Reset Content",
            StatusCode::PartialContent => "Partial Content",
            StatusCode::MultipleChoices => "Multiple Choices",
            StatusCode::MovedPermanently => "Moved Permanently",
            StatusCode::Found => "Found",
            StatusCode::SeeOther => "See Other",
            StatusCode::NotModified => "Not Modified",
            StatusCode::UseProxy => "Use Proxy",
            StatusCode::TemporaryRedirect => "Temporary Redirect",
            StatusCode::BadRequest => "Bad Request",
            StatusCode::Unauthorized => "Unauthorized",
            StatusCode::PaymentRequired => "Payment Required",
            StatusCode::Forbidden => "Forbidden",
            StatusCode::NotFound => "Not Found",
            StatusCode::MethodNotAllowed => "Method Not Allowed",
            StatusCode::NotAcceptable => "Not Acceptable",
            StatusCode::ProxyAuthenticationRequired => "Proxy Authentication Required",
            StatusCode::RequestTimeout => "Request Timeout",
            StatusCode::Conflict => "Conflict",
            StatusCode::Gone => "Gone",
            StatusCode::LengthRequired => "Length Required",
            StatusCode::PreconditionFailed => "Precondition Failed",
            StatusCode::RequestEntityTooLarge => "Request Entity Too Large",
            StatusCode::RequestURITooLarge => "Request-URI Too Large",
            StatusCode::UnsupportedMediaType => "Unsupported Media Type",
            StatusCode::Requestedrangenotsatisfiable => "Requested range not satisfiable",
            StatusCode::ExpectationFailed => "Expectation Failed",
            StatusCode::InternalServerError => "Internal Server Error",
            StatusCode::NotImplemented => "Not Implemented",
            StatusCode::BadGateway => "Bad Gateway",
            StatusCode::ServiceUnavailable => "Service Unavailable",
            StatusCode::GatewayTimeout => "Gateway Timeout",
            StatusCode::HTTPVersionnotsupported => "HTTP-Version not supported",
        }
    }

    /// Prints the numeric value in decimal.
    pub fn to_string(&self) -> (r: String)
        ensures
            r@ == dec_str(code_num(*self) as int),
    {
        u16_to_string(self.to_u16())
    }
}

// ---------------------------------------------------------------------
// The grammar
// ---------------------------------------------------------------------
/// The whole response grammar: status code, header map and body, or
/// the reason the message is rejected.
pub open spec fn parse_response(s: Seq<char>) -> Result<
    (StatusCode, Map<Seq<char>, Seq<char>>, Seq<char>),
    ParseResponseError,
> {
    if s.len() == 0 {
        Err(ParseResponseError::Empty)
    } else {
        match line_cut(s) {
            None => Err(ParseResponseError::Invalid),
            Some(cut) => {
                let tk = tokens(s.subrange(0, cut));
                if tk.len() < 3 {
                    Err(ParseResponseError::Invalid)
                } else if tk[0] != version_seq() {
                    Err(ParseResponseError::Invalid)
                } else {
                    match code_from_str(tk[1]) {
                        Err(e) => Err(response_err_of_status(e)),
                        Ok(sc) => match parse_content(s.subrange(cut, s.len() as int)) {
                            Err(e) => Err(response_err_of_content(e)),
                            Ok(p) => Ok((sc, p.0, p.1)),
                        },
                    }
                }
            },
        }
    }
}

/// The serialized form of a response.
pub open spec fn ser_response(
    sc: StatusCode,
    hs: Seq<(Seq<char>, Seq<char>)>,
    body: Seq<char>,
) -> Seq<char> {
    version_seq() + seq![' '] + dec_str(code_num(sc) as int) + seq![' '] + phrase_of(sc) + crlf()
        + ser_content(hs, body)
}

// ---------------------------------------------------------------------
// The type
// ---------------------------------------------------------------------
/// An HTTP response: a status code and the message content.
#[derive(Debug, PartialEq)]
pub struct Response {
    status_code: StatusCode,
    content: Content,
}

impl Response {
    /// The status code.
    pub closed spec fn status_view(&self) -> StatusCode {
        self.status_code
    }

    /// A response with the given status code and body and no
    /// headers.
    pub fn new(status_code: StatusCode, body: String) -> (res: Response)
        ensures
            res.content_wf(),
            res.status_view() == status_code,
            res.headers_seq() == Seq::<(Seq<char>, Seq<char>)>::empty(),
            res.headers_view() == Map::<Seq<char>, Seq<char>>::empty(),
            res.body_view() == body@,
    {
        let res = Response { status_code, content: Content::new(body) };
        proof {
            assert(res.headers_view() =~= Map::<Seq<char>, Seq<char>>::empty());
        }
        res
    }

    /// The canned not-found response: status 404 with an empty body.
    pub fn not_found() -> (res: Response)
        ensures
            res.content_wf(),
            res.status_view() == StatusCode::NotFound,
            res.headers_seq() == Seq::<(Seq<char>, Seq<char>)>::empty(),
            res.body_view() == Seq::<char>::empty(),
    {
        Response::new(StatusCode::NotFound, String::new())
    }

    /// The status code, copied out.
    pub fn status_code(&self) -> (sc: StatusCode)
        ensures
            sc == self.status_view(),
    {
        self.status_code
    }

    /// Parses a whole response message, as [`parse_response`]
    /// describes it.
    pub fn try_from(s: String) -> (r: Result<Response, ParseResponseError>)
        ensures
            match r {
                Ok(res) => {
                    &&& res.content_wf()
                    &&& headers_ok(res.headers_seq())
                    &&& parse_response(s@) == Ok::<
                        (StatusCode, Map<Seq<char>, Seq<char>>, Seq<char>),
                        ParseResponseError,
                    >((res.status_view(), res.headers_view(), res.body_view()))
                },
                Err(e) => parse_response(s@) == Err::<
                    (StatusCode, Map<Seq<char>, Seq<char>>, Seq<char>),
                    ParseResponseError,
                >(e),
            },
    {
        let st = s.as_str();
        let n = st.unicode_len();
        if n == 0 {
            return Err(ParseResponseError::Empty);
        }
        proof {
            reveal_strlit("\r\n");
            assert("\r\n"@ =~= crlf());
        }
        let cut: usize = match find_sub(st, "\r\n") {
            Some(p) => {
                proof {
                    lemma_find_characterization(s@, crlf());
                }
                p + 2
            },
            None => match find_char_from(st, '\n', 0) {
                Some(p) => {
                    proof {
                        lemma_first_ch_is(s@, '\n', p as int);
                    }
                    p + 1
                },
                None => {
                    proof {
                        lemma_first_ch_is(s@, '\n', s@.len() as int);
                    }
                    return Err(ParseResponseError::Invalid);
                },
            },
        };
        let head = st.substring_char(0, cut);
        let rest = String::from_str(st.substring_char(cut, n));
        let tk = tokenize(head);
        if tk.len() < 3 {
            return Err(ParseResponseError::Invalid);
        }
        proof {
            lemma_version_literal();
            assert(tk.deep_view()[0] == tk@[0]@);
            assert(tk.deep_view()[1] == tk@[1]@);
        }
        if !str_eq(tk[0].as_str(), HTTP_VERSION) {
            return Err(ParseResponseError::Invalid);
        }
        let status_code = match StatusCode::from_str(tk[1].as_str()) {
            Ok(sc) => sc,
            Err(e) => {
                return Err(ParseResponseError::from(e));
            },
        };
        match Content::try_from(rest) {
            Ok(content) => Ok(Response { status_code, content }),
            Err(e) => Err(ParseResponseError::from(e)),
        }
    }

    /// Serializes this response, as [`ser_response`] describes it.
    pub fn to_string(&self) -> (r: String)
        ensures
            r@ == ser_response(self.status_view(), self.headers_seq(), self.body_view()),
    {
        proof {
            reveal_strlit(" ");
            lemma_version_literal();
        }
        let mut out = String::from_str(HTTP_VERSION);
        out.append(" ");
        let code_str = self.status_code.to_string();
        out.append(code_str.as_str());
        out.append(" ");
        out.append(self.status_code.to_reason_phrase());
        out.append("\r\n");
        let content_str = self.content.to_string();
        out.append(content_str.as_str());
        proof {
            reveal_strlit(" ");
            reveal_strlit("\r\n");
            assert(" "@ =~= seq![' ']);
            assert("\r\n"@ =~= crlf());
            assert(out@ =~= ser_response(self.status_view(), self.headers_seq(),
            self.body_view()));
        }
        out
    }
}

// ---------------------------------------------------------------------
// Laws
// ---------------------------------------------------------------------
/// Reason phrases as they stand on the wire: non-empty, opening
/// with a printable character, free of line breaks.
proof fn lemma_phrase_shape(sc: StatusCode)
    ensures
        phrase_of(sc).len() > 0,
        !is_ws(phrase_of(sc)[0]),
        forall|j: int|
            0 <= j < phrase_of(sc).len() ==> phrase_of(sc)[j] != '\r' && phrase_of(sc)[j] != '\n',
{
    reveal_strlit("Continue");
    reveal_strlit("Switching Protocols");
    reveal_strlit("OK");
    reveal_strlit("Created");
    reveal_strlit("Accepted");
    reveal_strlit("Non Authoritative Information");
    reveal_strlit("No Content");
    reveal_strlit("Reset Content");
    reveal_strlit("Partial Content");
    reveal_strlit("Multiple Choices");
    reveal_strlit("Moved Permanently");
    reveal_strlit("Found");
    reveal_strlit("See Other");
    reveal_strlit("Not Modified");
    reveal_strlit("Use Proxy");
    reveal_strlit("Temporary Redirect");
    reveal_strlit("Bad Request");
    reveal_strlit("Unauthorized");
    reveal_strlit("Payment Required");
    reveal_strlit("Forbidden");
    reveal_strlit("Not Found");
    reveal_strlit("Method Not Allowed");
    reveal_strlit("Not Acceptable");
    reveal_strlit("Proxy Authentication Required");
    reveal_strlit("Request Timeout");
    reveal_strlit("Conflict");
    reveal_strlit("Gone");
    reveal_strlit("Length Required");
    reveal_strlit("Precondition Failed");
    reveal_strlit("Request Entity Too Large");
    reveal_strlit("Request-URI Too Large");
    reveal_strlit("Unsupported Media Type");
    reveal_strlit("Requested range not satisfiable");
    reveal_strlit("Expectation Failed");
    reveal_strlit("Internal Server Error");
    reveal_strlit("Not Implemented");
    reveal_strlit("Bad Gateway");
    reveal_strlit("Service Unavailable");
    reveal_strlit("Gateway Timeout");
    reveal_strlit("HTTP-Version not supported");
}

/// The tokens of a serialized status-line open with the version
/// token and the code's digits.
proof fn lemma_status_line_tokens(sc: StatusCode)
    ensures
        ({
            let digits = dec_str(code_num(sc) as int);
            let tail = phrase_of(sc) + crlf();
            &&& tokens(version_seq() + seq![' '] + digits + seq![' '] + phrase_of(sc) + crlf())
                == seq![version_seq(), digits] + tokens(tail)
            &&& tokens(tail).len() >= 1
        }),
{
    let digits = dec_str(code_num(sc) as int);
    crate::num::lemma_dec_str_shape(code_num(sc) as int);
    assert forall|j: int| 0 <= j < digits.len() implies !is_ws(digits[j]) by {
        assert(crate::chars::is_digit(digits[j]));
        crate::chars::lemma_digit_not_ws(digits[j]);
    }
    assert forall|j: int| 0 <= j < version_seq().len() implies !is_ws(
        #[trigger] version_seq()[j],
    ) by {}
    lemma_phrase_shape(sc);
    let tail = phrase_of(sc) + crlf();
    assert(tail[0] == phrase_of(sc)[0]);
    assert(tokens(tail).len() >= 1) by {
        assert(tail.len() > 0 && !is_ws(tail[0]));
    }
    let t2 = digits + seq![' '] + tail;
    let t1 = version_seq() + seq![' '] + t2;
    assert(digits + seq![' '] + tail =~= digits + (seq![' '] + tail));
    lemma_tokens_word(digits, seq![' '] + tail);
    lemma_tokens_skip_ws(' ', tail);
    assert(tokens(t2) =~= seq![digits] + tokens(tail));
    assert(version_seq() + seq![' '] + t2 =~= version_seq() + (seq![' '] + t2));
    lemma_tokens_word(version_seq(), seq![' '] + t2);
    lemma_tokens_skip_ws(' ', t2);
    assert(tokens(t1) =~= seq![version_seq(), digits] + tokens(tail));
    assert(t1 =~= version_seq() + seq![' '] + digits + seq![' '] + phrase_of(sc) + crlf());
}

/// Serialization then parsing is the identity on responses with
/// parse-shaped, non-empty headers: re-parsing a serialized
/// response yields exactly the status code, header map and body it
/// was made from.
pub proof fn lemma_response_round_trip(
    sc: StatusCode,
    hs: Seq<(Seq<char>, Seq<char>)>,
    body: Seq<char>,
)
    requires
        headers_ok(hs),
        hs.len() > 0,
    ensures
        parse_response(ser_response(sc, hs, body)) == Ok::<
            (StatusCode, Map<Seq<char>, Seq<char>>, Seq<char>),
            ParseResponseError,
        >((sc, assoc_map(hs), body)),
{
    let digits = dec_str(code_num(sc) as int);
    let phrase = phrase_of(sc);
    crate::num::lemma_dec_str_shape(code_num(sc) as int);
    lemma_phrase_shape(sc);
    let s = ser_response(sc, hs, body);
    let head = version_seq() + seq![' '] + digits + seq![' '] + phrase + crlf();
    let lc = head.len() - 2;
    assert(s.len() >= head.len());
    assert forall|j: int| 0 <= j < lc implies s[j] != '\r' by {
        let vs = version_seq();
        if j < vs.len() {
            assert(s[j] == vs[j]);
        } else if j == vs.len() {
            assert(s[j] == ' ');
        } else if j < vs.len() + 1 + digits.len() {
            assert(s[j] == digits[j - vs.len() - 1]);
            assert(crate::chars::is_digit(digits[j - vs.len() - 1]));
        } else if j == vs.len() + 1 + digits.len() {
            assert(s[j] == ' ');
        } else {
            assert(s[j] == phrase[j - vs.len() - 2 - digits.len()]);
        }
    }
    assert(s[lc] == '\r' && s[lc + 1] == '\n') by {
        assert(head[lc] == crlf()[0]);
        assert(head[lc + 1] == crlf()[1]);
        assert(s[lc] == head[lc] && s[lc + 1] == head[lc + 1]);
    }
    assert(s.subrange(lc, lc + 2) =~= crlf());
    assert(is_match_at(s, crlf(), lc));
    assert forall|j: int| 0 <= j < lc implies !is_match_at(s, crlf(), j) by {
        if is_match_at(s, crlf(), j) {
            assert(s.subrange(j, j + 2)[0] == s[j]);
            assert(s[j] == '\r');
        }
    }
    lemma_find_is_first(s, crlf(), lc);
    assert(line_cut(s) == Some(lc + 2));
    assert(s.subrange(0, lc + 2) =~= head);
    lemma_status_line_tokens(sc);
    let tk = tokens(head);
    assert(tk[0] == version_seq() && tk[1] == digits && tk.len() >= 3);
    crate::num::lemma_u16_round_trip(code_num(sc));
    assert(code_of_num(code_num(sc)) == Some(sc));
    assert(code_from_str(digits) == Ok::<StatusCode, ParseStatusCodeError>(sc));
    assert(s.subrange(lc + 2, s.len() as int) =~= ser_content(hs, body));
    crate::content::lemma_content_round_trip(hs, body);
}

impl Contentable for Response {
    closed spec fn headers_seq(&self) -> Seq<(Seq<char>, Seq<char>)> {
        self.content.headers_seq()
    }

    closed spec fn body_view(&self) -> Seq<char> {
        self.content.body_view()
    }

    closed spec fn content_wf(&self) -> bool {
        self.content.content_wf()
    }

    fn get_body(&self) -> (b: &str) {
        self.content.get_body()
    }

    fn set_body(&mut self, new_body: String) -> (old_body: String) {
        self.content.set_body(new_body)
    }

    fn has_header<'a>(&'a self, name: &str) -> (r: Option<&'a str>) {
        self.content.has_header(name)
    }

    fn add_header(&mut self, name: String, value: String) -> (prev: Option<String>) {
        self.content.add_header(name, value)
    }
}

} // verus!
