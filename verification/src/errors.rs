//! The error taxonomy.
//!
//! Every parseable entity rejects its input for one of two reasons:
//! the input was the empty string, or it was non-empty and broke a
//! structural rule.  Each entity has its own two-valued error type,
//! and a parent entity adopts a child's error with the kind
//! preserved.

use vstd::prelude::*;

verus! {

/// Why a `Content` failed to parse.
#[derive(Clone, Copy, Debug, PartialEq, Eq, Structural)]
pub enum ParseContentError {
    /// The input was the empty string.
    Empty,
    /// The input broke a structural rule.
    Invalid,
}

/// Why a `RequestMethod` failed to parse.
#[derive(Clone, Copy, Debug, PartialEq, Eq, Structural)]
pub enum ParseRequestMethodError {
    /// The input was the empty string.
    Empty,
    /// The input was not a recognized method token.
    Invalid,
}

/// Why a `Request` failed to parse.
#[derive(Clone, Copy, Debug, PartialEq, Eq, Structural)]
pub enum ParseRequestError {
    /// The input was the empty string.
    Empty,
    /// The input broke a structural rule.
    Invalid,
}

/// Why a `StatusCode` failed to parse.
#[derive(Clone, Copy, Debug, PartialEq, Eq, Structural)]
pub enum ParseStatusCodeError {
    /// The input was the empty string.
    Empty,
    /// The input was not a recognized numeric code.
    Invalid,
}

/// Why a `Response` failed to parse.
#[derive(Clone, Copy, Debug, PartialEq, Eq, Structural)]
pub enum ParseResponseError {
    /// The input was the empty string.
    Empty,
    /// The input broke a structural rule.
    Invalid,
}

/// Why a message failed to parse, at the top level.
#[derive(Clone, Copy, Debug, PartialEq, Eq, Structural)]
pub enum ParseHttpError {
    /// The input was the empty string.
    Empty,
    /// The input broke a structural rule.
    Invalid,
}

/// The kind-preserving adoption of a content error by a request.
pub open spec fn request_err_of_content(e: ParseContentError) -> ParseRequestError {
    match e {
        ParseContentError::Empty => ParseRequestError::Empty,
        ParseContentError::Invalid => ParseRequestError::Invalid,
    }
}

/// The kind-preserving adoption of a method error by a request.
pub open spec fn request_err_of_method(e: ParseRequestMethodError) -> ParseRequestError {
    match e {
        ParseRequestMethodError::Empty => ParseRequestError::Empty,
        ParseRequestMethodError::Invalid => ParseRequestError::Invalid,
    }
}

/// The kind-preserving adoption of a content error by a response.
pub open spec fn response_err_of_content(e: ParseContentError) -> ParseResponseError {
    match e {
        ParseContentError::Empty => ParseResponseError::Empty,
        ParseContentError::Invalid => ParseResponseError::Invalid,
    }
}

/// The kind-preserving adoption of a status-code error by a
/// response.
pub open spec fn response_err_of_status(e: ParseStatusCodeError) -> ParseResponseError {
    match e {
        ParseStatusCodeError::Empty => ParseResponseError::Empty,
        ParseStatusCodeError::Invalid => ParseResponseError::Invalid,
    }
}

/// The kind-preserving adoption of a request error at the top
/// level.
pub open spec fn http_err_of_request(e: ParseRequestError) -> ParseHttpError {
    match e {
        ParseRequestError::Empty => ParseHttpError::Empty,
        ParseRequestError::Invalid => ParseHttpError::Invalid,
    }
}

impl From<ParseContentError> for ParseRequestError {
    fn from(e: ParseContentError) -> (r: ParseRequestError) {
        match e {
            ParseContentError::Empty => ParseRequestError::Empty,
            ParseContentError::Invalid => ParseRequestError::Invalid,
        }
    }
}

impl vstd::std_specs::convert::FromSpecImpl<ParseContentError> for ParseRequestError {
    open spec fn obeys_from_spec() -> bool {
        true
    }

    open spec fn from_spec(e: ParseContentError) -> Self {
        request_err_of_content(e)
    }
}

impl From<ParseRequestMethodError> for ParseRequestError {
    fn from(e: ParseRequestMethodError) -> (r: ParseRequestError) {
        match e {
            ParseRequestMethodError::Empty => ParseRequestError::Empty,
            ParseRequestMethodError::Invalid => ParseRequestError::Invalid,
        }
    }
}

impl vstd::std_specs::convert::FromSpecImpl<ParseRequestMethodError> for ParseRequestError {
    open spec fn obeys_from_spec() -> bool {
        true
    }

    open spec fn from_spec(e: ParseRequestMethodError) -> Self {
        request_err_of_method(e)
    }
}

impl From<ParseContentError> for ParseResponseError {
    fn from(e: ParseContentError) -> (r: ParseResponseError) {
        match e {
            ParseContentError::Empty => ParseResponseError::Empty,
            ParseContentError::Invalid => ParseResponseError::Invalid,
        }
    }
}

impl vstd::std_specs::convert::FromSpecImpl<ParseContentError> for ParseResponseError {
    open spec fn obeys_from_spec() -> bool {
        true
    }

    open spec fn from_spec(e: ParseContentError) -> Self {
        response_err_of_content(e)
    }
}

impl From<ParseStatusCodeError> for ParseResponseError {
    fn from(e: ParseStatusCodeError) -> (r: ParseResponseError) {
        match e {
            ParseStatusCodeError::Empty => ParseResponseError::Empty,
            ParseStatusCodeError::Invalid => ParseResponseError::Invalid,
        }
    }
}

impl vstd::std_specs::convert::FromSpecImpl<ParseStatusCodeError> for ParseResponseError {
    open spec fn obeys_from_spec() -> bool {
        true
    }

    open spec fn from_spec(e: ParseStatusCodeError) -> Self {
        response_err_of_status(e)
    }
}

impl From<ParseRequestError> for ParseHttpError {
    fn from(e: ParseRequestError) -> (r: ParseHttpError) {
        match e {
            ParseRequestError::Empty => ParseHttpError::Empty,
            ParseRequestError::Invalid => ParseHttpError::Invalid,
        }
    }
}

impl vstd::std_specs::convert::FromSpecImpl<ParseRequestError> for ParseHttpError {
    open spec fn obeys_from_spec() -> bool {
        true
    }

    open spec fn from_spec(e: ParseRequestError) -> Self {
        http_err_of_request(e)
    }
}

} // verus!
