//! A small, fully verified model of HTTP/1.1 messages.
//!
//! The crate turns a complete message string into a structured
//! [`Request`] or [`Response`] value and turns such values back into
//! wire-format strings.  Every parsing and serialization routine
//! carries a contract that pins its result down exactly, stated over
//! sequence-of-character models of the strings involved.

use vstd::prelude::*;

pub mod assoc;
pub mod chars;
pub mod content;
pub mod errors;
pub mod message;
pub mod num;
pub mod request;
pub mod response;
pub mod router;
pub mod text;

pub use crate::content::Content;
pub use crate::content::Contentable;
pub use crate::errors::ParseContentError;
pub use crate::errors::ParseHttpError;
pub use crate::errors::ParseRequestError;
pub use crate::errors::ParseRequestMethodError;
pub use crate::errors::ParseResponseError;
pub use crate::errors::ParseStatusCodeError;
pub use crate::message::Message;
pub use crate::message::MessageBuilder;
pub use crate::request::Request;
pub use crate::request::RequestMethod;
pub use crate::response::Response;
pub use crate::response::StatusCode;
pub use crate::router::Router;

verus! {

/// The only protocol version this crate accepts or emits.
pub const HTTP_VERSION: &'static str = "HTTP/1.1";

/// The characters of the protocol version token.
pub open spec fn version_seq() -> Seq<char> {
    seq!['H', 'T', 'T', 'P', '/', '1', '.', '1']
}

/// The version literal spelled out.
pub proof fn lemma_version_literal()
    ensures
        "HTTP/1.1"@ == version_seq(),
{
    reveal_strlit("HTTP/1.1");
    assert("HTTP/1.1"@ =~= version_seq());
}

} // verus!
