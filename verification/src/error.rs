//! The error type of the whole crate. Each variant carries the text a
//! person reads; `message` gives the human-readable form.

use vstd::prelude::*;
use vstd::std_specs::convert::FromSpecImpl;
use crate::text::{push_str, string_of};

verus! {

#[verifier::external_type_specification]
#[verifier::external_body]
pub struct ExIoError(std::io::Error);

#[derive(Debug)]
pub enum Error {
    Io(std::io::Error),
    Http(String),
    Tls(String),
    Json(String),
    NotFound(String),
    Upstream(String),
    Other(String),
}

/// The `Display` text of an I/O error (`<std::io::Error as Display>::fmt`).
/// What the operating system says is not stated.
#[verifier::external_body]
pub(crate) fn io_error_text(e: &std::io::Error) -> String {
    format!("{e}")
}

/// The prefix that `message` puts before the payload of each variant
/// that carries a `String`.
pub open spec fn error_prefix(e: Error) -> Seq<char> {
    match e {
        Error::Io(_) => seq!['i', 'o', ':', ' '],
        Error::Http(_) => seq!['h', 't', 't', 'p', ':', ' '],
        Error::Tls(_) => seq!['t', 'l', 's', ':', ' '],
        Error::Json(_) => seq!['j', 's', 'o', 'n', ':', ' '],
        Error::NotFound(_) => seq!['n', 'o', 't', ' ', 'f', 'o', 'u', 'n', 'd', ':', ' '],
        Error::Upstream(_) => seq!['u', 'p', 's', 't', 'r', 'e', 'a', 'm', ':', ' '],
        Error::Other(_) => Seq::empty(),
    }
}

impl Error {
    /// The human-readable text of the error: a prefix naming the kind of
    /// failure, then the detail.
    pub fn message(&self) -> (r: String)
        ensures
            r@.len() >= error_prefix(*self).len(),
            r@.take(error_prefix(*self).len() as int) == error_prefix(*self),
            match self {
                Error::Io(_) => true,
                Error::Http(s) => r@ == error_prefix(*self) + s@,
                Error::Tls(s) => r@ == error_prefix(*self) + s@,
                Error::Json(s) => r@ == error_prefix(*self) + s@,
                Error::NotFound(s) => r@ == error_prefix(*self) + s@,
                Error::Upstream(s) => r@ == error_prefix(*self) + s@,
                Error::Other(s) => r@ == s@,
            },
    {
        proof {
            reveal_strlit("io: ");
            reveal_strlit("http: ");
            reveal_strlit("tls: ");
            reveal_strlit("json: ");
            reveal_strlit("not found: ");
            reveal_strlit("upstream: ");
        }
        let (prefix, detail) = match self {
            Error::Io(e) => ("io: ", io_error_text(e)),
            Error::Http(s) => ("http: ", s.clone()),
            Error::Tls(s) => ("tls: ", s.clone()),
            Error::Json(s) => ("json: ", s.clone()),
            Error::NotFound(s) => ("not found: ", s.clone()),
            Error::Upstream(s) => ("upstream: ", s.clone()),
            Error::Other(s) => ("", s.clone()),
        };
        proof {
            reveal_strlit("");
        }
        let mut r = string_of(prefix);
        push_str(&mut r, detail.as_str());
        assert(prefix@ == error_prefix(*self));
        assert(r@.take(error_prefix(*self).len() as int) =~= error_prefix(*self));
        r
    }
}

impl From<std::io::Error> for Error {
    fn from(e: std::io::Error) -> (r: Self) {
        Error::Io(e)
    }
}

impl FromSpecImpl<std::io::Error> for Error {
    open spec fn obeys_from_spec() -> bool {
        true
    }

    open spec fn from_spec(e: std::io::Error) -> Self {
        Error::Io(e)
    }
}

} // verus!
