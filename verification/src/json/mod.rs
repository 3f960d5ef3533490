//! Hand-rolled JSON parser and serializer: parse JSON text into a
//! `Value`, serialize a `Value` back to text.

pub mod laws;
pub mod parser;
pub mod value;

use vstd::prelude::*;
use crate::error::Error;
use crate::text::{push_u64, string_of};
use parser::{Parsed, Parser, document};
use value::{Value, json_text};

verus! {

/// The error message for a document that ends inside a value, where the
/// parser would read past the end of its input.
pub open spec fn unexpected_end() -> Seq<char> {
    "unexpected end of input"@
}

/// Parses a whole JSON document: one value with optional surrounding
/// whitespace. Anything after the value is an error, and so is a
/// document that ends inside a value.
pub fn parse(input: &str) -> (r: Result<Value, Error>)
    ensures
        match document(input@) {
            Parsed::Done(v, _) => r matches Ok(x) && x.model() == v,
            Parsed::Fail(m) => r matches Err(Error::Json(x)) && x@ == m,
            Parsed::Crash => r matches Err(Error::Json(x)) && x@ == unexpected_end(),
        },
{
    match try_parse(input) {
        Some(r) => r,
        None => Err(Error::Json(string_of("unexpected end of input"))),
    }
}

/// Like `parse`, but an input on which the parser would read past the end
/// of its input gives `None`.
pub fn try_parse(input: &str) -> (r: Option<Result<Value, Error>>)
    ensures
        match document(input@) {
            Parsed::Done(v, _) => r matches Some(Ok(x)) && x.model() == v,
            Parsed::Fail(m) => r matches Some(Err(Error::Json(x))) && x@ == m,
            Parsed::Crash => r is None,
        },
{
    let mut p = Parser::new(input);
    p.skip_ws();
    let v = match p.try_parse_value() {
        Some(Ok(v)) => v,
        Some(Err(e)) => return Some(Err(e)),
        None => return None,
    };
    p.skip_ws();
    if p.position() < p.text_len() {
        let mut m = string_of("trailing at ");
        push_u64(&mut m, p.byte_pos() as u64);
        return Some(Err(Error::Json(m)));
    }
    Some(Ok(v))
}

/// The JSON text of `v`.
pub fn serialize(v: &Value) -> (r: String)
    ensures
        r@ == json_text(v.model()),
{
    let mut out = String::new();
    value::write(&mut out, v);
    out
}

} // verus!
