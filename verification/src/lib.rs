//! Lax JSON decoding that reports every mismatch in one pass.
//!
//! A document is parsed into a [`JsonValue`] first — anything on the wire is
//! accepted — and then walked into the target type through [`FromJson`],
//! which records every mismatch with its exact path, what the target expected,
//! and what was actually there.

pub mod context;
pub mod derive;
pub mod error;
pub mod impls;
pub mod json;
pub mod laws;
pub mod path;
pub mod rename;
pub mod text;

pub use context::Context;
pub use error::{Error, ErrorModel, Issue, IssueKind};
pub use impls::FromJson;
pub use json::{Json, JsonNumber, JsonValue};
pub use path::{Path, Segment};

use vstd::prelude::*;

use crate::json::{json_bytes_parse, json_text_parse, parse_json_slice, parse_json_str, parsed_document};

verus! {

/// What decoding the document `doc` into `T` returns: the decoded value when
/// decoding records no issue, otherwise a decoding error for `T` that carries
/// every issue. Nothing is said of an implementation of [`FromJson`] that is
/// not held to the trait's clauses.
pub open spec fn decode_outcome<T: FromJson>(doc: Json, r: Result<T, Error>) -> bool {
    let issues = T::spec_issues(doc, Seq::empty());
    T::obeys_from_json() ==> {
        &&& r is Ok <==> issues.len() == 0
        &&& r matches Ok(out) ==> T::spec_decodes(doc, out)
        &&& r matches Err(e) ==> e@ == (ErrorModel::Decode { target: T::spec_expected(), issues })
    }
}

/// What parsing and then decoding returns: the parser's syntax error, or the
/// outcome of decoding the parsed document.
pub open spec fn parse_outcome<T: FromJson>(parsed: Result<Json, Seq<char>>, r: Result<T, Error>) -> bool {
    match parsed {
        Err(message) => r matches Err(e) && e@ == (ErrorModel::Syntax { message }),
        Ok(doc) => decode_outcome::<T>(doc, r),
    }
}

/// Decodes an already parsed JSON value into `T`.
pub fn from_value<T: FromJson>(value: &JsonValue) -> (r: Result<T, Error>)
    ensures
        decode_outcome::<T>(value@, r),
{
    let mut cx = Context::new();
    match T::from_json(value, &mut cx) {
        Some(v) => Ok(v),
        None => {
            assert(Seq::<crate::error::IssueModel>::empty() + T::spec_issues(value@, Seq::empty()) =~= T::spec_issues(value@, Seq::empty()));
            Err(Error::decode(T::expected(), cx.into_issues()))
        }
    }
}

/// Parses JSON text and decodes it into `T`.
pub fn from_str<T: FromJson>(s: &str) -> (r: Result<T, Error>)
    ensures
        parse_outcome::<T>(json_text_parse(s@), r),
        json_text_parse(s@) matches Ok(doc) ==> parsed_document(doc),
{
    match parse_json_str(s) {
        Ok(value) => from_value(&value),
        Err(message) => Err(Error::syntax(message)),
    }
}

/// Parses JSON bytes and decodes them into `T`.
pub fn from_slice<T: FromJson>(bytes: &[u8]) -> (r: Result<T, Error>)
    ensures
        parse_outcome::<T>(json_bytes_parse(bytes@), r),
        json_bytes_parse(bytes@) matches Ok(doc) ==> parsed_document(doc),
{
    match parse_json_slice(bytes) {
        Ok(value) => from_value(&value),
        Err(message) => Err(Error::syntax(message)),
    }
}

} // verus!
