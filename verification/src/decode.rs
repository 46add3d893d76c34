//! Decoding the body of a response: as text, as a JSON document, as an
//! HTML document.
use crate::error::Error;
use crate::message::Response;
use vstd::prelude::*;
use vstd::utf8::{decode_utf8, valid_utf8};

verus! {

/// A parsed JSON document of the `serde_json` crate. The library carries
/// it through and never looks inside.
#[verifier::external_type_specification]
#[verifier::external_body]
pub struct ExJsonValue(serde_json::Value);

/// Whether `body` is one JSON document that `serde_json` accepts.
pub uninterp spec fn is_json(body: Seq<u8>) -> bool;

/// Calls `core::str::from_utf8` and copies the text out. Trusted: the call
/// succeeds exactly on valid UTF-8, and the text is then the decoding of the
/// bytes.
#[verifier::external_body]
fn utf8_text(bytes: &Vec<u8>) -> (r: Option<String>)
    ensures
        match r {
            Some(s) => valid_utf8(bytes@) && s@ == decode_utf8(bytes@),
            None => !valid_utf8(bytes@),
        },
{
    match core::str::from_utf8(bytes) {
        Ok(s) => Some(s.to_owned()),
        Err(_) => None,
    }
}

/// Calls `serde_json::from_slice` for a `serde_json::Value`. Trusted: the
/// call succeeds exactly on the inputs named by `is_json`; nothing is
/// claimed of the document itself.
#[verifier::external_body]
fn json_document(bytes: &Vec<u8>) -> (r: Option<serde_json::Value>)
    ensures
        r.is_some() == is_json(bytes@),
{
    match serde_json::from_slice::<serde_json::Value>(bytes) {
        Ok(value) => Some(value),
        Err(_) => None,
    }
}

/// `r` is what decoding `body` as text gives.
pub open spec fn is_text_of(body: Seq<u8>, r: Result<String, Error>) -> bool {
    match r {
        Ok(s) => valid_utf8(body) && s@ == decode_utf8(body),
        Err(e) => e == Error::DecodeError && !valid_utf8(body),
    }
}

/// `r` is what decoding `body` as JSON gives.
pub open spec fn is_json_of(body: Seq<u8>, r: Result<serde_json::Value, Error>) -> bool {
    match r {
        Ok(_) => is_json(body),
        Err(e) => e == Error::DecodeError && !is_json(body),
    }
}

impl Response {
    /// The body as text. Fails with `DecodeError` exactly if the body is
    /// not valid UTF-8.
    pub fn text(&self) -> (r: Result<String, Error>)
        ensures
            is_text_of(self@.body, r),
    {
        match utf8_text(&self.body) {
            Some(s) => Ok(s),
            None => Err(Error::DecodeError),
        }
    }

    /// The body as a JSON document. Fails with `DecodeError` exactly if the
    /// body is not one.
    pub fn json(&self) -> (r: Result<serde_json::Value, Error>)
        ensures
            is_json_of(self@.body, r),
    {
        match json_document(&self.body) {
            Some(value) => Ok(value),
            None => Err(Error::DecodeError),
        }
    }

    /// The body as the markup of an HTML document. Any text is a document;
    /// fails with `DecodeError` exactly if the body is not valid UTF-8.
    pub fn html(&self) -> (r: Result<String, Error>)
        ensures
            is_text_of(self@.body, r),
    {
        self.text()
    }
}

} // verus!
