//! Decoding byte spans as text.

use vstd::prelude::*;
use vstd::utf8::{decode_utf8, valid_utf8};

use crate::error::ParserError;

verus! {

/// Relies on `String::from_utf8`: it returns `Ok` exactly when the bytes
/// are valid UTF-8, and the returned string is their decoding.
#[verifier::external_body]
pub fn bytes_to_string(v: &Vec<u8>) -> (r: Result<String, ParserError>)
    ensures
        match r {
            Ok(s) => valid_utf8(v@) && s@ == decode_utf8(v@),
            Err(e) => !valid_utf8(v@) && e == ParserError::DecodingError,
        },
{
    match String::from_utf8(v.clone()) {
        Ok(s) => Ok(s),
        Err(_) => Err(ParserError::DecodingError),
    }
}

} // verus!
