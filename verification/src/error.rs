//! The ways a split can fail.

use vstd::prelude::*;

verus! {

/// A split either fails fatally with one of these, or succeeds; the
/// external parser producing no tree is not an error but an explicit
/// absent result.
#[derive(Debug, PartialEq, Eq, Clone, Copy)]
pub enum ParserError {
    /// A byte span could not be decoded as text.
    DecodingError,
    /// No grammar is configured for the requested language, or the
    /// configured grammar could not be loaded.
    UnsupportedLanguage,
}

impl ParserError {
    /// A short description, for callers that need to display the error.
    pub fn describe(&self) -> (r: &'static str)
        ensures
            *self is DecodingError ==> r@ == "byte span is not valid utf-8"@,
            *self is UnsupportedLanguage ==> r@ == "language is not supported"@,
    {
        match self {
            ParserError::DecodingError => "byte span is not valid utf-8",
            ParserError::UnsupportedLanguage => "language is not supported",
        }
    }
}

} // verus!
