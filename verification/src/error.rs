//! The error that decoding reports.
use vstd::prelude::*;

verus! {

/// Why a document could not be decoded.
#[derive(Debug, PartialEq, Eq, Structural, Clone, Copy)]
pub enum DecodeError {
    /// The document is valid, but its schema differs from the expected one.
    SchemaMismatch,
    /// The bytes are not a valid Tree-Buf document: a read past the end,
    /// an unknown type id, text that is not UTF-8, and the like. A corrupt
    /// document trips one of these at random, so they are not told apart.
    InvalidFormat,
}

/// The result of a decoding step.
pub type DecodeResult<T> = Result<T, DecodeError>;

impl DecodeError {
    /// A human readable description of the error.
    pub fn message(&self) -> (text: &'static str)
        ensures
            text@ == (match self {
                DecodeError::SchemaMismatch => "The expected schema did not match that in the document."@,
                DecodeError::InvalidFormat => "The format was not a valid Tree-Buf"@,
            }),
    {
        match self {
            DecodeError::SchemaMismatch => "The expected schema did not match that in the document.",
            DecodeError::InvalidFormat => "The format was not a valid Tree-Buf",
        }
    }
}

} // verus!
