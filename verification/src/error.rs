use vstd::prelude::*;

verus! {

/// Errors raised while decoding or parsing MSTS content.
#[derive(Debug)]
pub enum FormatError {
    UnexpectedEof,
    UnexpectedToken { offset: usize, message: String },
    UnclosedString(usize),
    InvalidNumber { offset: usize, text: String },
    TrailingInput(usize),
    MissingField { key: String, context: String },
    UnexpectedAtom { key: String, context: String, expected: String },
    UnknownUnit(String),
}

impl FormatError {
    /// Byte offset carried by an `UnexpectedToken` error.
    pub open spec fn token_offset(self) -> Option<usize> {
        match self {
            FormatError::UnexpectedToken { offset, .. } => Some(offset),
            _ => None,
        }
    }
}

} // verus!
