//! The error taxonomy: each grammar violation maps to one kind, and each
//! error carries a free-form diagnostic string.

use vstd::prelude::*;

verus! {

/// The kind of a parse failure, with the free-form diagnostic text
/// abstracted away. Contracts speak of kinds; the message strings are
/// not part of any specification.
pub enum ErrorKind {
    UnexpectedEndOfInput,
    ExpectedEndOfInput,
    ExpectedObjectKey,
    ExpectedToken,
    UnexpectedToken,
    ExpectedDigit,
    ExpectedEscapeChar,
    ExpectedUnicodeEscape,
}

/// A parse failure: one of a closed set of kinds, each carrying a
/// free-form diagnostic string.
///
/// `ExpectedEndOfInput` and `UnexpectedToken` are declared for callers but
/// never produced by any production of this parser.
#[derive(Debug, PartialEq)]
pub enum ParseError {
    UnexpectedEndOfInput(String),
    ExpectedEndOfInput(String),
    ExpectedObjectKey(String),
    ExpectedToken(String),
    UnexpectedToken(String),
    ExpectedDigit(String),
    ExpectedEscapeChar(String),
    ExpectedUnicodeEscape(String),
}

impl ParseError {
    /// The kind of this error.
    pub open spec fn kind(&self) -> ErrorKind {
        match self {
            ParseError::UnexpectedEndOfInput(_) => ErrorKind::UnexpectedEndOfInput,
            ParseError::ExpectedEndOfInput(_) => ErrorKind::ExpectedEndOfInput,
            ParseError::ExpectedObjectKey(_) => ErrorKind::ExpectedObjectKey,
            ParseError::ExpectedToken(_) => ErrorKind::ExpectedToken,
            ParseError::UnexpectedToken(_) => ErrorKind::UnexpectedToken,
            ParseError::ExpectedDigit(_) => ErrorKind::ExpectedDigit,
            ParseError::ExpectedEscapeChar(_) => ErrorKind::ExpectedEscapeChar,
            ParseError::ExpectedUnicodeEscape(_) => ErrorKind::ExpectedUnicodeEscape,
        }
    }
}

} // verus!
