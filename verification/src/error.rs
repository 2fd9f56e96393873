//! Errors raised during conversion.
use vstd::prelude::*;

verus! {

/// Errors raised during conversion.
///
/// Two conditions stop a conversion: a `type` value that is not a valid JSON
/// Schema type while strict mode is on, and an input that cannot be read as a
/// schema (a scalar node, or a parameter with neither a `schema` nor a
/// `content` member while strict mode is on).
#[derive(Debug, Clone, PartialEq, Eq)]
pub enum Error {
    /// A node carried a `type` value outside the draft-04 type set while strict
    /// mode was on. The string is the full message, with the offending value
    /// rendered as JSON.
    InvalidType(String),
    /// The input could not be read as a schema or a parameter.
    InvalidInput(String),
}

/// The mathematical value of an error: its kind and its message.
pub enum ErrorV {
    InvalidType(Seq<char>),
    InvalidInput(Seq<char>),
}

impl View for Error {
    type V = ErrorV;

    open spec fn view(&self) -> ErrorV {
        match self {
            Error::InvalidType(m) => ErrorV::InvalidType(m@),
            Error::InvalidInput(m) => ErrorV::InvalidInput(m@),
        }
    }
}

/// The name of an error kind.
pub open spec fn error_name(e: ErrorV) -> Seq<char> {
    match e {
        ErrorV::InvalidType(_) => "InvalidTypeError"@,
        ErrorV::InvalidInput(_) => "InvalidInputError"@,
    }
}

/// The message of an error.
pub open spec fn error_message(e: ErrorV) -> Seq<char> {
    match e {
        ErrorV::InvalidType(m) => m,
        ErrorV::InvalidInput(m) => m,
    }
}

impl Error {
    /// The error name: `"InvalidTypeError"` or `"InvalidInputError"`.
    pub fn name(&self) -> (r: &'static str)
        ensures
            r@ == error_name(self@),
    {
        match self {
            Error::InvalidType(_) => "InvalidTypeError",
            Error::InvalidInput(_) => "InvalidInputError",
        }
    }

    /// The error message.
    pub fn message(&self) -> (r: &str)
        ensures
            r@ == error_message(self@),
    {
        match self {
            Error::InvalidType(m) => m.as_str(),
            Error::InvalidInput(m) => m.as_str(),
        }
    }
}

} // verus!
