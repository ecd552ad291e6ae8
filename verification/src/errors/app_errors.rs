//! The error taxonomy of the store: command-level errors that become
//! error replies, and persistence errors.

use vstd::prelude::*;

verus! {

/// Everything that can go wrong inside the store and its command layer.
/// `FileError` carries the text of the underlying I/O failure, which is
/// produced outside the library.
#[derive(Debug)]
pub enum AppError {
    InvalidExpirationValue,
    WrongNumberOfArgumentsError,
    InvalidPattern,
    FileError(String),
    InvalidFileFormat,
}

/// The reply text of each error, as written into a wire error reply.
pub open spec fn spec_error_message(e: &AppError) -> Seq<char> {
    match e {
        AppError::InvalidExpirationValue => "ERR value is not an integer or out of range"@,
        AppError::WrongNumberOfArgumentsError => "ERR wrong number of arguments for command"@,
        AppError::InvalidPattern => "ERR invalid pattern"@,
        AppError::FileError(cause) => "ERR file error: "@ + cause@,
        AppError::InvalidFileFormat => "ERR invalid file format"@,
    }
}

impl AppError {
    /// The reply text of the error.
    pub fn to_message(&self) -> (r: String)
        ensures
            r@ == spec_error_message(self),
    {
        match self {
            AppError::InvalidExpirationValue => String::from_str(
                "ERR value is not an integer or out of range",
            ),
            AppError::WrongNumberOfArgumentsError => String::from_str(
                "ERR wrong number of arguments for command",
            ),
            AppError::InvalidPattern => String::from_str("ERR invalid pattern"),
            AppError::FileError(cause) => {
                let mut m = String::from_str("ERR file error: ");
                m.append(cause.as_str());
                m
            },
            AppError::InvalidFileFormat => String::from_str("ERR invalid file format"),
        }
    }
}

} // verus!
