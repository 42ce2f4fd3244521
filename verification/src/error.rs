//! Error type of the library.

use vstd::prelude::*;

verus! {

/// The standard I/O error, carried by [`DtaError::Io`].
#[verifier::external_type_specification]
#[verifier::external_body]
pub struct ExIoError(std::io::Error);

/// Errors that can occur during DTA operations.
#[derive(Debug)]
pub enum DtaError {
    /// A required parameter was not provided.
    MissingRequiredParameter(String),
    /// An invalid or unknown parameter was provided.
    InvalidParam(String),
    /// An I/O error occurred while writing or reading records.
    Io(std::io::Error),
    /// The input is not a well-formed DTA record.
    ParseError(String),
    /// A value could not be turned into DTA text.
    Serde(String),
}

/// The mathematical content of a [`DtaError`]: its kind and its message.
pub enum ErrorModel {
    MissingRequiredParameter(Seq<char>),
    InvalidParam(Seq<char>),
    Io,
    ParseError(Seq<char>),
    Serde(Seq<char>),
}

impl View for DtaError {
    type V = ErrorModel;

    open spec fn view(&self) -> ErrorModel {
        match self {
            DtaError::MissingRequiredParameter(s) => ErrorModel::MissingRequiredParameter(s@),
            DtaError::InvalidParam(s) => ErrorModel::InvalidParam(s@),
            DtaError::Io(_) => ErrorModel::Io,
            DtaError::ParseError(s) => ErrorModel::ParseError(s@),
            DtaError::Serde(s) => ErrorModel::Serde(s@),
        }
    }
}

} // verus!
