//! The kinds of failure of a conversion, each with its message.

use vstd::prelude::*;
use vstd::string::StringExecFns;

verus! {

/// What can go wrong while one file or one entry is converted. Each kind
/// carries what the failed operation reported.
#[derive(Clone, PartialEq, Eq, Debug)]
pub enum Error {
    /// Reading or writing a file failed.
    Io(String),
    /// The source container could not be read.
    ArRead(String),
    /// The zip-like output container could not be written.
    ZipWrite(String),
    /// The solid output archive could not be written.
    SZipWrite(String),
    /// The image codec failed.
    ImageError(String),
    /// A worker that was handed a task did not return.
    AsyncTaskError(String),
    /// Anything else.
    Other(String),
}

impl Error {
    /// The message of this error: what its kind is, and what was reported.
    pub open spec fn text_of(self) -> Seq<char> {
        match self {
            Error::Io(report) => "IO: "@ + report@,
            Error::ArRead(report) => "Ar-read: "@ + report@,
            Error::ZipWrite(report) => "Zip-write: "@ + report@,
            Error::SZipWrite(report) => "7Zip-write: "@ + report@,
            Error::ImageError(report) => "Encoding: "@ + report@,
            Error::AsyncTaskError(report) => "Async task join: "@ + report@,
            Error::Other(report) => report@,
        }
    }

    /// The message of this error.
    pub fn to_string(&self) -> (text: String)
        ensures
            text@ == self.text_of(),
    {
        match self {
            Error::Io(report) => String::from_str("IO: ").concat(report.as_str()),
            Error::ArRead(report) => String::from_str("Ar-read: ").concat(report.as_str()),
            Error::ZipWrite(report) => String::from_str("Zip-write: ").concat(report.as_str()),
            Error::SZipWrite(report) => String::from_str("7Zip-write: ").concat(report.as_str()),
            Error::ImageError(report) => String::from_str("Encoding: ").concat(report.as_str()),
            Error::AsyncTaskError(report) => String::from_str("Async task join: ").concat(
                report.as_str(),
            ),
            Error::Other(report) => report.clone(),
        }
    }
}

impl From<String> for Error {
    fn from(value: String) -> (error: Error) {
        Error::Other(value)
    }
}

impl vstd::std_specs::convert::FromSpecImpl<String> for Error {
    open spec fn obeys_from_spec() -> bool {
        true
    }

    open spec fn from_spec(value: String) -> Error {
        Error::Other(value)
    }
}

} // verus!
