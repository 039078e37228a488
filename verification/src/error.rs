//! Failures of a dispatch.

use vstd::prelude::*;
use vstd::string::StringExecFns;

verus! {

/// The class of a failure: a missing directory or response file, or
/// anything else that went wrong with the file system.
#[derive(Clone, Copy, Debug, PartialEq, Eq, Structural)]
pub enum ErrorKind {
    NotFound,
    Other,
}

/// A file-system failure: its class and its description.
#[derive(Clone, Debug, PartialEq, Eq)]
pub struct IoError {
    pub kind: ErrorKind,
    pub message: String,
}

#[derive(Clone, Debug, PartialEq, Eq)]
pub enum Error {
    IoError(IoError),
}

/// What an [`Error`] stands for: the class and the characters of the description.
pub struct ErrorModel {
    pub kind: ErrorKind,
    pub message: Seq<char>,
}

impl View for IoError {
    type V = ErrorModel;

    open spec fn view(&self) -> ErrorModel {
        ErrorModel { kind: self.kind, message: self.message@ }
    }
}

impl View for Error {
    type V = ErrorModel;

    open spec fn view(&self) -> ErrorModel {
        match self {
            Error::IoError(e) => e@,
        }
    }
}

/// What the outcome of resolving and selecting stands for: the characters
/// of the path of the response file, or the failure.
pub open spec fn outcome(result: Result<String, Error>) -> Result<Seq<char>, ErrorModel> {
    match result {
        Ok(path) => Ok(path@),
        Err(e) => Err(e@),
    }
}

/// The description of the failure raised when a directory holds no response
/// file for the requested method.
pub open spec fn no_files_message() -> Seq<char> {
    "No files available"@
}

impl IoError {
    pub fn new(kind: ErrorKind, message: &str) -> (e: IoError)
        ensures
            e@ == (ErrorModel { kind, message: message@ }),
    {
        IoError { kind, message: String::from_str(message) }
    }
}

impl Error {
    /// A failure of class `kind` described by `message`.
    pub fn new(kind: ErrorKind, message: &str) -> (e: Error)
        ensures
            e@ == (ErrorModel { kind, message: message@ }),
    {
        Error::IoError(IoError::new(kind, message))
    }

    /// The failure of a directory that holds no response file for the method.
    pub fn no_files_available() -> (e: Error)
        ensures
            e@ == (ErrorModel { kind: ErrorKind::NotFound, message: no_files_message() }),
    {
        Error::new(ErrorKind::NotFound, "No files available")
    }

    pub fn kind(&self) -> (k: ErrorKind)
        ensures
            k == self@.kind,
    {
        match self {
            Error::IoError(e) => e.kind,
        }
    }

    /// Whether the failure is of the not-found class.
    pub fn is_not_found(&self) -> (b: bool)
        ensures
            b == (self@.kind == ErrorKind::NotFound),
    {
        match self {
            Error::IoError(e) => match e.kind {
                ErrorKind::NotFound => true,
                ErrorKind::Other => false,
            },
        }
    }

    /// The description of the failure, as it is shown to a client.
    pub fn message(&self) -> (m: String)
        ensures
            m@ == self@.message,
    {
        match self {
            Error::IoError(e) => e.message.clone(),
        }
    }
}

} // verus!
