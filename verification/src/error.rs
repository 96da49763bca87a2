//! The error that every fallible function of the library reports.

use vstd::prelude::*;

verus! {

/// The kinds of failure that callers tell apart.
#[derive(Debug, Clone, Copy, PartialEq, Eq, Structural)]
pub enum ErrorKind {
    MalformedDocument,
    InvalidSettings,
    DataShapeMismatch,
    NonFiniteDensity,
}

/// The name that reports carry for a kind.
pub open spec fn kind_name(kind: ErrorKind) -> Seq<char> {
    match kind {
        ErrorKind::MalformedDocument => "MalformedDocument"@,
        ErrorKind::InvalidSettings => "InvalidSettings"@,
        ErrorKind::DataShapeMismatch => "DataShapeMismatch"@,
        ErrorKind::NonFiniteDensity => "NonFiniteDensity"@,
    }
}

impl ErrorKind {
    pub fn name(self) -> (r: &'static str)
        ensures
            r@ == kind_name(self),
    {
        match self {
            ErrorKind::MalformedDocument => "MalformedDocument",
            ErrorKind::InvalidSettings => "InvalidSettings",
            ErrorKind::DataShapeMismatch => "DataShapeMismatch",
            ErrorKind::NonFiniteDensity => "NonFiniteDensity",
        }
    }
}

/// A failure: its kind and a message for people.
#[derive(Debug, Clone)]
pub struct Error {
    pub kind: ErrorKind,
    pub message: String,
}

/// The mathematical content of an [`Error`].
#[verifier::ext_equal]
pub struct Fault {
    pub kind: ErrorKind,
    pub message: Seq<char>,
}

impl View for Error {
    type V = Fault;

    open spec fn view(&self) -> Fault {
        Fault { kind: self.kind, message: self.message@ }
    }
}

impl Error {
    pub fn new(kind: ErrorKind, message: String) -> (r: Error)
        ensures
            r@ == (Fault { kind, message: message@ }),
    {
        Error { kind, message }
    }
}

/// The view of a result: of its value, or of its error.
pub open spec fn outcome<T: View>(r: Result<T, Error>) -> Result<T::V, Fault> {
    match r {
        Ok(value) => Ok(value@),
        Err(error) => Err(error@),
    }
}

/// The failure that a malformed document gets.
pub open spec fn malformed_fault(message: Seq<char>) -> Fault {
    Fault { kind: ErrorKind::MalformedDocument, message }
}

pub fn malformed(message: String) -> (r: Error)
    ensures
        r@ == malformed_fault(message@),
{
    Error::new(ErrorKind::MalformedDocument, message)
}

/// The failure that unusable settings get.
pub open spec fn settings_fault(message: Seq<char>) -> Fault {
    Fault { kind: ErrorKind::InvalidSettings, message }
}

pub fn invalid_settings(message: String) -> (r: Error)
    ensures
        r@ == settings_fault(message@),
{
    Error::new(ErrorKind::InvalidSettings, message)
}

/// The failure that data of the wrong shape gets.
pub open spec fn shape_fault(message: Seq<char>) -> Fault {
    Fault { kind: ErrorKind::DataShapeMismatch, message }
}

pub fn shape_mismatch(message: String) -> (r: Error)
    ensures
        r@ == shape_fault(message@),
{
    Error::new(ErrorKind::DataShapeMismatch, message)
}

/// The failure that a value outside the reach of a density gets.
pub open spec fn nonfinite_fault(message: Seq<char>) -> Fault {
    Fault { kind: ErrorKind::NonFiniteDensity, message }
}

pub fn nonfinite(message: String) -> (r: Error)
    ensures
        r@ == nonfinite_fault(message@),
{
    Error::new(ErrorKind::NonFiniteDensity, message)
}

} // verus!
