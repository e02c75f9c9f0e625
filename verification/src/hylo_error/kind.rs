//! The closed set of error kinds, each with its code, name and exit code.
use vstd::prelude::*;

verus! {

/// What kind of failure a diagnostic reports.
#[derive(Debug, Clone, Copy, PartialEq, Eq, Structural)]
pub enum ErrorKind {
    SyntaxError,
    StringNotTerminated,
}

impl ErrorKind {
    /// The stable diagnostic code of each kind.
    pub open spec fn spec_code(&self) -> Seq<char> {
        match self {
            ErrorKind::SyntaxError => "E0001"@,
            ErrorKind::StringNotTerminated => "E0002"@,
        }
    }

    /// The name of each kind.
    pub open spec fn spec_name(&self) -> Seq<char> {
        match self {
            ErrorKind::SyntaxError => "SyntaxError"@,
            ErrorKind::StringNotTerminated => "StringNotTerminated"@,
        }
    }

    /// The exit code of each kind.
    pub open spec fn spec_exit_code(&self) -> i32 {
        match self {
            ErrorKind::SyntaxError => 1i32,
            ErrorKind::StringNotTerminated => 1i32,
        }
    }

    /// The stable diagnostic code of the kind.
    pub fn code(&self) -> (s: &'static str)
        ensures
            s@ == self.spec_code(),
    {
        match self {
            ErrorKind::SyntaxError => "E0001",
            ErrorKind::StringNotTerminated => "E0002",
        }
    }

    /// The name of the kind.
    pub fn as_str(&self) -> (s: &'static str)
        ensures
            s@ == self.spec_name(),
    {
        match self {
            ErrorKind::SyntaxError => "SyntaxError",
            ErrorKind::StringNotTerminated => "StringNotTerminated",
        }
    }

    /// The code with which the process ends after a failure of this kind.
    pub fn exit_code(&self) -> (code: i32)
        ensures
            code == self.spec_exit_code(),
            code > 0,
    {
        match self {
            ErrorKind::SyntaxError => 1,
            ErrorKind::StringNotTerminated => 1,
        }
    }
}

} // verus!
