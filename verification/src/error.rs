//! The errors a builtin reports.

use vstd::prelude::*;

verus! {

/// std's `io::Error`, carried through as an opaque value.
#[verifier::external_type_specification]
#[verifier::external_body]
pub struct ExIoError(std::io::Error);

/// Why a builtin failed.
#[derive(Debug)]
pub enum ShellError {
    /// An operating-system error.
    Io(std::io::Error),
    /// The command was used wrongly; the text says how to use it.
    Usage(&'static str),
    /// A named file does not exist.
    NotFound(String),
}

impl From<std::io::Error> for ShellError {
    fn from(e: std::io::Error) -> (r: ShellError) {
        ShellError::Io(e)
    }
}

impl vstd::std_specs::convert::FromSpecImpl<std::io::Error> for ShellError {
    open spec fn obeys_from_spec() -> bool {
        true
    }

    open spec fn from_spec(e: std::io::Error) -> ShellError {
        ShellError::Io(e)
    }
}

} // verus!
