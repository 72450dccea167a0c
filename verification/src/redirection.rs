//! Input and output redirection of a command line.

use vstd::prelude::*;

verus! {

/// Where a command reads its input from and writes its output to, when redirected.
pub struct Redirection {
    pub input: Option<String>,
    pub output: Option<String>,
}

/// The redirections of a command line. None is recognised yet: both are
/// always absent.
pub fn parse_redirection(input: &str) -> (r: Redirection)
    ensures
        r.input is None,
        r.output is None,
{
    Redirection { input: None, output: None }
}

} // verus!
