//! Environment-variable expansion of an input line.

use vstd::prelude::*;
use vstd::string::StringExecFns;

verus! {

/// The line after variable expansion. No variable is expanded yet: the
/// line comes back as it was given.
pub fn expand_env_vars(input: &str) -> (r: String)
    ensures
        r@ == input@,
{
    String::from_str(input)
}

} // verus!
