//! Command-line argument validation: which arguments are required, and the
//! diagnostic texts printed when one is missing.

use vstd::prelude::*;
use vstd::string::StringExecFns;

verus! {

/// The one kind of failure this program knows: a required string argument
/// is missing, distinguished only by which of the two it is.
#[derive(Clone, Copy, PartialEq, Eq, Debug)]
pub enum ArgError {
    /// The first string argument is absent.
    MissingString1,
    /// The second string argument is absent.
    MissingString2,
}

/// The diagnostic line for each missing argument.
pub open spec fn error_text(e: ArgError) -> Seq<char> {
    match e {
        ArgError::MissingString1 => "ERROR: Invalid Args - expected STRING1"@,
        ArgError::MissingString2 => "ERROR: Invalid Args - expected STRING2"@,
    }
}

/// The usage line, naming the program and the two expected arguments.
pub open spec fn usage_text(program: Seq<char>) -> Seq<char> {
    "Usage: "@ + program + " <STRING1> <STRING2>"@
}

impl ArgError {
    /// The diagnostic line for this error, naming the missing argument.
    pub fn message(&self) -> (s: String)
        ensures
            s@ == error_text(*self),
    {
        match self {
            ArgError::MissingString1 => String::from_str("ERROR: Invalid Args - expected STRING1"),
            ArgError::MissingString2 => String::from_str("ERROR: Invalid Args - expected STRING2"),
        }
    }
}

/// Build the usage line for the given program name.
pub fn usage_line(program: &str) -> (s: String)
    ensures
        s@ == usage_text(program@),
{
    let s = String::from_str("Usage: ");
    let s = s.concat(program);
    s.concat(" <STRING1> <STRING2>")
}

/// Decide whether an invocation with `n_args` arguments (the program name
/// included) carries both required strings: success exactly when both are
/// there, and otherwise the error names the first one missing.
pub fn check_args(n_args: usize) -> (r: Result<(), ArgError>)
    ensures
        (r is Ok) <==> n_args >= 3,
        (r == Result::<(), ArgError>::Err(ArgError::MissingString1)) <==> n_args < 2,
        (r == Result::<(), ArgError>::Err(ArgError::MissingString2)) <==> n_args == 2,
{
    if n_args < 2 {
        Err(ArgError::MissingString1)
    } else if n_args < 3 {
        Err(ArgError::MissingString2)
    } else {
        Ok(())
    }
}

} // verus!
