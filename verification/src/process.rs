use vstd::prelude::*;

use crate::text::{concat, i32_to_decimal, signed_decimal};
use crate::types::fields::own;

verus! {

/// Why a command did not run to a successful end.
#[derive(Debug, Clone)]
pub enum CommandError {
    /// The command could not be started: the command and the reason.
    SpawnError(String, String),
    /// The command exited with this non-zero code.
    ReturnCodeError(i32),
    /// The command was terminated, with this description.
    ChildTerminationError(String),
    /// The process runner refused the command: the command and its error.
    RunnyError(String, String),
}

/// How a finished command ended, from its exit code: zero is success, a
/// positive code is a failing exit, and a negative one means the command was
/// terminated.
pub fn completion_result(code: i32) -> (r: Result<(), CommandError>)
    ensures
        code == 0 ==> r is Ok,
        code > 0 ==> (r matches Err(CommandError::ReturnCodeError(c)) && c == code),
        code < 0 ==> (r matches Err(CommandError::ChildTerminationError(t)) && t@
            == "Termination returned error: "@ + signed_decimal(code as int)),
{
    if code == 0 {
        Ok(())
    } else if code > 0 {
        Err(CommandError::ReturnCodeError(code))
    } else {
        Err(CommandError::ChildTerminationError(termination_text(code)))
    }
}

/// The text describing a command that was terminated with `code`.
fn termination_text(code: i32) -> (r: String)
    ensures
        r@ == "Termination returned error: "@ + signed_decimal(code as int),
{
    concat(&own("Termination returned error: "), &i32_to_decimal(code))
}

} // verus!
