//! The result of one external command invocation and the classification
//! rules the handlers apply to it.

use vstd::prelude::*;
use crate::text::{bytes_copy, trim, trim_spec};

verus! {

/// Mathematical model of a finished command invocation.
pub ghost struct CommandResultSpec {
    pub exit_succeeded: bool,
    pub stdout: Seq<u8>,
    pub stderr: Seq<u8>,
}

/// What one external command invocation produced: whether it exited
/// successfully, and its captured standard output and standard error. A
/// command that could not be started at all never yields such a value.
pub struct CommandResult {
    pub exit_succeeded: bool,
    pub stdout: Vec<u8>,
    pub stderr: Vec<u8>,
}

impl View for CommandResult {
    type V = CommandResultSpec;

    open spec fn view(&self) -> CommandResultSpec {
        CommandResultSpec {
            exit_succeeded: self.exit_succeeded,
            stdout: self.stdout@,
            stderr: self.stderr@,
        }
    }
}

/// Classifies a service-control invocation: a successful exit yields the
/// trimmed standard output, also when that output is empty; a failed exit
/// yields the captured standard error.
pub fn systemctl_outcome(result: &CommandResult) -> (r: Result<Vec<u8>, Vec<u8>>)
    ensures
        result@.exit_succeeded ==> (r matches Ok(s) && s@ == trim_spec(result@.stdout)),
        !result@.exit_succeeded ==> (r matches Err(e) && e@ == result@.stderr),
{
    if result.exit_succeeded {
        Ok(trim(result.stdout.as_slice()))
    } else {
        Err(bytes_copy(result.stderr.as_slice()))
    }
}

/// Classifies a passthrough invocation (firmware memory report, traceroute,
/// bandwidth test): a successful exit yields the raw standard output, a
/// failed exit yields the captured standard error.
pub fn passthrough_reply(result: &CommandResult) -> (r: Result<Vec<u8>, Vec<u8>>)
    ensures
        result@.exit_succeeded ==> (r matches Ok(o) && o@ == result@.stdout),
        !result@.exit_succeeded ==> (r matches Err(e) && e@ == result@.stderr),
{
    if result.exit_succeeded {
        Ok(bytes_copy(result.stdout.as_slice()))
    } else {
        Err(bytes_copy(result.stderr.as_slice()))
    }
}

} // verus!
