use vstd::prelude::*;

use crate::errors::AgentError;

verus! {

/// The outcome of one external program invocation: the child ran and
/// exited zero, the child could not be started at all, or the child ran
/// and exited with nonzero status.
#[derive(Clone, Copy, Debug, PartialEq, Eq, Structural)]
pub enum StepOutcome {
    Succeeded,
    FailedToStart,
    ExitedNonzero,
}

pub open spec fn spec_outcome_error(o: StepOutcome) -> Option<AgentError> {
    match o {
        StepOutcome::Succeeded => None,
        StepOutcome::FailedToStart => Some(AgentError::Environment),
        StepOutcome::ExitedNonzero => Some(AgentError::Remote),
    }
}

/// The failure kind of an invocation outcome, `None` on success: a child
/// that could not start is an environment fault, a child that ran but
/// exited nonzero is a remote fault, so callers branch on the kind rather
/// than on message text.
pub fn outcome_error(o: StepOutcome) -> (r: Option<AgentError>)
    ensures
        r == spec_outcome_error(o),
{
    match o {
        StepOutcome::Succeeded => None,
        StepOutcome::FailedToStart => Some(AgentError::Environment),
        StepOutcome::ExitedNonzero => Some(AgentError::Remote),
    }
}

/// The argument vector of one file transfer: the configured options
/// followed by the local source path and the remote destination.
pub fn transfer_args(options: Vec<String>, source: String, dest: String) -> (args: Vec<String>)
    ensures
        args@ == options@.push(source).push(dest),
{
    let mut args = options;
    args.push(source);
    args.push(dest);
    args
}

/// The argument vector of one remote command execution: the configured
/// options followed by the account and the command string.
pub fn remote_exec_args(options: Vec<String>, account: String, command: String) -> (args: Vec<
    String,
>)
    ensures
        args@ == options@.push(account).push(command),
{
    let mut args = options;
    args.push(account);
    args.push(command);
    args
}

} // verus!
