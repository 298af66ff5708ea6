use vstd::prelude::*;

verus! {

/// Failure taxonomy of one agent run.
///
/// `Environment` covers unreadable directories or files and a transfer or
/// remote-execution program that could not be started; `Data` covers a
/// certificate directory with no qualifying certificate file; `Remote`
/// covers an external program that ran but exited with nonzero status.
#[derive(Clone, Copy, Debug, PartialEq, Eq, Structural)]
pub enum AgentError {
    Environment,
    Data,
    Remote,
}

} // verus!
