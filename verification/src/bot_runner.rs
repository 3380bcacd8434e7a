//! Bot process teardown decisions.
//!
//! A bot is a locally spawned subprocess standing in for a remote client.
//! Spawning, piping and signalling live in the host; the engine owns the
//! one decision with a contract worth stating: what a kill request means.
//! Killing is idempotent teardown — a process that already exited must
//! count as successfully killed, never as an error to the caller.

use vstd::prelude::*;

verus! {

/// What the host observed about a bot process before signalling it.
#[derive(Clone, Copy, Debug, PartialEq, Eq, Structural)]
pub enum ProcessStatus {
    /// The process was still running.
    Running,
    /// The process had already exited on its own.
    Exited,
}

/// The verdict on one kill request.
#[derive(Clone, Copy, Debug, PartialEq, Eq, Structural)]
pub enum KillVerdict {
    /// The process was running and the kill signal was delivered.
    Killed,
    /// The process had already exited: nothing to do, and no error.
    AlreadyDead,
    /// The process was running and the kill signal could not be delivered.
    Failed,
}

/// The verdict as a function of what was observed: an exited process is
/// `AlreadyDead` whatever the signalling layer reported, a running one
/// follows the signal delivery.
pub open spec fn spec_kill_verdict(status: ProcessStatus, signal_delivered: bool) -> KillVerdict {
    match status {
        ProcessStatus::Exited => KillVerdict::AlreadyDead,
        ProcessStatus::Running => if signal_delivered {
            KillVerdict::Killed
        } else {
            KillVerdict::Failed
        },
    }
}

/// A kill request succeeds unless a running process could not be signalled.
pub open spec fn spec_kill_succeeded(v: KillVerdict) -> bool {
    !(v is Failed)
}

/// Decide the verdict on one kill request. `status` is what the host
/// observed about the process; `signal_delivered` is whether its kill
/// signal went through.
pub fn kill_verdict(status: ProcessStatus, signal_delivered: bool) -> (r: KillVerdict)
    ensures
        r == spec_kill_verdict(status, signal_delivered),
{
    match status {
        ProcessStatus::Exited => KillVerdict::AlreadyDead,
        ProcessStatus::Running => if signal_delivered {
            KillVerdict::Killed
        } else {
            KillVerdict::Failed
        },
    }
}

/// Whether a verdict counts as success.
pub fn kill_succeeded(v: &KillVerdict) -> (r: bool)
    ensures
        r == spec_kill_succeeded(*v),
{
    match v {
        KillVerdict::Failed => false,
        _ => true,
    }
}

/// Killing a client whose process has already exited succeeds, whatever
/// the signalling layer would have reported: kill is idempotent.
pub proof fn lemma_kill_exited_succeeds(signal_delivered: bool)
    ensures
        spec_kill_succeeded(spec_kill_verdict(ProcessStatus::Exited, signal_delivered)),
{
}

} // verus!
