//! The steps of a capture that runs until it is interrupted.
//!
//! The owner of the capture waits for a shutdown request for a bounded time,
//! then asks here what to do. Whatever the answer, packets that the capture
//! handle has already buffered are written out before the process leaves on
//! request, so that none of them is lost.

use vstd::prelude::*;

verus! {

/// What waiting for a shutdown request ended in.
#[derive(Clone, Copy, Debug, PartialEq, Eq, Structural)]
pub enum Wait {
    /// A shutdown was requested.
    Requested,
    /// Nobody is left who could request a shutdown.
    Disconnected,
    /// The wait ran out without a request.
    TimedOut,
}

/// What the owner of the capture does next.
#[derive(Clone, Copy, Debug, PartialEq, Eq, Structural)]
pub struct Step {
    /// Whether to write out the packets that are buffered and flush the file.
    pub drain: bool,
    /// Whether to report the full statistics of the capture after draining.
    pub report: bool,
    /// The exit status to leave with, or `None` to go on capturing.
    pub exit: Option<i32>,
}

/// The step that follows a wait: a request drains, reports and leaves with
/// success; a lost requester leaves with failure at once; a wait that ran
/// out drains and goes on.
pub open spec fn step_after(wait: Wait) -> Step {
    match wait {
        Wait::Requested => Step { drain: true, report: true, exit: Some(0) },
        Wait::Disconnected => Step { drain: false, report: false, exit: Some(1) },
        Wait::TimedOut => Step { drain: true, report: false, exit: None },
    }
}

/// The step that follows a wait; see [`step_after`].
pub fn next_step(wait: Wait) -> (step: Step)
    ensures
        step == step_after(wait),
{
    match wait {
        Wait::Requested => Step { drain: true, report: true, exit: Some(0) },
        Wait::Disconnected => Step { drain: false, report: false, exit: Some(1) },
        Wait::TimedOut => Step { drain: true, report: false, exit: None },
    }
}

/// A shutdown that was requested is honoured after one wait, and not before
/// what is buffered has been written out.
pub proof fn lemma_request_drains_before_leaving(wait: Wait)
    ensures
        wait == Wait::Requested ==> step_after(wait).drain && step_after(wait).exit == Some(0i32),
        step_after(wait).exit == Some(0i32) ==> step_after(wait).drain,
        step_after(wait).exit is None <==> wait == Wait::TimedOut,
{
}

} // verus!
