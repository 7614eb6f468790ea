//! The drain loop's control logic, as a state machine over plain values.
//!
//! The loop alternates between waiting for its timer and draining.  The
//! surrounding binary owns the timer and the sink connection; it feeds
//! each event in and performs the action handed back.  A severed sink is
//! fatal: the machine orders an immediate exit with a non-zero status and
//! never a retry, since a drained batch is at-most-once and a telemetry
//! agent without its sink is treated as unrecoverable.

use vstd::prelude::*;

verus! {

/// Where the drain loop stands.
#[derive(Clone, Copy, Debug, PartialEq, Eq, Structural)]
pub enum DrainState {
    Idle,
    Draining,
}

/// What the surrounding binary reports to the loop.
#[derive(Clone, Copy, Debug, PartialEq, Eq, Structural)]
pub enum DrainEvent {
    TimerFired,
    SendSucceeded,
    SendFailed,
}

/// What the loop orders the surrounding binary to do next.
#[derive(Clone, Copy, Debug, PartialEq, Eq, Structural)]
pub enum DrainAction {
    KeepWaiting,
    DrainAndSend,
    ExitFailure,
}

/// The drain loop's transition function: a timer fire while idle starts
/// one drain-and-send; a delivered batch returns the loop to waiting; a
/// send failure exits the process with a non-zero status, with no second
/// send attempt.  Any other pairing is ignored.
pub open spec fn drain_step_spec(s: DrainState, e: DrainEvent) -> (DrainState, DrainAction) {
    match (s, e) {
        (DrainState::Idle, DrainEvent::TimerFired) => (
            DrainState::Draining,
            DrainAction::DrainAndSend,
        ),
        (DrainState::Draining, DrainEvent::SendSucceeded) => (
            DrainState::Idle,
            DrainAction::KeepWaiting,
        ),
        (DrainState::Draining, DrainEvent::SendFailed) => (
            DrainState::Idle,
            DrainAction::ExitFailure,
        ),
        _ => (s, DrainAction::KeepWaiting),
    }
}

/// Advance the drain loop by one event.
pub fn drain_step(s: DrainState, e: DrainEvent) -> (r: (DrainState, DrainAction))
    ensures
        r == drain_step_spec(s, e),
{
    match (s, e) {
        (DrainState::Idle, DrainEvent::TimerFired) => (
            DrainState::Draining,
            DrainAction::DrainAndSend,
        ),
        (DrainState::Draining, DrainEvent::SendSucceeded) => (
            DrainState::Idle,
            DrainAction::KeepWaiting,
        ),
        (DrainState::Draining, DrainEvent::SendFailed) => (
            DrainState::Idle,
            DrainAction::ExitFailure,
        ),
        (s2, _) => (s2, DrainAction::KeepWaiting),
    }
}

/// A send failure is answered with an exit order and nothing else: no
/// state the machine can be in answers a failure with another send.
pub proof fn lemma_send_failure_is_fatal(s: DrainState)
    ensures
        s == DrainState::Draining ==> drain_step_spec(s, DrainEvent::SendFailed).1
            == DrainAction::ExitFailure,
        drain_step_spec(s, DrainEvent::SendFailed).1 != DrainAction::DrainAndSend,
{
}

} // verus!
