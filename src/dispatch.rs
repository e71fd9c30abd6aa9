//! What the event loop decides while it accepts new connections, and when a
//! receive on the active connection fails.

use vstd::prelude::*;
use crate::pool::Pool;

verus! {

/// Why a receive produced no message.
#[derive(Clone, Copy, Debug, PartialEq, Eq, Structural)]
pub enum ReceiveFailure {
    /// Nothing more to read right now; try again on a later pass.
    WouldBlock,
    /// The peer went away; expected on disconnect.
    PeerReset,
    /// Any other I/O or decode failure.
    Other,
}

/// Ends the draining of the active connection after a failed receive. A
/// would-block leaves the connection as it is; a peer reset marks it for
/// closing silently; any other failure marks it for closing and is to be
/// logged. Returns whether to log.
pub fn on_receive_failure<T>(pool: &mut Pool<T>, failure: ReceiveFailure) -> (log: bool)
    ensures
        log == (failure == ReceiveFailure::Other),
        final(pool).items() == old(pool).items(),
        final(pool).cursor() == old(pool).cursor(),
        final(pool).closing() == (old(pool).closing() || failure != ReceiveFailure::WouldBlock),
{
    match failure {
        ReceiveFailure::WouldBlock => false,
        ReceiveFailure::PeerReset => {
            pool.close_conn();
            false
        },
        ReceiveFailure::Other => {
            pool.close_conn();
            true
        },
    }
}

/// What one attempt to take a pending connection gave.
#[derive(Clone, Copy, Debug, PartialEq, Eq, Structural)]
pub enum AcceptOutcome {
    /// A connection was accepted and its transport set up.
    Ready,
    /// No connection is pending.
    WouldBlock,
    /// Accepting, or setting up the transport, failed for this candidate.
    Failed,
}

/// What the event loop does with the outcome of one accept.
#[derive(Clone, Copy, Debug, PartialEq, Eq, Structural)]
pub enum AcceptAction {
    /// Add the connection to the pool and accept the next.
    AddAndContinue,
    /// Log the failure and accept the next: one bad candidate does not stop
    /// the others.
    LogAndContinue,
    /// Nothing more is pending: go on to the connections of the pool.
    StopAccepting,
}

/// Decides how draining the pending connections goes on after one accept.
pub fn accept_step(outcome: AcceptOutcome) -> (a: AcceptAction)
    ensures
        outcome == AcceptOutcome::Ready ==> a == AcceptAction::AddAndContinue,
        outcome == AcceptOutcome::Failed ==> a == AcceptAction::LogAndContinue,
        outcome == AcceptOutcome::WouldBlock ==> a == AcceptAction::StopAccepting,
{
    match outcome {
        AcceptOutcome::Ready => AcceptAction::AddAndContinue,
        AcceptOutcome::WouldBlock => AcceptAction::StopAccepting,
        AcceptOutcome::Failed => AcceptAction::LogAndContinue,
    }
}

} // verus!
