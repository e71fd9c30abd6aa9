//! The decisions of the encrypted transport's setup: the handshake is
//! driven until it completes, retrying after a short pause while the
//! socket would block and giving up on any other failure.

use vstd::prelude::*;

verus! {

/// How long to wait before retrying handshake I/O that would block.
pub const HANDSHAKE_RETRY_MILLIS: u64 = 30;

/// What the last attempt at handshake I/O gave.
#[derive(Clone, Copy, Debug, PartialEq, Eq, Structural)]
pub enum HandshakeIo {
    /// It went through (or nothing was attempted yet).
    Done,
    /// The socket would block.
    WouldBlock,
    /// Any other failure.
    Failed,
}

/// What the transport does next.
#[derive(Clone, Copy, Debug, PartialEq, Eq, Structural)]
pub enum HandshakeAction {
    /// Attempt handshake I/O now.
    Attempt,
    /// Wait this long, then attempt handshake I/O again.
    RetryAfter { millis: u64 },
    /// The handshake is complete: the transport is usable.
    Ready,
    /// Give up and report the failure.
    Abort,
}

/// Decides the next move from whether the session is still handshaking and
/// what the last attempt gave.
pub fn handshake_step(handshaking: bool, io: HandshakeIo) -> (a: HandshakeAction)
    ensures
        io == HandshakeIo::Failed ==> a == HandshakeAction::Abort,
        io == HandshakeIo::WouldBlock ==> a == (HandshakeAction::RetryAfter {
            millis: HANDSHAKE_RETRY_MILLIS,
        }),
        io == HandshakeIo::Done ==> a == (if handshaking {
            HandshakeAction::Attempt
        } else {
            HandshakeAction::Ready
        }),
{
    match io {
        HandshakeIo::Failed => HandshakeAction::Abort,
        HandshakeIo::WouldBlock => HandshakeAction::RetryAfter { millis: HANDSHAKE_RETRY_MILLIS },
        HandshakeIo::Done => if handshaking {
            HandshakeAction::Attempt
        } else {
            HandshakeAction::Ready
        },
    }
}

} // verus!
