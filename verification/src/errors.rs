//! Error classification for the tunnel.
//!
//! The pump distinguishes only a few kinds of failure: "would block" is
//! backpressure and never an error, a zero-length read is end of file, an
//! oversized or short packet means the peer is misconfigured or malformed,
//! and everything else is an unspecified I/O failure.

use vstd::prelude::*;

verus! {

/// The error kinds that the tunnel's state machines distinguish.
#[derive(Clone, Copy, Debug, PartialEq, Eq, Structural)]
pub enum TunnelError {
    /// The operation would block; not an error, the caller re-arms interest.
    WouldBlock,
    /// The peer closed the stream (a read of size zero).
    UnexpectedEof,
    /// A received message does not fit the receive buffer.
    Oversized,
    /// A declared IPv4 total length shorter than the minimum header.
    ShortPacket,
    /// Any other I/O or protocol failure.
    Other,
}

/// Tells backpressure apart from real failure: `Ok(true)` when the inner
/// operation reported "would block", `Ok(false)` when it succeeded, and the
/// error itself otherwise.
pub fn is_blocked(res: Result<(), TunnelError>) -> (r: Result<bool, TunnelError>)
    ensures
        res matches Ok(()) ==> r == Ok::<bool, TunnelError>(false),
        res matches Err(e) ==> r == if e == TunnelError::WouldBlock {
            Ok::<bool, TunnelError>(true)
        } else {
            Err::<bool, TunnelError>(e)
        },
{
    match res {
        Err(e) if e == TunnelError::WouldBlock => Ok(true),
        Err(e) => Err(e),
        _ => Ok(false),
    }
}

/// Converts a raw system-call return value into a result: every value except
/// `-1` is success.
pub fn cvt(t: i32) -> (r: Result<i32, TunnelError>)
    ensures
        t == -1 ==> r == Err::<i32, TunnelError>(TunnelError::Other),
        t != -1 ==> r == Ok::<i32, TunnelError>(t),
{
    if t == -1 {
        Err(TunnelError::Other)
    } else {
        Ok(t)
    }
}

} // verus!
