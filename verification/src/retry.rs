//! The retry supervisor's rules: which failures mean the transport is
//! gone, and how long to back off before rebuilding it.
//!
//! The supervisor itself performs connects and sleeps, so it runs outside
//! the library; it asks these functions what to do.

use std::sync::Arc;

use vstd::prelude::*;

use crate::errors::TunnelError;

verus! {

/// Wraps a connector so the pump can be restarted on the same
/// configuration after a transport failure.  The connector stack is
/// immutable and freely shared.
pub struct RetryConnector<T> {
    /// The wrapped connector, shared between the supervisor and the
    /// transports it hands out.
    pub connector: Arc<T>,
}

impl<T> RetryConnector<T> {
    /// Shares the given connector.
    pub fn new(connector: T) -> (r: Self)
        ensures
            r.connector == connector,
    {
        Self { connector: Arc::new(connector) }
    }
}

/// The supervisor's phases: a transport is in use, or a replacement is
/// being built.
#[derive(Clone, Copy, Debug, PartialEq, Eq, Structural)]
pub enum RetryState {
    /// A transport is connected and the pump runs on it.
    Ready,
    /// The transport failed; a new connect is in progress.
    Connecting,
}

/// What to do with a transport operation's outcome.
#[derive(Clone, Copy, Debug, PartialEq, Eq, Structural)]
pub enum RetryStep {
    /// Hand the outcome to the caller.
    Deliver,
    /// Drop the transport and rebuild it.
    Reconnect,
}

/// Whether a failed transport operation means the connection itself is
/// gone: end of file, or the unspecified failures that wrap carrier and
/// protocol errors.
pub fn is_connection_error<T>(res: &Result<T, TunnelError>) -> (r: bool)
    ensures
        r <==> (res is Err && (res->Err_0 == TunnelError::UnexpectedEof || res->Err_0
            == TunnelError::Other)),
{
    if let Err(err) = res {
        match err {
            TunnelError::UnexpectedEof => true,
            TunnelError::Other => true,
            _ => false,
        }
    } else {
        false
    }
}

/// The supervisor's transition on a transport outcome: reconnect exactly
/// on a connection error, deliver everything else.
pub fn retry_decision<T>(state: RetryState, res: &Result<T, TunnelError>) -> (r: (
    RetryState,
    RetryStep,
))
    requires
        state == RetryState::Ready,
    ensures
        (res is Err && (res->Err_0 == TunnelError::UnexpectedEof || res->Err_0
            == TunnelError::Other)) ==> r == (RetryState::Connecting, RetryStep::Reconnect),
        !(res is Err && (res->Err_0 == TunnelError::UnexpectedEof || res->Err_0
            == TunnelError::Other)) ==> r == (RetryState::Ready, RetryStep::Deliver),
{
    if is_connection_error(res) {
        (RetryState::Connecting, RetryStep::Reconnect)
    } else {
        (state, RetryStep::Deliver)
    }
}

/// The backoff before a reconnect attempt: a fixed second plus a jitter
/// drawn from the top bits of a random sample, so simultaneous restarts
/// spread out over 1000 to 2023 milliseconds.
pub fn backoff_ms(jitter: u16) -> (r: u64)
    ensures
        r == 1000 + (jitter >> 6),
        1000 <= r <= 2023,
{
    proof {
        assert(jitter >> 6 <= 1023) by (bit_vector);
    }
    1000 + (jitter >> 6) as u64
}

/// Relies on rand::random for a uniformly distributed sample; nothing is
/// promised of the value.
#[verifier::external_body]
fn random_u16() -> u16 {
    rand::random::<u16>()
}

/// Draws the jittered backoff for the next reconnect attempt.
pub fn backoff_with_jitter() -> (r: u64)
    ensures
        1000 <= r <= 2023,
{
    let jitter = random_u16();
    backoff_ms(jitter)
}

} // verus!
