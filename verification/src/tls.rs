//! TLS-layer configuration: what each side of the encrypted carrier is
//! built from.
//!
//! The handshakes themselves need a TLS implementation and run outside
//! the library; these types carry the configuration the stack is built
//! from, and the connection wrapper forwards the packet stream.

use vstd::prelude::*;

use crate::endpoint::StreamIo;
use crate::errors::TunnelError;

verus! {

/// A TLS server connector: wraps an inner connector and holds the
/// identity to present, a PKCS#12 archive and its password.
pub struct ServerConnector<T> {
    /// The wrapped connector producing the plain carrier.
    pub connector: T,
    /// Where the PKCS#12 identity archive lies.
    pub pkcs12_path: String,
    /// The password the archive is protected with.
    pub pkcs12_password: String,
}

/// A TLS client connector: wraps an inner connector and holds the server
/// name to verify, and whether verification is waived for development.
pub struct ClientConnector<T> {
    /// The wrapped connector producing the plain carrier.
    pub connector: T,
    /// The server name presented and verified during the handshake.
    pub hostname: String,
    /// Whether an invalid certificate is accepted anyway.
    pub accept_invalid_certs: bool,
}

/// A transparent wrapper around an established TLS session, forwarding
/// reads, writes and flushes unchanged.
pub struct Connection<T> {
    /// The established session.
    pub inner: T,
}

impl<T: StreamIo> StreamIo for Connection<T> {
    open spec fn delivered(&self) -> Seq<u8> {
        self.inner.delivered()
    }

    open spec fn accepted(&self) -> Seq<u8> {
        self.inner.accepted()
    }

    fn recv(&mut self, buf: &mut Vec<u8>) -> (r: Result<usize, TunnelError>) {
        self.inner.recv(buf)
    }

    fn send(&mut self, buf: &Vec<u8>) -> (r: Result<usize, TunnelError>) {
        self.inner.send(buf)
    }

    fn flush(&mut self) -> (r: Result<(), TunnelError>) {
        self.inner.flush()
    }
}

} // verus!
