//! Rules shared by the concrete socket adapters: the credentials of the
//! TLS+WebSocket stack and the receive-size guard.
//!
//! The adapters themselves (TCP, TLS sessions, the WebSocket handshake)
//! run outside the library and consult these functions for every
//! decision that is not I/O.

use vstd::prelude::*;

use crate::errors::TunnelError;
use crate::websocket::{authorization_value, Authentication};

verus! {

/// HTTP Basic credentials for the TLS+WebSocket listener and connector.
pub struct BasicAuthentication {
    /// The user name, sent before the colon.
    pub username: String,
    /// The password, sent after the colon.
    pub password: String,
}

impl BasicAuthentication {
    /// Builds the `Authorization` header value these credentials put on
    /// the upgrade request.
    pub fn autherization(&self) -> (r: Vec<u8>)
        ensures
            r@ == authorization_value(self.username@, self.password@),
    {
        let auth = Authentication {
            username: self.username.clone(),
            password: self.password.clone(),
        };
        auth.autherization()
    }
}

/// The guard a receiver applies before copying a message into its
/// buffer: a message larger than the buffer is a fatal error — it means
/// the peer's MTU does not fit this side's buffers.
pub fn check_received_len(received: usize, buf_len: usize) -> (r: Result<(), TunnelError>)
    ensures
        r is Ok <==> received <= buf_len,
        r matches Err(e) ==> e == TunnelError::Oversized,
{
    if received <= buf_len {
        Ok(())
    } else {
        Err(TunnelError::Oversized)
    }
}

} // verus!
