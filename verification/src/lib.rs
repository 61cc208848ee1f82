//! A point-to-point layer-3 tunnel library: two peers forward whole IPv4
//! packets between a local TUN interface and an authenticated, encrypted
//! WebSocket transport.
//!
//! This crate holds the verified core: the packet-framing state machine that
//! respects the IPv4 total-length field, the event-driven pump logic, the
//! peer handshake encoding, the HTTP Basic authorization rules, and the
//! retry/backoff rules.  The unverified shell around it (sockets, TLS,
//! the TUN device, epoll) lives outside this crate and drives these state
//! machines with plain values.

pub mod datagram;
pub mod endpoint;
pub mod errors;
pub mod frame;
pub mod message;
pub mod poller;
pub mod retry;
pub mod sockets;
pub mod tls;
pub mod websocket;
