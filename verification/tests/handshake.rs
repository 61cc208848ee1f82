//! The peer handshake: 4 address bytes each way, big endian, before any
//! payload.

use std::collections::VecDeque;

use simple_tunnel::endpoint::{read_peer_info, write_peer_info, PeerInfo, StreamIo};
use simple_tunnel::errors::TunnelError;

/// An in-memory duplex pipe end: what one side sends the same side's
/// `recv` replays, chunked as queued.
struct Pipe {
    incoming: VecDeque<Vec<u8>>,
    outgoing: Vec<u8>,
    eof: bool,
}

impl Pipe {
    fn new() -> Self {
        Pipe { incoming: VecDeque::new(), outgoing: Vec::new(), eof: false }
    }
}

impl StreamIo for Pipe {
    fn recv(&mut self, buf: &mut Vec<u8>) -> Result<usize, TunnelError> {
        match self.incoming.pop_front() {
            None => {
                if self.eof {
                    Err(TunnelError::UnexpectedEof)
                } else {
                    Err(TunnelError::WouldBlock)
                }
            }
            Some(mut chunk) => {
                if chunk.len() > buf.len() {
                    let rest = chunk.split_off(buf.len());
                    self.incoming.push_front(rest);
                }
                buf[..chunk.len()].copy_from_slice(&chunk);
                Ok(chunk.len())
            }
        }
    }

    fn send(&mut self, buf: &Vec<u8>) -> Result<usize, TunnelError> {
        self.outgoing.extend_from_slice(buf);
        Ok(buf.len())
    }

    fn flush(&mut self) -> Result<(), TunnelError> {
        Ok(())
    }
}

#[test]
fn encode_is_four_bytes_big_endian() {
    let p = PeerInfo { ip: [192, 168, 200, 2] };
    assert_eq!(p.encode(), vec![192, 168, 200, 2]);
}

#[test]
fn round_trip_preserves_the_address() {
    let p = PeerInfo { ip: [10, 0, 0, 1] };
    let q = PeerInfo::decode(&p.encode());
    assert_eq!(q, p);
}

#[test]
fn both_sides_agree_before_any_payload() {
    // The server announces .1, the client .2; each reads what the other
    // wrote and only those four bytes.
    let server = PeerInfo { ip: [192, 168, 200, 1] };
    let client = PeerInfo { ip: [192, 168, 200, 2] };

    let mut server_conn = Pipe::new();
    let mut client_conn = Pipe::new();

    write_peer_info(&mut server_conn, server).unwrap();
    write_peer_info(&mut client_conn, client).unwrap();
    assert_eq!(server_conn.outgoing, vec![192, 168, 200, 1]);
    assert_eq!(client_conn.outgoing, vec![192, 168, 200, 2]);

    // Deliver each side's bytes to the other, followed by payload bytes
    // that must not be touched by the handshake.
    server_conn.incoming.push_back(client_conn.outgoing.clone());
    server_conn.incoming.push_back(vec![0xDE, 0xAD]);
    client_conn.incoming.push_back(server_conn.outgoing.clone());

    let seen_by_server = read_peer_info(&mut server_conn).unwrap();
    let seen_by_client = read_peer_info(&mut client_conn).unwrap();
    assert_eq!(seen_by_server, client);
    assert_eq!(seen_by_client, server);
    // The payload is still queued: the handshake consumed exactly 4 bytes.
    assert_eq!(server_conn.incoming.front().unwrap(), &vec![0xDE, 0xAD]);
}

#[test]
fn split_handshake_bytes_are_reassembled() {
    let mut conn = Pipe::new();
    conn.incoming.push_back(vec![10]);
    conn.incoming.push_back(vec![1, 2]);
    conn.incoming.push_back(vec![3]);
    let p = read_peer_info(&mut conn).unwrap();
    assert_eq!(p, PeerInfo { ip: [10, 1, 2, 3] });
}

#[test]
fn handshake_then_immediate_close_reports_eof() {
    // The client closes right after the 4-byte exchange: the server's
    // next read observes end of file, which the supervisor treats as a
    // connection error, not a crash.
    let mut conn = Pipe::new();
    conn.incoming.push_back(vec![192, 168, 200, 2]);
    conn.eof = true;
    let p = read_peer_info(&mut conn).unwrap();
    assert_eq!(p, PeerInfo { ip: [192, 168, 200, 2] });
    let r = read_peer_info(&mut conn);
    assert_eq!(r.unwrap_err(), TunnelError::UnexpectedEof);
}
