//! The stream wrappers and the single-packet reader.

use std::collections::VecDeque;

use simple_tunnel::endpoint::{read_packet, Connection, Packet, PacketBuf, StreamIo};
use simple_tunnel::errors::TunnelError;
use simple_tunnel::tls;

struct Scripted {
    incoming: VecDeque<Vec<u8>>,
    outgoing: Vec<u8>,
    flushed: usize,
}

impl Scripted {
    fn new() -> Self {
        Scripted { incoming: VecDeque::new(), outgoing: Vec::new(), flushed: 0 }
    }
}

impl StreamIo for Scripted {
    fn recv(&mut self, buf: &mut Vec<u8>) -> Result<usize, TunnelError> {
        match self.incoming.pop_front() {
            None => Err(TunnelError::WouldBlock),
            Some(mut chunk) => {
                if chunk.len() > buf.len() {
                    let rest = chunk.split_off(buf.len());
                    self.incoming.push_front(rest);
                }
                buf[..chunk.len()].copy_from_slice(&chunk);
                Ok(chunk.len())
            }
        }
    }

    fn send(&mut self, buf: &Vec<u8>) -> Result<usize, TunnelError> {
        // Accept at most 7 bytes per call: partial sends must resume.
        let n = buf.len().min(7);
        self.outgoing.extend_from_slice(&buf[..n]);
        Ok(n)
    }

    fn flush(&mut self) -> Result<(), TunnelError> {
        self.flushed += 1;
        Ok(())
    }
}

fn packet(len: usize, marker: u8) -> Vec<u8> {
    let mut p = vec![marker; len];
    p[0] = 0x45;
    p[1] = 0x00;
    p[2] = (len >> 8) as u8;
    p[3] = (len & 0xFF) as u8;
    p
}

#[test]
fn connection_wrappers_forward_unchanged() {
    let mut inner = Scripted::new();
    inner.incoming.push_back(packet(24, 0x51));
    let mut conn = Connection { inner };
    let mut buf = PacketBuf::with_capacity(2048);
    buf.read(&mut conn).unwrap();
    assert!(buf.ready_to_write());
    buf.write(&mut conn).unwrap();
    assert_eq!(conn.inner.outgoing, packet(24, 0x51));
    assert_eq!(conn.inner.flushed, 1);

    let mut tls_inner = Scripted::new();
    tls_inner.incoming.push_back(packet(32, 0x52));
    let mut tls_conn = tls::Connection { inner: tls_inner };
    let mut buf = PacketBuf::with_capacity(2048);
    buf.read(&mut tls_conn).unwrap();
    buf.write(&mut tls_conn).unwrap();
    assert_eq!(tls_conn.inner.outgoing, packet(32, 0x52));
}

#[test]
fn partial_sends_resume_until_the_packet_is_out() {
    // The destination accepts 7 bytes at a time; the whole 60-byte packet
    // still crosses, in one `write` call that loops.
    let mut dst = Scripted::new();
    let mut buf = PacketBuf::with_capacity(2048);
    let p = packet(60, 0x60);
    let consumed = buf.feed(&p, 0).unwrap();
    assert_eq!(consumed, 60);
    buf.write(&mut dst).unwrap();
    assert_eq!(dst.outgoing, p);
}

#[test]
fn read_packet_returns_one_whole_packet() {
    let mut src = Scripted::new();
    let p = packet(84, 0x70);
    src.incoming.push_back(p[..10].to_vec());
    src.incoming.push_back(p[10..].to_vec());
    let got = read_packet(&mut src).unwrap();
    assert_eq!(got.0, p);
}

#[test]
fn read_packet_rejects_an_oversized_declaration() {
    let mut src = Scripted::new();
    let mut bad = vec![0u8; 20];
    // Larger than the reader's buffer of header room plus MTU.
    bad[2] = 0xFF;
    bad[3] = 0xFF;
    src.incoming.push_back(bad);
    let r = read_packet(&mut src);
    assert_eq!(r.unwrap_err(), TunnelError::Oversized);
}

#[test]
fn packet_with_capacity_is_empty() {
    let p = Packet::with_capacity(1532);
    assert!(p.0.is_empty());
}
