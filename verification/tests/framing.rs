//! Framing behaviour: packets cut from a byte stream at the IPv4
//! total-length boundary, whatever the segmentation.

use simple_tunnel::endpoint::{decode_stream, PacketBuf};
use simple_tunnel::errors::TunnelError;

/// A well-formed IPv4-style packet of the given total length, filled with
/// a marker byte so payloads can be told apart.
fn packet(len: usize, marker: u8) -> Vec<u8> {
    assert!(len >= 20 && len <= 0xFFFF);
    let mut p = vec![marker; len];
    p[0] = 0x45;
    p[1] = 0x00;
    p[2] = (len >> 8) as u8;
    p[3] = (len & 0xFF) as u8;
    p
}

#[test]
fn single_packet_emerges_verbatim() {
    let p = packet(84, 0xAA);
    let out = decode_stream(&vec![p.clone()], 2048).unwrap();
    assert_eq!(out, vec![p]);
}

#[test]
fn segmentation_does_not_matter() {
    let mut stream = Vec::new();
    for i in 0..7u8 {
        stream.extend_from_slice(&packet(20 + 13 * i as usize, i));
    }
    // One chunk per byte.
    let bytewise: Vec<Vec<u8>> = stream.iter().map(|b| vec![*b]).collect();
    // A few uneven cuts.
    let mut uneven: Vec<Vec<u8>> = Vec::new();
    let mut pos = 0;
    let mut step = 1;
    while pos < stream.len() {
        let end = (pos + step).min(stream.len());
        uneven.push(stream[pos..end].to_vec());
        pos = end;
        step = step % 37 + 3;
    }
    // The whole stream at once.
    let whole = vec![stream.clone()];

    let a = decode_stream(&bytewise, 2048).unwrap();
    let b = decode_stream(&uneven, 2048).unwrap();
    let c = decode_stream(&whole, 2048).unwrap();
    assert_eq!(a, b);
    assert_eq!(b, c);
    assert_eq!(c.len(), 7);
    for (i, p) in c.iter().enumerate() {
        assert_eq!(p, &packet(20 + 13 * i, i as u8));
    }
}

#[test]
fn order_is_preserved_over_large_burst() {
    // A burst of 1000 packets of length 1400 arrives in order, none lost.
    let mut chunks = Vec::new();
    for i in 0..1000u32 {
        let mut p = packet(1400, (i % 251) as u8);
        p[4] = (i >> 8) as u8;
        p[5] = (i & 0xFF) as u8;
        chunks.push(p);
    }
    let out = decode_stream(&chunks, 8 * 1024).unwrap();
    assert_eq!(out.len(), 1000);
    for (i, p) in out.iter().enumerate() {
        assert_eq!(p.len(), 1400);
        assert_eq!(((p[4] as usize) << 8) | p[5] as usize, i);
    }
}

#[test]
fn trailing_partial_packet_is_not_emitted() {
    let p = packet(100, 1);
    let mut chunks = vec![p.clone()];
    chunks.push(packet(60, 2)[..30].to_vec());
    let out = decode_stream(&chunks, 2048).unwrap();
    assert_eq!(out, vec![p]);
}

#[test]
fn short_declared_length_is_fatal() {
    // Declared total length 5 is below the minimum header size.
    let mut bad = vec![0u8; 20];
    bad[2] = 0;
    bad[3] = 5;
    let r = decode_stream(&vec![bad], 2048);
    assert_eq!(r.unwrap_err(), TunnelError::ShortPacket);
}

#[test]
fn short_declared_length_behind_a_good_packet_is_fatal() {
    let mut chunks = vec![packet(50, 7)];
    let mut bad = vec![0u8; 20];
    bad[3] = 19;
    chunks.push(bad);
    let r = decode_stream(&chunks, 2048);
    assert_eq!(r.unwrap_err(), TunnelError::ShortPacket);
}

#[test]
fn oversized_declared_length_is_fatal() {
    // Declared total length 10000 against a 2048-byte buffer.
    let mut bad = vec![0u8; 20];
    bad[2] = (10000u16 >> 8) as u8;
    bad[3] = (10000u16 & 0xFF) as u8;
    let r = decode_stream(&vec![bad], 2048);
    assert_eq!(r.unwrap_err(), TunnelError::Oversized);
}

#[test]
fn packet_of_exactly_buffer_size_passes() {
    let p = packet(2048, 9);
    let out = decode_stream(&vec![p.clone()], 2048).unwrap();
    assert_eq!(out, vec![p]);
}

#[test]
fn empty_chunks_change_nothing() {
    let p = packet(40, 3);
    let chunks = vec![Vec::new(), p.clone(), Vec::new()];
    let out = decode_stream(&chunks, 2048).unwrap();
    assert_eq!(out, vec![p]);
}

#[test]
fn restart_drops_only_in_flight_bytes_and_replays_nothing() {
    // A transport failure mid-stream: the first lifetime delivered two
    // whole packets and half of a third; after the restart the sender
    // goes on with new packets.  What arrives is the two whole packets,
    // then exactly the new ones — the half packet is dropped and nothing
    // is delivered twice.
    let p1 = packet(40, 1);
    let p2 = packet(52, 2);
    let p3 = packet(64, 3);
    let mut first_life = Vec::new();
    first_life.extend_from_slice(&p1);
    first_life.extend_from_slice(&p2);
    first_life.extend_from_slice(&p3[..32]);

    let delivered_before = decode_stream(&vec![first_life], 2048).unwrap();
    assert_eq!(delivered_before, vec![p1, p2]);

    // The supervisor rebuilds the transport; the pump starts from fresh
    // buffers.
    let p4 = packet(44, 4);
    let p5 = packet(48, 5);
    let mut second_life = Vec::new();
    second_life.extend_from_slice(&p4);
    second_life.extend_from_slice(&p5);
    let delivered_after = decode_stream(&vec![second_life], 2048).unwrap();
    assert_eq!(delivered_after, vec![p4, p5]);
}

#[test]
fn packet_buf_reports_readiness_only_when_whole() {
    let mut buf = PacketBuf::with_capacity(2048);
    assert!(!buf.ready_to_write());
    let p = packet(30, 6);
    let consumed = buf.feed(&p[..10].to_vec(), 0).unwrap();
    assert_eq!(consumed, 10);
    assert!(!buf.ready_to_write());
    let consumed = buf.feed(&p[10..].to_vec(), 0).unwrap();
    assert_eq!(consumed, 20);
    assert!(buf.ready_to_write());
    let got = buf.take_packet().unwrap();
    assert_eq!(got, p);
    assert!(!buf.ready_to_write());
}
