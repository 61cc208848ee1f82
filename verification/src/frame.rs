//! The framing model of the tunnel.
//!
//! A carrier without native message boundaries delivers arbitrary chunks of
//! bytes; the receiver must cut the byte stream back into whole IPv4 packets
//! using the total-length field in bytes 2 and 3 of each packet header.
//! This module defines what that cutting means mathematically, and proves
//! the properties the pump relies on: the cut is independent of how the
//! stream was segmented, preserves packet order, and a well-formed packet is
//! recovered verbatim.

use vstd::prelude::*;

verus! {

/// The minimum length of an IPv4 header, and so of any packet.
pub const IP_PACKET_HEADER_MIN_SIZE: usize = 20;

/// The total length declared in an IPv4 header: bytes 2 and 3, big endian.
pub open spec fn declared_len(bytes: Seq<u8>) -> int
    recommends
        bytes.len() >= 4,
{
    bytes[2] * 256 + bytes[3]
}

/// Whether the head of `held` is acceptable: either too short to have a
/// header yet, or its declared total length fits between the minimum header
/// size and the buffer capacity `cap`.
pub open spec fn head_ok(held: Seq<u8>, cap: int) -> bool {
    held.len() >= IP_PACKET_HEADER_MIN_SIZE ==> IP_PACKET_HEADER_MIN_SIZE <= declared_len(held)
        <= cap
}

/// The whole packets contained in a byte stream, in order, cut at the
/// declared IPv4 total lengths.  `None` means the stream is malformed for a
/// receiver with buffer capacity `cap`: some packet declares a length below
/// the minimum header size or above `cap`.  A trailing incomplete packet is
/// not part of the result.
pub open spec fn frame_packets(stream: Seq<u8>, cap: int) -> Option<Seq<Seq<u8>>>
    decreases stream.len(),
{
    if stream.len() < IP_PACKET_HEADER_MIN_SIZE {
        Some(Seq::empty())
    } else {
        let len = declared_len(stream);
        if len < IP_PACKET_HEADER_MIN_SIZE || len > cap {
            None
        } else if stream.len() < len {
            Some(Seq::empty())
        } else {
            match frame_packets(stream.skip(len), cap) {
                None => None,
                Some(rest) => Some(seq![stream.take(len)] + rest),
            }
        }
    }
}

/// The bytes of a stream left over after every whole packet has been cut
/// off: the trailing incomplete packet, possibly empty.
pub open spec fn frame_rest(stream: Seq<u8>, cap: int) -> Seq<u8>
    decreases stream.len(),
{
    if stream.len() < IP_PACKET_HEADER_MIN_SIZE {
        stream
    } else {
        let len = declared_len(stream);
        if len < IP_PACKET_HEADER_MIN_SIZE || len > cap {
            stream
        } else if stream.len() < len {
            stream
        } else {
            frame_rest(stream.skip(len), cap)
        }
    }
}

/// A single well-formed packet: its declared total length is its actual
/// length, and it fits the receiver's buffer.
pub open spec fn valid_packet(p: Seq<u8>, cap: int) -> bool {
    &&& p.len() >= IP_PACKET_HEADER_MIN_SIZE
    &&& p.len() <= cap
    &&& declared_len(p) == p.len()
}

/// The concatenation of a sequence of chunks into one byte stream.
pub open spec fn concat_chunks(chunks: Seq<Seq<u8>>) -> Seq<u8>
    decreases chunks.len(),
{
    if chunks.len() == 0 {
        Seq::empty()
    } else {
        chunks[0] + concat_chunks(chunks.drop_first())
    }
}

/// Cutting a stream is insensitive to where more bytes are appended: the
/// packets of `s + tail` are the packets of `s` followed by the packets of
/// the leftover of `s` joined with `tail`.  This is the heart of the claim
/// that segmentation does not matter.
pub proof fn lemma_frame_append(s: Seq<u8>, tail: Seq<u8>, cap: int)
    requires
        frame_packets(s, cap) is Some,
    ensures
        frame_rest(s + tail, cap) == frame_rest(frame_rest(s, cap) + tail, cap),
        frame_packets(s + tail, cap) == match frame_packets(frame_rest(s, cap) + tail, cap) {
            None => None::<Seq<Seq<u8>>>,
            Some(qs) => Some(frame_packets(s, cap)->Some_0 + qs),
        },
    decreases s.len(),
{
    let ps = frame_packets(s, cap)->Some_0;
    let r = frame_rest(s, cap);
    if s.len() < IP_PACKET_HEADER_MIN_SIZE {
        assert(r == s);
        assert(r + tail =~= s + tail);
        assert(ps =~= Seq::<Seq<u8>>::empty());
        match frame_packets(s + tail, cap) {
            None => {},
            Some(qs) => {
                assert(ps + qs =~= qs);
            },
        }
    } else {
        let len = declared_len(s);
        assert(declared_len(s + tail) == len) by {
            assert((s + tail)[2] == s[2]);
            assert((s + tail)[3] == s[3]);
        }
        if len < IP_PACKET_HEADER_MIN_SIZE || len > cap {
            assert(frame_packets(s, cap) is None);
        } else if s.len() < len {
            assert(r == s);
            assert(r + tail =~= s + tail);
            assert(ps =~= Seq::<Seq<u8>>::empty());
            match frame_packets(s + tail, cap) {
                None => {},
                Some(qs) => {
                    assert(ps + qs =~= qs);
                },
            }
        } else {
            let s2 = s.skip(len);
            assert((s + tail).len() >= len);
            assert((s + tail).skip(len) =~= s2 + tail);
            assert((s + tail).take(len) =~= s.take(len));
            assert(frame_packets(s2, cap) is Some);
            lemma_frame_append(s2, tail, cap);
            let ps2 = frame_packets(s2, cap)->Some_0;
            assert(ps =~= seq![s.take(len)] + ps2);
            assert(frame_rest(s2, cap) == r);
            match frame_packets(r + tail, cap) {
                None => {
                    assert(frame_packets(s2 + tail, cap) is None);
                    assert(frame_packets(s + tail, cap) is None);
                },
                Some(qs) => {
                    assert(frame_packets(s2 + tail, cap) == Some(ps2 + qs));
                    assert(frame_packets(s + tail, cap) == Some(
                        seq![s.take(len)] + (ps2 + qs),
                    ));
                    assert(seq![s.take(len)] + (ps2 + qs) =~= ps + qs);
                },
            }
        }
    }
}

/// Once a stream is malformed, no further bytes repair it.
pub proof fn lemma_frame_none_append(s: Seq<u8>, tail: Seq<u8>, cap: int)
    requires
        frame_packets(s, cap) is None,
    ensures
        frame_packets(s + tail, cap) is None,
    decreases s.len(),
{
    assert(s.len() >= IP_PACKET_HEADER_MIN_SIZE);
    let len = declared_len(s);
    assert(declared_len(s + tail) == len) by {
        assert((s + tail)[2] == s[2]);
        assert((s + tail)[3] == s[3]);
    }
    if len < IP_PACKET_HEADER_MIN_SIZE || len > cap {
    } else {
        assert(s.len() >= len);
        assert(frame_packets(s.skip(len), cap) is None);
        assert((s + tail).skip(len) =~= s.skip(len) + tail);
        lemma_frame_none_append(s.skip(len), tail, cap);
    }
}

/// A stream that is exactly one well-formed packet cuts into exactly that
/// packet, with nothing left over: what is injected whole emerges whole.
pub proof fn lemma_single_packet(p: Seq<u8>, cap: int)
    requires
        valid_packet(p, cap),
    ensures
        frame_packets(p, cap) == Some(seq![p]),
        frame_rest(p, cap) == Seq::<u8>::empty(),
{
    let len = declared_len(p);
    assert(p.skip(len) =~= Seq::<u8>::empty());
    assert(p.take(len) =~= p);
    assert(frame_packets(Seq::<u8>::empty(), cap) == Some(Seq::<Seq<u8>>::empty()));
    assert(frame_rest(Seq::<u8>::empty(), cap) == Seq::<u8>::empty());
    assert(seq![p.take(len)] + Seq::<Seq<u8>>::empty() =~= seq![p]);
}

/// Order preservation: a stream that is the concatenation of well-formed
/// packets cuts back into exactly those packets, in the order they were
/// concatenated.
pub proof fn lemma_packets_in_order(packets: Seq<Seq<u8>>, cap: int)
    requires
        forall|i: int| 0 <= i < packets.len() ==> valid_packet(#[trigger] packets[i], cap),
    ensures
        frame_packets(concat_chunks(packets), cap) == Some(packets),
        frame_rest(concat_chunks(packets), cap) == Seq::<u8>::empty(),
    decreases packets.len(),
{
    if packets.len() == 0 {
        assert(concat_chunks(packets) =~= Seq::<u8>::empty());
        assert(frame_packets(concat_chunks(packets), cap) == Some(Seq::<Seq<u8>>::empty()));
        assert(packets =~= Seq::<Seq<u8>>::empty());
    } else {
        let p = packets[0];
        let rest = packets.drop_first();
        let s = concat_chunks(packets);
        assert(s == p + concat_chunks(rest));
        lemma_packets_in_order(rest, cap);
        lemma_single_packet(p, cap);
        lemma_frame_append(p, concat_chunks(rest), cap);
        assert(frame_rest(p, cap) + concat_chunks(rest) =~= concat_chunks(rest));
        assert(frame_packets(s, cap) == Some(seq![p] + rest));
        assert(seq![p] + rest =~= packets);
    }
}

/// Conservation: a well-framed stream is exactly its packets laid end to
/// end followed by its leftover.  No byte is duplicated and none is lost;
/// what a transport restart can drop is only the leftover.
pub proof fn lemma_frame_complete(s: Seq<u8>, cap: int)
    requires
        frame_packets(s, cap) is Some,
    ensures
        concat_chunks(frame_packets(s, cap)->Some_0) + frame_rest(s, cap) == s,
    decreases s.len(),
{
    let ps = frame_packets(s, cap)->Some_0;
    if s.len() < IP_PACKET_HEADER_MIN_SIZE {
        assert(ps =~= Seq::<Seq<u8>>::empty());
        assert(concat_chunks(ps) + s =~= s);
    } else {
        let len = declared_len(s);
        if len < IP_PACKET_HEADER_MIN_SIZE || len > cap {
            assert(frame_packets(s, cap) is None);
        } else if s.len() < len {
            assert(ps =~= Seq::<Seq<u8>>::empty());
            assert(concat_chunks(ps) + s =~= s);
        } else {
            let s2 = s.skip(len);
            lemma_frame_complete(s2, cap);
            let ps2 = frame_packets(s2, cap)->Some_0;
            assert(ps == seq![s.take(len)] + ps2);
            assert((seq![s.take(len)] + ps2).drop_first() =~= ps2);
            assert(concat_chunks(ps) == s.take(len) + concat_chunks(ps2));
            assert((s.take(len) + concat_chunks(ps2)) + frame_rest(s, cap) =~= s.take(len) + (
            concat_chunks(ps2) + frame_rest(s2, cap)));
            assert(s.take(len) + s2 =~= s);
        }
    }
}

/// The leftover of a well-framed stream is at most one incomplete packet,
/// so it always fits the receive buffer: restarting the transport loses
/// at most one buffer of bytes per direction.
pub proof fn lemma_frame_rest_bound(s: Seq<u8>, cap: int)
    requires
        cap >= IP_PACKET_HEADER_MIN_SIZE,
        frame_packets(s, cap) is Some,
    ensures
        frame_rest(s, cap).len() <= cap,
    decreases s.len(),
{
    if s.len() < IP_PACKET_HEADER_MIN_SIZE {
    } else {
        let len = declared_len(s);
        if len < IP_PACKET_HEADER_MIN_SIZE || len > cap {
            assert(frame_packets(s, cap) is None);
        } else if s.len() < len {
        } else {
            lemma_frame_rest_bound(s.skip(len), cap);
        }
    }
}

} // verus!
