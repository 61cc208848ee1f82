//! The tunnel endpoint: packet buffers, the peer handshake, and the pump
//! step that shuttles packets between the TUN side and the transport side.
//!
//! A [`PacketBuf`] holds at most one outstanding packet per direction.  It
//! accepts arbitrarily segmented bytes from a stream-like source, cuts them
//! at the IPv4 total-length boundary exactly as [`crate::frame`] describes,
//! and hands whole packets to the destination.

use vstd::prelude::*;

use crate::errors::{TunnelError, is_blocked};
use crate::frame::{declared_len, frame_packets, frame_rest, head_ok, concat_chunks,
    IP_PACKET_HEADER_MIN_SIZE};
use crate::frame::{lemma_frame_append, lemma_frame_none_append};
use crate::poller::Event;

verus! {

/// A duplex byte-stream endpoint: the TUN device or the connected
/// transport.  A read fills the front of the buffer with at least one
/// byte on success; a read of size zero is end of file and must be
/// reported as `UnexpectedEof`; "would block" is reported as
/// `WouldBlock`.  A send accepts at least one byte on success and may
/// accept fewer than offered; `flush` drains protocol buffering.
///
/// Two ghost histories pin the data down: `delivered` records every byte
/// the endpoint has handed to its reader, and `accepted` every byte it
/// has taken from its writer, each oldest first.  A successful read
/// delivers exactly the bytes it puts in the caller's buffer, a
/// successful send accepts exactly a prefix of what was offered, a
/// failure moves nothing, and neither half ever touches the other's
/// history.
pub trait StreamIo {
    /// All bytes this endpoint has delivered to its reader, oldest first.
    /// The default is the empty history, so that adapters outside the
    /// verifier can implement the trait without ghost code; what callers
    /// rely on is only what the method contracts state about it.
    open spec fn delivered(&self) -> Seq<u8> {
        Seq::empty()
    }

    /// All bytes this endpoint has accepted from its writer, oldest first.
    /// The default is the empty history, as for `delivered`.
    open spec fn accepted(&self) -> Seq<u8> {
        Seq::empty()
    }

    /// Receive some bytes into the front of `buf`, returning how many.
    fn recv(&mut self, buf: &mut Vec<u8>) -> (r: Result<usize, TunnelError>)
        ensures
            final(buf)@.len() == old(buf)@.len(),
            final(self).accepted() == old(self).accepted(),
            r matches Ok(n) ==> 1 <= n <= old(buf)@.len() && final(self).delivered() == old(self).delivered() + final(buf)@.take(n as int),
            r matches Err(_) ==> final(self).delivered() == old(self).delivered(),
    ;

    /// Send some prefix of `buf`, returning how many bytes were accepted.
    fn send(&mut self, buf: &Vec<u8>) -> (r: Result<usize, TunnelError>)
        requires
            buf@.len() >= 1,
        ensures
            final(self).delivered() == old(self).delivered(),
            r matches Ok(n) ==> 1 <= n <= buf@.len() && final(self).accepted() == old(self).accepted() + buf@.take(n as int),
            r matches Err(_) ==> final(self).accepted() == old(self).accepted(),
    ;

    /// Drain any protocol-level buffering.
    fn flush(&mut self) -> (r: Result<(), TunnelError>)
        ensures
            final(self).delivered() == old(self).delivered(),
            final(self).accepted() == old(self).accepted(),
    ;
}

/// A transparent wrapper around an inner transport, forwarding reads,
/// writes and flushes unchanged.
pub struct Connection<T> {
    pub inner: T,
}

impl<T: StreamIo> StreamIo for Connection<T> {
    open spec fn delivered(&self) -> Seq<u8> {
        self.inner.delivered()
    }

    open spec fn accepted(&self) -> Seq<u8> {
        self.inner.accepted()
    }

    fn recv(&mut self, buf: &mut Vec<u8>) -> (r: Result<usize, TunnelError>) {
        self.inner.recv(buf)
    }

    fn send(&mut self, buf: &Vec<u8>) -> (r: Result<usize, TunnelError>) {
        self.inner.send(buf)
    }

    fn flush(&mut self) -> (r: Result<(), TunnelError>) {
        self.inner.flush()
    }
}

/// A single-packet reassembly buffer for one direction of the pump.
///
/// The buffer fills from a stream-like source until the packet declared in
/// the IPv4 header is complete, is then drained to the destination, and is
/// reused.  Bytes of a following packet that arrive in the same read are
/// kept and carried over when the current packet completes.
pub struct PacketBuf {
    buf: Vec<u8>,
    packet_start: usize,
    packet_end: usize,
    packet_length: usize,
}

impl PacketBuf {
    /// The fixed capacity of the buffer.
    pub closed spec fn cap(&self) -> int {
        self.buf@.len() as int
    }

    /// The bytes currently held: everything received and not yet cut away.
    pub closed spec fn held(&self) -> Seq<u8> {
        self.buf@.take(self.packet_end as int)
    }

    /// How many bytes of the completed head packet have been written out.
    pub closed spec fn start(&self) -> int {
        self.packet_start as int
    }

    /// Structural well-formedness, tying the cursor fields to the held
    /// bytes: the declared head length is parsed as soon as a whole header
    /// is held, and is always acceptable for this capacity.
    pub closed spec fn wf(&self) -> bool {
        &&& self.buf@.len() >= IP_PACKET_HEADER_MIN_SIZE
        &&& self.packet_start <= self.packet_end <= self.buf@.len()
        &&& (self.held().len() < IP_PACKET_HEADER_MIN_SIZE ==> self.packet_length == 0 && self.packet_start == 0)
        &&& (self.held().len() >= IP_PACKET_HEADER_MIN_SIZE ==> {
            &&& self.packet_length == declared_len(self.held())
            &&& IP_PACKET_HEADER_MIN_SIZE <= self.packet_length <= self.buf@.len()
            &&& self.packet_start <= self.packet_length
        })
        &&& (self.packet_end < self.packet_length ==> self.packet_start == 0)
    }

    /// Whether a whole packet is held and ready to be written out.
    pub open spec fn spec_ready(&self) -> bool {
        &&& self.held().len() >= IP_PACKET_HEADER_MIN_SIZE
        &&& declared_len(self.held()) <= self.held().len()
    }

    /// Creates an empty buffer of the given capacity.
    pub fn with_capacity(cap: usize) -> (r: PacketBuf)
        requires
            cap >= IP_PACKET_HEADER_MIN_SIZE,
        ensures
            r.wf(),
            r.cap() == cap,
            r.held() == Seq::<u8>::empty(),
            r.start() == 0,
    {
        let buf: Vec<u8> = vec![0u8; cap];
        let r = PacketBuf { buf, packet_start: 0, packet_end: 0, packet_length: 0 };
        proof {
            assert(r.held() =~= Seq::<u8>::empty());
        }
        r
    }

    /// Whether the head packet is complete: it has data and is not in the
    /// middle of being received.
    pub fn ready_to_write(&self) -> (r: bool)
        requires
            self.wf(),
        ensures
            r == self.spec_ready(),
    {
        self.packet_length > 0 && self.packet_end >= self.packet_length
    }

    /// How many bytes the head packet still needs before it is complete:
    /// the rest of the minimal header, or the rest of the declared length.
    pub fn needed(&self) -> (r: usize)
        requires
            self.wf(),
            !self.spec_ready(),
        ensures
            r == if self.held().len() < IP_PACKET_HEADER_MIN_SIZE {
                IP_PACKET_HEADER_MIN_SIZE - self.held().len()
            } else {
                declared_len(self.held()) - self.held().len()
            },
            1 <= r <= self.cap() - self.held().len(),
    {
        if self.packet_length == 0 {
            IP_PACKET_HEADER_MIN_SIZE - self.packet_end
        } else {
            self.packet_length - self.packet_end
        }
    }

    /// Parses the declared head length if a whole header is now held.
    /// On a malformed declaration the buffer empties itself and reports
    /// which bound was broken; the pump then terminates.
    fn try_parse_header(&mut self) -> (r: Result<(), TunnelError>)
        requires
            old(self).buf@.len() >= IP_PACKET_HEADER_MIN_SIZE,
            old(self).packet_start == 0,
            old(self).packet_length == 0,
            old(self).packet_end <= old(self).buf@.len(),
        ensures
            final(self).wf(),
            final(self).cap() == old(self).cap(),
            final(self).start() == 0,
            head_ok(old(self).held(), old(self).cap()) ==> r == Ok::<(), TunnelError>(())
                && final(self).held() == old(self).held(),
            !head_ok(old(self).held(), old(self).cap()) ==> {
                &&& final(self).held() == Seq::<u8>::empty()
                &&& r == Err::<(), TunnelError>(
                    if declared_len(old(self).held()) < IP_PACKET_HEADER_MIN_SIZE {
                        TunnelError::ShortPacket
                    } else {
                        TunnelError::Oversized
                    },
                )
            },
    {
        if self.packet_end >= IP_PACKET_HEADER_MIN_SIZE {
            let len = (self.buf[2] as usize) * 256 + (self.buf[3] as usize);
            proof {
                assert(self.held()[2] == self.buf@[2]);
                assert(self.held()[3] == self.buf@[3]);
            }
            if len < IP_PACKET_HEADER_MIN_SIZE {
                self.packet_end = 0;
                proof {
                    assert(self.held() =~= Seq::<u8>::empty());
                }
                return Err(TunnelError::ShortPacket);
            }
            if len > self.buf.len() {
                self.packet_end = 0;
                proof {
                    assert(self.held() =~= Seq::<u8>::empty());
                }
                return Err(TunnelError::Oversized);
            }
            self.packet_length = len;
        }
        Ok(())
    }

    /// Accepts bytes from `chunk` starting at `offset`, as many as fit in
    /// the free space, and returns how many were consumed.  Fails exactly
    /// when the bytes complete a header whose declared length is shorter
    /// than a minimal header or longer than this buffer.
    pub fn feed(&mut self, chunk: &Vec<u8>, offset: usize) -> (r: Result<usize, TunnelError>)
        requires
            old(self).wf(),
            !old(self).spec_ready(),
            offset < chunk@.len(),
        ensures
            final(self).wf(),
            final(self).cap() == old(self).cap(),
            final(self).start() == 0,
            ({
                let space = old(self).cap() - old(self).held().len();
                let n = if chunk@.len() - offset < space {
                    chunk@.len() - offset
                } else {
                    space
                };
                let fed = old(self).held() + chunk@.subrange(offset as int, offset + n);
                &&& (head_ok(fed, old(self).cap()) ==> r == Ok::<usize, TunnelError>(n as usize)
                    && final(self).held() == fed)
                &&& (!head_ok(fed, old(self).cap()) ==> {
                    &&& final(self).held() == Seq::<u8>::empty()
                    &&& r == Err::<usize, TunnelError>(
                        if declared_len(fed) < IP_PACKET_HEADER_MIN_SIZE {
                            TunnelError::ShortPacket
                        } else {
                            TunnelError::Oversized
                        },
                    )
                })
            }),
    {
        proof {
            if old(self).held().len() >= IP_PACKET_HEADER_MIN_SIZE {
                assert(declared_len(old(self).held()) > old(self).held().len());
            }
        }
        let avail = chunk.len() - offset;
        let space = self.buf.len() - self.packet_end;
        let n = if avail < space {
            avail
        } else {
            space
        };
        let end0 = self.packet_end;
        let mut i: usize = 0;
        while i < n
            invariant
                i <= n,
                n <= chunk@.len() - offset,
                offset + n <= chunk@.len(),
                offset + n <= usize::MAX,
                end0 + n <= self.buf@.len(),
                end0 + n <= usize::MAX,
                self.buf@.len() == old(self).buf@.len(),
                end0 == old(self).packet_end,
                self.packet_end == end0,
                self.packet_start == old(self).packet_start,
                self.packet_length == old(self).packet_length,
                self.buf@.take(end0 as int) == old(self).held(),
                self.buf@.subrange(end0 as int, end0 + i) == chunk@.subrange(
                    offset as int,
                    offset + i,
                ),
            decreases n - i,
        {
            self.buf.set(end0 + i, chunk[offset + i]);
            proof {
                assert(self.buf@.take(end0 as int) =~= old(self).held());
                assert(self.buf@.subrange(end0 as int, end0 + i + 1) =~= chunk@.subrange(
                    offset as int,
                    offset + i + 1,
                ));
            }
            i = i + 1;
        }
        self.packet_end = end0 + n;
        proof {
            assert(self.held() =~= old(self).held() + chunk@.subrange(offset as int, offset + n));
        }
        if self.packet_length == 0 {
            match self.try_parse_header() {
                Ok(()) => {},
                Err(e) => {
                    return Err(e);
                },
            }
        } else {
            proof {
                assert(self.held().take(IP_PACKET_HEADER_MIN_SIZE as int) =~= old(self).held().take(
                    IP_PACKET_HEADER_MIN_SIZE as int,
                ));
                assert(declared_len(self.held()) == declared_len(old(self).held()));
            }
        }
        Ok(n)
    }

    /// Removes and returns the completed head packet, carrying any
    /// following bytes over.  Fails exactly when the carried-over bytes
    /// already hold a malformed header declaration.
    pub fn take_packet(&mut self) -> (r: Result<Vec<u8>, TunnelError>)
        requires
            old(self).wf(),
            old(self).spec_ready(),
            old(self).start() == 0,
        ensures
            final(self).wf(),
            final(self).cap() == old(self).cap(),
            final(self).start() == 0,
            ({
                let held = old(self).held();
                let len = declared_len(held);
                let rest = held.skip(len);
                &&& (head_ok(rest, old(self).cap()) ==> (r matches Ok(p) && p@ == held.take(len)
                    && final(self).held() == rest))
                &&& (!head_ok(rest, old(self).cap()) ==> {
                    &&& final(self).held() == Seq::<u8>::empty()
                    &&& r == Err::<Vec<u8>, TunnelError>(
                        if declared_len(rest) < IP_PACKET_HEADER_MIN_SIZE {
                            TunnelError::ShortPacket
                        } else {
                            TunnelError::Oversized
                        },
                    )
                })
            }),
    {
        let len = self.packet_length;
        let end = self.packet_end;
        let mut packet: Vec<u8> = Vec::with_capacity(len);
        let mut i: usize = 0;
        while i < len
            invariant
                i <= len,
                len <= end <= self.buf@.len(),
                self == old(self),
                packet@ == self.buf@.subrange(0, i as int),
            decreases len - i,
        {
            let b = self.buf[i];
            packet.push(b);
            proof {
                assert(packet@ =~= self.buf@.subrange(0, i + 1));
            }
            i = i + 1;
        }
        proof {
            assert(packet@ =~= old(self).held().take(len as int));
        }
        match self.shift_head() {
            Ok(()) => Ok(packet),
            Err(e) => Err(e),
        }
    }

    /// Receives from a stream-like source until a whole packet is held.
    ///
    /// Progress survives "would block": the partly filled packet stays in
    /// the buffer and the next call resumes it.  A call in the middle of
    /// writing out a packet does nothing.
    pub fn read<R: StreamIo>(&mut self, r: &mut R) -> (res: Result<(), TunnelError>)
        requires
            old(self).wf(),
        ensures
            final(self).wf(),
            final(self).cap() == old(self).cap(),
            final(r).accepted() == old(r).accepted(),
            old(r).delivered().len() <= final(r).delivered().len(),
            final(r).delivered().take(old(r).delivered().len() as int) == old(r).delivered(),
            old(self).start() > 0 ==> res == Ok::<(), TunnelError>(()) && *final(self) == *old(self) && final(r).delivered() == old(r).delivered(),
            old(self).start() == 0 && old(self).spec_ready() ==> res == Ok::<(), TunnelError>(())
                && *final(self) == *old(self) && final(r).delivered() == old(r).delivered(),
            res matches Ok(()) ==> final(self).spec_ready(),
            old(self).start() == 0 ==> final(self).start() == 0,
            old(self).start() == 0 && !(res matches Err(e) && (e == TunnelError::ShortPacket || e
                == TunnelError::Oversized)) ==> final(self).held() == old(self).held()
                + final(r).delivered().skip(old(r).delivered().len() as int),
    {
        if self.packet_start > 0 {
            // A packet is being written out; its buffer space is in use.
            return Ok(());
        }
        proof {
            assert(old(r).delivered().take(old(r).delivered().len() as int) =~= old(r).delivered());
            assert(old(r).delivered().skip(old(r).delivered().len() as int) =~= Seq::<
                u8,
            >::empty());
            assert(self.held() + Seq::<u8>::empty() =~= self.held());
        }
        if self.ready_to_write() {
            // The held packet is already complete; nothing to receive.
            return Ok(());
        }
        while !self.ready_to_write()
            invariant
                old(self).start() == 0,
                self.wf(),
                self.start() == 0,
                self.cap() == old(self).cap(),
                r.accepted() == old(r).accepted(),
                old(r).delivered().len() <= r.delivered().len(),
                r.delivered().take(old(r).delivered().len() as int) == old(r).delivered(),
                self.held() == old(self).held() + r.delivered().skip(
                    old(r).delivered().len() as int,
                ),
            decreases self.cap() - self.held().len(),
        {
            let space = self.buf.len() - self.packet_end;
            let mut scratch: Vec<u8> = vec![0u8; space];
            let ghost delivered0 = r.delivered();
            let n = match r.recv(&mut scratch) {
                Ok(n) => n,
                Err(e) => {
                    return Err(e);
                },
            };
            scratch.truncate(n);
            proof {
                assert(r.delivered() =~= delivered0 + scratch@);
                assert(old(r).delivered().len() <= delivered0.len());
                assert(r.delivered().take(old(r).delivered().len() as int) =~= old(r).delivered());
            }
            let ghost held0 = self.held();
            match self.feed(&scratch, 0) {
                Ok(_) => {},
                Err(e) => {
                    return Err(e);
                },
            }
            proof {
                assert(self.held() =~= held0 + scratch@);
                assert(r.delivered().skip(old(r).delivered().len() as int) =~= delivered0.skip(
                    old(r).delivered().len() as int,
                ) + scratch@);
                assert(self.held() =~= old(self).held() + r.delivered().skip(
                    old(r).delivered().len() as int,
                ));
            }
        }
        Ok(())
    }

    /// Writes the completed head packet out, then flushes.  Partial sends
    /// resume where they stopped; once the whole packet is accepted the
    /// buffer moves on to the next packet.  A call without a completed
    /// packet does nothing.
    pub fn write<W: StreamIo>(&mut self, w: &mut W) -> (res: Result<(), TunnelError>)
        requires
            old(self).wf(),
        ensures
            final(self).wf(),
            final(self).cap() == old(self).cap(),
            final(w).delivered() == old(w).delivered(),
            old(w).accepted().len() <= final(w).accepted().len(),
            final(w).accepted().take(old(w).accepted().len() as int) == old(w).accepted(),
            !old(self).spec_ready() ==> res == Ok::<(), TunnelError>(()) && *final(self) == *old(self) && final(w).accepted() == old(w).accepted(),
            res matches Ok(()) && old(self).spec_ready() ==> ({
                let held = old(self).held();
                let len = declared_len(held);
                &&& final(w).accepted() == old(w).accepted() + held.subrange(
                    old(self).start(),
                    len,
                )
                &&& final(self).held() == held.skip(len)
                &&& final(self).start() == 0
            }),
            res matches Err(e) ==> old(self).spec_ready() ==> ({
                let held = old(self).held();
                let len = declared_len(held);
                let d = final(w).accepted().len() - old(w).accepted().len();
                &&& 0 <= d <= len - old(self).start()
                &&& final(w).accepted() == old(w).accepted() + held.subrange(
                    old(self).start(),
                    old(self).start() + d,
                )
                &&& ((final(self).held() == held && final(self).start() == old(self).start() + d)
                    || ((e == TunnelError::ShortPacket || e == TunnelError::Oversized) && d == len
                        - old(self).start() && final(self).held() == Seq::<u8>::empty()
                        && final(self).start() == 0))
            }),
    {
        proof {
            assert(old(w).accepted().take(old(w).accepted().len() as int) =~= old(w).accepted());
        }
        if !self.ready_to_write() {
            return Ok(());
        }
        while self.packet_start < self.packet_length
            invariant
                self.wf(),
                self.spec_ready(),
                self.cap() == old(self).cap(),
                self.held() == old(self).held(),
                old(self).spec_ready(),
                old(self).start() <= self.start(),
                w.delivered() == old(w).delivered(),
                old(w).accepted().len() <= w.accepted().len(),
                w.accepted() == old(w).accepted() + old(self).held().subrange(
                    old(self).start(),
                    self.start(),
                ),
            decreases self.packet_length - self.packet_start,
        {
            let mut seg: Vec<u8> = Vec::new();
            let mut k: usize = self.packet_start;
            while k < self.packet_length
                invariant
                    self.packet_start <= k <= self.packet_length,
                    self.packet_length <= self.buf@.len(),
                    seg@ == self.buf@.subrange(self.packet_start as int, k as int),
                decreases self.packet_length - k,
            {
                let b = self.buf[k];
                seg.push(b);
                proof {
                    assert(seg@ =~= self.buf@.subrange(self.packet_start as int, k + 1));
                }
                k = k + 1;
            }
            let ghost accepted0 = w.accepted();
            let n = match w.send(&seg) {
                Ok(n) => n,
                Err(e) => {
                    proof {
                        assert(w.accepted().take(old(w).accepted().len() as int) =~= old(w).accepted());
                    }
                    return Err(e);
                },
            };
            proof {
                assert(seg@.take(n as int) =~= self.buf@.subrange(
                    self.packet_start as int,
                    self.packet_start + n,
                ));
                assert(old(self).held().subrange(self.packet_start as int, self.packet_start + n)
                    =~= self.buf@.subrange(self.packet_start as int, self.packet_start + n));
                assert(accepted0 + seg@.take(n as int) =~= old(w).accepted() + old(self).held().subrange(old(self).start(), self.packet_start + n));
                assert(w.accepted().take(old(w).accepted().len() as int) =~= old(w).accepted());
            }
            self.packet_start = self.packet_start + n;
        }
        proof {
            assert(w.accepted().take(old(w).accepted().len() as int) =~= old(w).accepted());
        }
        match w.flush() {
            Ok(()) => {},
            Err(e) => {
                return Err(e);
            },
        }
        let ghost pre_shift = *self;
        let r = self.shift_head();
        proof {
            if r is Ok {
                assert(old(self).held().subrange(old(self).start(), declared_len(
                    old(self).held(),
                )) =~= old(self).held().subrange(old(self).start(), pre_shift.start()));
            }
        }
        r
    }

    /// Cuts the completed head packet off, carrying any bytes of a
    /// following packet to the front of the buffer.  Fails exactly when
    /// those carried-over bytes already hold a malformed declaration.
    fn shift_head(&mut self) -> (r: Result<(), TunnelError>)
        requires
            old(self).wf(),
            old(self).spec_ready(),
        ensures
            final(self).wf(),
            final(self).cap() == old(self).cap(),
            final(self).start() == 0,
            ({
                let held = old(self).held();
                let len = declared_len(held);
                let rest = held.skip(len);
                &&& (head_ok(rest, old(self).cap()) ==> r == Ok::<(), TunnelError>(())
                    && final(self).held() == rest)
                &&& (!head_ok(rest, old(self).cap()) ==> {
                    &&& final(self).held() == Seq::<u8>::empty()
                    &&& r == Err::<(), TunnelError>(
                        if declared_len(rest) < IP_PACKET_HEADER_MIN_SIZE {
                            TunnelError::ShortPacket
                        } else {
                            TunnelError::Oversized
                        },
                    )
                })
            }),
    {
        let len = self.packet_length;
        let end = self.packet_end;
        let leftover = end - len;
        let mut j: usize = 0;
        while j < leftover
            invariant
                j <= leftover,
                leftover == end - len,
                0 < len <= end <= self.buf@.len(),
                self.buf@.len() == old(self).buf@.len(),
                self.packet_start == old(self).packet_start,
                self.packet_end == old(self).packet_end,
                self.packet_length == old(self).packet_length,
                end == old(self).packet_end,
                len == old(self).packet_length,
                forall|k: int| 0 <= k < j ==> #[trigger] self.buf@[k] == old(self).buf@[len + k],
                forall|k: int|
                    j <= k < leftover ==> #[trigger] self.buf@[len + k] == old(self).buf@[len + k],
            decreases leftover - j,
        {
            let b = self.buf[len + j];
            self.buf.set(j, b);
            j = j + 1;
        }
        self.packet_start = 0;
        self.packet_end = leftover;
        self.packet_length = 0;
        proof {
            assert(self.held() =~= old(self).held().skip(len as int));
        }
        self.try_parse_header()
    }
}

/// The 4-byte IPv4 address a peer announces during the handshake.
#[derive(Clone, Copy, Debug, PartialEq, Eq)]
pub struct PeerInfo {
    /// The address octets, in the order they stand in dotted notation.
    pub ip: [u8; 4],
}

impl PeerInfo {
    /// The octets as a byte sequence; also the exact wire format, since
    /// the handshake sends the address big-endian, most significant octet
    /// first.
    pub open spec fn octets(&self) -> Seq<u8> {
        self.ip@
    }

    /// Serializes the address for the handshake: exactly four bytes,
    /// network byte order.
    pub fn encode(&self) -> (r: Vec<u8>)
        ensures
            r@ == self.octets(),
            r@.len() == 4,
    {
        let mut r: Vec<u8> = Vec::new();
        r.push(self.ip[0]);
        r.push(self.ip[1]);
        r.push(self.ip[2]);
        r.push(self.ip[3]);
        proof {
            assert(r@ =~= self.octets());
        }
        r
    }

    /// Reads an address back from its four wire bytes.
    pub fn decode(buf: &Vec<u8>) -> (r: PeerInfo)
        requires
            buf@.len() == 4,
        ensures
            r.octets() == buf@,
    {
        let r = PeerInfo { ip: [buf[0], buf[1], buf[2], buf[3]] };
        proof {
            assert(r.octets() =~= buf@);
        }
        r
    }
}

/// Handshake agreement: a peer that decodes the four bytes the other side
/// encoded sees exactly the address that was announced.  Together with the
/// contracts of `encode` and `decode` this is the round trip of the
/// handshake wire format.
pub proof fn lemma_handshake_round_trip(sent: PeerInfo, received: PeerInfo)
    requires
        received.octets() == sent.octets(),
    ensures
        received == sent,
{
    assert(received.ip =~= sent.ip);
}

/// Receives the peer's 4-byte address, reading as often as the transport
/// needs.  This runs before the pump starts, and consumes exactly the
/// four address bytes: no payload byte is read from the wire before them.
pub fn read_peer_info<R: StreamIo>(r: &mut R) -> (res: Result<PeerInfo, TunnelError>)
    ensures
        final(r).accepted() == old(r).accepted(),
        old(r).delivered().len() <= final(r).delivered().len(),
        final(r).delivered().take(old(r).delivered().len() as int) == old(r).delivered(),
        res matches Ok(p) ==> final(r).delivered() == old(r).delivered() + p.octets(),
        res matches Err(_) ==> final(r).delivered().len() < old(r).delivered().len() + 4,
{
    proof {
        assert(old(r).delivered().take(old(r).delivered().len() as int) =~= old(r).delivered());
    }
    let mut got: Vec<u8> = Vec::new();
    while got.len() < 4
        invariant
            got@.len() <= 4,
            r.accepted() == old(r).accepted(),
            old(r).delivered().len() <= r.delivered().len(),
            r.delivered().take(old(r).delivered().len() as int) == old(r).delivered(),
            got@ == r.delivered().skip(old(r).delivered().len() as int),
        decreases 4 - got@.len(),
    {
        let need = 4 - got.len();
        let mut scratch: Vec<u8> = vec![0u8; need];
        let ghost delivered0 = r.delivered();
        let n = match r.recv(&mut scratch) {
            Ok(n) => n,
            Err(e) => {
                return Err(e);
            },
        };
        scratch.truncate(n);
        proof {
            assert(r.delivered() =~= delivered0 + scratch@);
            assert(r.delivered().take(old(r).delivered().len() as int) =~= old(r).delivered());
        }
        got.append(&mut scratch);
        proof {
            assert(got@ =~= r.delivered().skip(old(r).delivered().len() as int));
        }
    }
    let p = PeerInfo::decode(&got);
    proof {
        assert(r.delivered() =~= old(r).delivered() + p.octets());
    }
    Ok(p)
}

/// Announces the local 4-byte address to the peer, sending until the
/// transport has accepted all four bytes — exactly the address octets,
/// nothing else, before any payload.
pub fn write_peer_info<W: StreamIo>(w: &mut W, peer_info: PeerInfo) -> (res: Result<
    (),
    TunnelError,
>)
    ensures
        final(w).delivered() == old(w).delivered(),
        old(w).accepted().len() <= final(w).accepted().len(),
        final(w).accepted().take(old(w).accepted().len() as int) == old(w).accepted(),
        res matches Ok(()) ==> final(w).accepted() == old(w).accepted() + peer_info.octets(),
        res matches Err(_) ==> final(w).accepted().len() < old(w).accepted().len() + 4,
{
    proof {
        assert(old(w).accepted().take(old(w).accepted().len() as int) =~= old(w).accepted());
    }
    let bytes = peer_info.encode();
    let mut sent: usize = 0;
    while sent < bytes.len()
        invariant
            sent <= bytes@.len(),
            bytes@.len() == 4,
            bytes@ == peer_info.octets(),
            w.delivered() == old(w).delivered(),
            old(w).accepted().len() <= w.accepted().len(),
            w.accepted().take(old(w).accepted().len() as int) == old(w).accepted(),
            w.accepted() == old(w).accepted() + bytes@.take(sent as int),
        decreases bytes@.len() - sent,
    {
        let mut seg: Vec<u8> = Vec::new();
        let mut k: usize = sent;
        while k < bytes.len()
            invariant
                sent <= k <= bytes@.len(),
                seg@ == bytes@.subrange(sent as int, k as int),
            decreases bytes@.len() - k,
        {
            let b = bytes[k];
            seg.push(b);
            proof {
                assert(seg@ =~= bytes@.subrange(sent as int, k + 1));
            }
            k = k + 1;
        }
        let ghost accepted0 = w.accepted();
        let n = match w.send(&seg) {
            Ok(n) => n,
            Err(e) => {
                return Err(e);
            },
        };
        proof {
            assert(seg@.take(n as int) =~= bytes@.subrange(sent as int, sent + n));
            assert(accepted0 + seg@.take(n as int) =~= old(w).accepted() + bytes@.take(sent + n));
            assert(w.accepted().take(old(w).accepted().len() as int) =~= old(w).accepted());
        }
        sent = sent + n;
    }
    proof {
        assert(bytes@.take(4) =~= peer_info.octets());
    }
    Ok(())
}

/// Recomputes poller interest from buffer state alone, never from the
/// event that fired: a side is read while its outbound packet is not yet
/// complete, and is written to while the packet headed its way is ready.
/// This symmetry is what keeps the pump free of deadlock and busy-looping.
pub fn pump_interest(
    tun_key: usize,
    conn_key: usize,
    tun_conn_ready: bool,
    conn_tun_ready: bool,
) -> (r: (Event, Event))
    ensures
        r.0 == (Event { key: tun_key, readable: !tun_conn_ready, writable: conn_tun_ready }),
        r.1 == (Event { key: conn_key, readable: !conn_tun_ready, writable: tun_conn_ready }),
{
    (
        Event { key: tun_key, readable: !tun_conn_ready, writable: conn_tun_ready },
        Event { key: conn_key, readable: !conn_tun_ready, writable: tun_conn_ready },
    )
}

/// The bytes a pump buffer still owes its destination: everything held
/// beyond what has already been written out.
pub open spec fn unsent(buf: PacketBuf) -> Seq<u8> {
    buf.held().skip(buf.start())
}

/// Handles one readiness event: attempts the reads and writes the event
/// allows, treats "would block" as backpressure, and returns the interest
/// to re-arm both registrations with.  Any real failure terminates the
/// pump and is never "would block".
///
/// The conservation clauses are the data plane's promise: per direction,
/// the bytes owed before the step plus the bytes newly taken from the
/// source equal the bytes newly given to the destination plus the bytes
/// still owed — nothing is invented, dropped or reordered on the way
/// through.
pub fn pump_step<T: StreamIo, C: StreamIo>(
    tun: &mut T,
    conn: &mut C,
    tun_conn_buf: &mut PacketBuf,
    conn_tun_buf: &mut PacketBuf,
    ev: &Event,
    tun_key: usize,
    conn_key: usize,
) -> (r: Result<(Event, Event), TunnelError>)
    requires
        old(tun_conn_buf).wf(),
        old(conn_tun_buf).wf(),
        tun_key != conn_key,
    ensures
        final(tun_conn_buf).wf(),
        final(conn_tun_buf).wf(),
        final(tun_conn_buf).cap() == old(tun_conn_buf).cap(),
        final(conn_tun_buf).cap() == old(conn_tun_buf).cap(),
        old(tun).delivered().len() <= final(tun).delivered().len(),
        final(tun).delivered().take(old(tun).delivered().len() as int) == old(tun).delivered(),
        old(conn).delivered().len() <= final(conn).delivered().len(),
        final(conn).delivered().take(old(conn).delivered().len() as int) == old(conn).delivered(),
        old(tun).accepted().len() <= final(tun).accepted().len(),
        final(tun).accepted().take(old(tun).accepted().len() as int) == old(tun).accepted(),
        old(conn).accepted().len() <= final(conn).accepted().len(),
        final(conn).accepted().take(old(conn).accepted().len() as int) == old(conn).accepted(),
        ev.key != tun_key && ev.key != conn_key ==> (r matches Ok(_) && *final(tun_conn_buf)
            == *old(tun_conn_buf) && *final(conn_tun_buf) == *old(conn_tun_buf) && *final(tun)
            == *old(tun) && *final(conn) == *old(conn)),
        r matches Ok(evs) ==> evs.0 == (Event {
            key: tun_key,
            readable: !final(tun_conn_buf).spec_ready(),
            writable: final(conn_tun_buf).spec_ready(),
        }) && evs.1 == (Event {
            key: conn_key,
            readable: !final(conn_tun_buf).spec_ready(),
            writable: final(tun_conn_buf).spec_ready(),
        }),
        r matches Ok(_) ==> unsent(*old(tun_conn_buf)) + final(tun).delivered().skip(
            old(tun).delivered().len() as int,
        ) == final(conn).accepted().skip(old(conn).accepted().len() as int) + unsent(
            *final(tun_conn_buf),
        ),
        r matches Ok(_) ==> unsent(*old(conn_tun_buf)) + final(conn).delivered().skip(
            old(conn).delivered().len() as int,
        ) == final(tun).accepted().skip(old(tun).accepted().len() as int) + unsent(
            *final(conn_tun_buf),
        ),
        r matches Err(e) ==> e != TunnelError::WouldBlock,
{
    proof {
        assert(old(tun).delivered().take(old(tun).delivered().len() as int) =~= old(tun).delivered());
        assert(old(conn).delivered().take(old(conn).delivered().len() as int) =~= old(conn).delivered());
        assert(old(tun).accepted().take(old(tun).accepted().len() as int) =~= old(tun).accepted());
        assert(old(conn).accepted().take(old(conn).accepted().len() as int) =~= old(conn).accepted());
    }
    if ev.key == tun_key && ev.readable {
        match is_blocked(tun_conn_buf.read(tun)) {
            Ok(_) => {},
            Err(e) => {
                return Err(e);
            },
        }
    }
    proof {
        assert(unsent(*tun_conn_buf) =~= unsent(*old(tun_conn_buf)) + tun.delivered().skip(
            old(tun).delivered().len() as int,
        ));
    }
    if ev.key == conn_key && ev.readable {
        match is_blocked(conn_tun_buf.read(conn)) {
            Ok(_) => {},
            Err(e) => {
                return Err(e);
            },
        }
    }
    proof {
        assert(unsent(*conn_tun_buf) =~= unsent(*old(conn_tun_buf)) + conn.delivered().skip(
            old(conn).delivered().len() as int,
        ));
    }
    let ghost tc_mid = *tun_conn_buf;
    let ghost ct_mid = *conn_tun_buf;
    if ev.key == tun_key && ev.writable {
        match is_blocked(conn_tun_buf.write(tun)) {
            Ok(_) => {},
            Err(e) => {
                return Err(e);
            },
        }
    }
    proof {
        assert(unsent(ct_mid) =~= tun.accepted().skip(old(tun).accepted().len() as int) + unsent(
            *conn_tun_buf,
        ));
    }
    if ev.key == conn_key && ev.writable {
        match is_blocked(tun_conn_buf.write(conn)) {
            Ok(_) => {},
            Err(e) => {
                return Err(e);
            },
        }
    }
    proof {
        assert(unsent(tc_mid) =~= conn.accepted().skip(old(conn).accepted().len() as int) + unsent(
            *tun_conn_buf,
        ));
        assert(unsent(*old(tun_conn_buf)) + tun.delivered().skip(old(tun).delivered().len() as int)
            =~= conn.accepted().skip(old(conn).accepted().len() as int) + unsent(*tun_conn_buf));
        assert(unsent(*old(conn_tun_buf)) + conn.delivered().skip(
            old(conn).delivered().len() as int,
        ) =~= tun.accepted().skip(old(tun).accepted().len() as int) + unsent(*conn_tun_buf));
    }
    let tun_conn_ready = tun_conn_buf.ready_to_write();
    let conn_tun_ready = conn_tun_buf.ready_to_write();
    Ok(pump_interest(tun_key, conn_key, tun_conn_ready, conn_tun_ready))
}

/// The largest IP packet the tunnel carries.
pub const MTU: usize = 1500;

/// Room for the largest IPv4 header.
pub const IP_PACKET_HEADER_MAX_SIZE: usize = 32;

/// The capacity of a pump buffer.
pub const DEFAULT_BUF_SIZE: usize = 8 * 1024;

/// An owned IP packet.
#[derive(Debug)]
pub struct Packet(pub Vec<u8>);

impl Packet {
    /// An empty packet with room reserved.
    pub fn with_capacity(cap: usize) -> (r: Packet)
        ensures
            r.0@.len() == 0,
    {
        Packet(Vec::with_capacity(cap))
    }
}

/// Duplicates a handle, so that one copy can read while the other
/// writes.
pub trait TryClone: Sized {
    /// Attempt to duplicate the handle.
    fn try_clone(&self) -> Result<Self, TunnelError>;
}

/// Reads exactly one whole packet from a stream-like source into an
/// owned vector, cutting it at its declared IPv4 total length.  Reads are
/// bounded to what the packet still needs, so exactly the packet's bytes
/// are consumed; a malformed declared length surfaces as the short-packet
/// or oversize error as soon as the header is complete.
pub fn read_packet<R: StreamIo>(r: &mut R) -> (res: Result<Packet, TunnelError>)
    ensures
        final(r).accepted() == old(r).accepted(),
        old(r).delivered().len() <= final(r).delivered().len(),
        final(r).delivered().take(old(r).delivered().len() as int) == old(r).delivered(),
        res matches Ok(p) ==> IP_PACKET_HEADER_MIN_SIZE <= p.0@.len() <= IP_PACKET_HEADER_MAX_SIZE
            + MTU && p.0@.len() == declared_len(p.0@) && final(r).delivered() == old(r).delivered() + p.0@,
        ({
            let dd = final(r).delivered().skip(old(r).delivered().len() as int);
            &&& (dd.len() >= IP_PACKET_HEADER_MIN_SIZE && declared_len(
                dd.take(IP_PACKET_HEADER_MIN_SIZE as int),
            ) < IP_PACKET_HEADER_MIN_SIZE ==> res == Err::<Packet, TunnelError>(
                TunnelError::ShortPacket,
            ))
            &&& (dd.len() >= IP_PACKET_HEADER_MIN_SIZE && declared_len(
                dd.take(IP_PACKET_HEADER_MIN_SIZE as int),
            ) > IP_PACKET_HEADER_MAX_SIZE + MTU ==> res == Err::<Packet, TunnelError>(
                TunnelError::Oversized,
            ))
        }),
{
    let mut buf = PacketBuf::with_capacity(IP_PACKET_HEADER_MAX_SIZE + MTU);
    proof {
        assert(old(r).delivered().take(old(r).delivered().len() as int) =~= old(r).delivered());
        assert(buf.held() =~= r.delivered().skip(old(r).delivered().len() as int));
    }
    while !buf.ready_to_write()
        invariant
            buf.wf(),
            buf.start() == 0,
            buf.cap() == IP_PACKET_HEADER_MAX_SIZE + MTU,
            r.accepted() == old(r).accepted(),
            old(r).delivered().len() <= r.delivered().len(),
            r.delivered().take(old(r).delivered().len() as int) == old(r).delivered(),
            buf.held() == r.delivered().skip(old(r).delivered().len() as int),
            buf.held().len() < IP_PACKET_HEADER_MIN_SIZE || buf.held().len() <= declared_len(
                buf.held(),
            ),
        decreases buf.cap() - buf.held().len(),
    {
        let need = buf.needed();
        let mut scratch: Vec<u8> = vec![0u8; need];
        let ghost delivered0 = r.delivered();
        let ghost held0 = buf.held();
        let n = match r.recv(&mut scratch) {
            Ok(n) => n,
            Err(e) => {
                proof {
                    if held0.len() >= IP_PACKET_HEADER_MIN_SIZE {
                        assert(held0.take(IP_PACKET_HEADER_MIN_SIZE as int)[2] == held0[2]);
                        assert(held0.take(IP_PACKET_HEADER_MIN_SIZE as int)[3] == held0[3]);
                    }
                }
                return Err(e);
            },
        };
        scratch.truncate(n);
        proof {
            assert(r.delivered() =~= delivered0 + scratch@);
            assert(r.delivered().take(old(r).delivered().len() as int) =~= old(r).delivered());
        }
        match buf.feed(&scratch, 0) {
            Ok(_) => {},
            Err(e) => {
                proof {
                    let fed = held0 + scratch@;
                    let dd = r.delivered().skip(old(r).delivered().len() as int);
                    assert(dd =~= fed);
                    assert(dd.take(IP_PACKET_HEADER_MIN_SIZE as int)[2] == fed[2]);
                    assert(dd.take(IP_PACKET_HEADER_MIN_SIZE as int)[3] == fed[3]);
                }
                return Err(e);
            },
        }
        proof {
            assert(buf.held() =~= held0 + scratch@);
            assert(buf.held() =~= r.delivered().skip(old(r).delivered().len() as int));
            if buf.held().len() >= IP_PACKET_HEADER_MIN_SIZE && held0.len()
                >= IP_PACKET_HEADER_MIN_SIZE {
                assert(buf.held().take(IP_PACKET_HEADER_MIN_SIZE as int) =~= held0.take(
                    IP_PACKET_HEADER_MIN_SIZE as int,
                ));
                assert(declared_len(buf.held()) == declared_len(held0));
            }
        }
    }
    proof {
        let dd = r.delivered().skip(old(r).delivered().len() as int);
        assert(buf.held().len() == declared_len(buf.held()));
        assert(dd.take(IP_PACKET_HEADER_MIN_SIZE as int)[2] == buf.held()[2]);
        assert(dd.take(IP_PACKET_HEADER_MIN_SIZE as int)[3] == buf.held()[3]);
        assert(buf.held().skip(declared_len(buf.held())) =~= Seq::<u8>::empty());
        assert(head_ok(Seq::<u8>::empty(), buf.cap()));
        assert(buf.held().take(declared_len(buf.held())) =~= buf.held());
    }
    match buf.take_packet() {
        Ok(p) => Ok(Packet(p)),
        Err(e) => Err(e),
    }
}

/// The byte sequences of a sequence of byte vectors.
pub open spec fn views_of(chunks: Seq<Vec<u8>>) -> Seq<Seq<u8>> {
    chunks.map_values(|c: Vec<u8>| c@)
}

/// Runs the reassembly machine over a whole segmented stream: every chunk
/// is fed in order and every packet that completes is collected.
///
/// This is the framing theorem in executable form: however the stream was
/// cut into chunks, the packets that come out are exactly the packets of
/// the concatenated stream, in order; a malformed declared length is
/// reported as the error the pump would die with.
pub fn decode_stream(chunks: &Vec<Vec<u8>>, cap: usize) -> (r: Result<Vec<Vec<u8>>, TunnelError>)
    requires
        cap >= IP_PACKET_HEADER_MIN_SIZE,
    ensures
        ({
            let stream = concat_chunks(views_of(chunks@));
            &&& (frame_packets(stream, cap as int) matches Some(ps) ==> (r matches Ok(out)
                && views_of(out@) == ps))
            &&& (frame_packets(stream, cap as int) is None ==> (r matches Err(e) && (e
                == TunnelError::ShortPacket || e == TunnelError::Oversized)))
        }),
{
    let ghost full = concat_chunks(views_of(chunks@));
    let mut machine = PacketBuf::with_capacity(cap);
    let mut out: Vec<Vec<u8>> = Vec::new();
    let ghost mut consumed: Seq<u8> = Seq::empty();
    proof {
        assert(consumed + full =~= full);
        assert(frame_packets(consumed, cap as int) == Some(Seq::<Seq<u8>>::empty()));
        assert(frame_rest(consumed, cap as int) == consumed);
        assert(views_of(out@) =~= Seq::<Seq<u8>>::empty());
        assert(machine.held() =~= consumed);
        assert(views_of(chunks@).skip(0) =~= views_of(chunks@));
    }
    let mut i: usize = 0;
    while i < chunks.len()
        invariant
            i <= chunks@.len(),
            cap >= IP_PACKET_HEADER_MIN_SIZE,
            machine.wf(),
            machine.cap() == cap,
            machine.start() == 0,
            !machine.spec_ready(),
            machine.held() == frame_rest(consumed, cap as int),
            frame_packets(consumed, cap as int) == Some(views_of(out@)),
            full == consumed + concat_chunks(views_of(chunks@).skip(i as int)),
            full == concat_chunks(views_of(chunks@)),
        decreases chunks@.len() - i,
    {
        let c = &chunks[i];
        let ghost rest_chunks = concat_chunks(views_of(chunks@).skip(i + 1));
        proof {
            let vs = views_of(chunks@).skip(i as int);
            assert(vs.len() > 0);
            assert(vs[0] == views_of(chunks@)[i as int]);
            assert(views_of(chunks@)[i as int] == c@);
            assert(vs.drop_first() =~= views_of(chunks@).skip(i + 1));
            assert(concat_chunks(vs) == vs[0] + concat_chunks(vs.drop_first()));
            assert(c@.skip(0) =~= c@);
            assert(full == consumed + (c@.skip(0) + rest_chunks));
        }
        let mut offset: usize = 0;
        while offset < c.len()
            invariant
                offset <= c@.len(),
                cap >= IP_PACKET_HEADER_MIN_SIZE,
                machine.wf(),
                machine.cap() == cap,
                machine.start() == 0,
                !machine.spec_ready(),
                machine.held() == frame_rest(consumed, cap as int),
                frame_packets(consumed, cap as int) == Some(views_of(out@)),
                full == consumed + (c@.skip(offset as int) + rest_chunks),
                full == concat_chunks(views_of(chunks@)),
            decreases c@.len() - offset,
        {
            let ghost consumed0 = consumed;
            let ghost held0 = machine.held();
            proof {
                assert(frame_packets(held0, cap as int) == Some(Seq::<Seq<u8>>::empty()));
                assert(frame_rest(held0, cap as int) == held0);
            }
            let n = match machine.feed(c, offset) {
                Ok(n) => n,
                Err(e) => {
                    proof {
                        let space = cap - held0.len();
                        let m = if c@.len() - offset < space {
                            c@.len() - offset
                        } else {
                            space
                        };
                        let delta = c@.subrange(offset as int, offset + m);
                        lemma_frame_append(consumed0, delta, cap as int);
                        assert(frame_packets(held0 + delta, cap as int) is None);
                        assert(frame_packets(consumed0 + delta, cap as int) is None);
                        let suffix = c@.skip(offset + m) + rest_chunks;
                        assert(c@.skip(offset as int) =~= delta + c@.skip(offset + m));
                        assert(full =~= (consumed0 + delta) + suffix);
                        lemma_frame_none_append(consumed0 + delta, suffix, cap as int);
                        assert(frame_packets(full, cap as int) is None);
                    }
                    return Err(e);
                },
            };
            proof {
                let delta = c@.subrange(offset as int, offset + n);
                lemma_frame_append(consumed0, delta, cap as int);
                consumed = consumed0 + delta;
                assert(machine.held() == held0 + delta);
                assert(frame_rest(consumed, cap as int) == frame_rest(machine.held(), cap as int));
                let suffix = c@.skip(offset + n) + rest_chunks;
                assert(c@.skip(offset as int) =~= delta + c@.skip(offset + n));
                assert(full =~= consumed + suffix);
            }
            offset = offset + n;
            while machine.ready_to_write()
                invariant
                    cap >= IP_PACKET_HEADER_MIN_SIZE,
                    offset <= c@.len(),
                    machine.wf(),
                    machine.cap() == cap,
                    machine.start() == 0,
                    (frame_packets(machine.held(), cap as int) matches Some(h)
                        ==> frame_packets(consumed, cap as int) == Some(views_of(out@) + h)),
                    (frame_packets(machine.held(), cap as int) is None ==> frame_packets(
                        consumed,
                        cap as int,
                    ) is None),
                    frame_rest(consumed, cap as int) == frame_rest(machine.held(), cap as int),
                    full == consumed + (c@.skip(offset as int) + rest_chunks),
                    full == concat_chunks(views_of(chunks@)),
                decreases machine.held().len(),
            {
                let ghost held1 = machine.held();
                let ghost len1 = declared_len(held1);
                let p = match machine.take_packet() {
                    Ok(p) => p,
                    Err(e) => {
                        proof {
                            assert(!head_ok(held1.skip(len1), cap as int));
                            assert(held1.skip(len1).len() >= IP_PACKET_HEADER_MIN_SIZE);
                            assert(frame_packets(held1.skip(len1), cap as int) is None);
                            assert(frame_packets(held1, cap as int) is None);
                            assert(frame_packets(consumed, cap as int) is None);
                            let suffix = c@.skip(offset as int) + rest_chunks;
                            lemma_frame_none_append(consumed, suffix, cap as int);
                            assert(frame_packets(full, cap as int) is None);
                        }
                        return Err(e);
                    },
                };
                proof {
                    let rest1 = held1.skip(len1);
                    assert(machine.held() == rest1);
                    assert(frame_rest(held1, cap as int) == frame_rest(rest1, cap as int));
                    match frame_packets(rest1, cap as int) {
                        None => {
                            assert(frame_packets(held1, cap as int) is None);
                        },
                        Some(h) => {
                            assert(frame_packets(held1, cap as int) == Some(
                                seq![held1.take(len1)] + h,
                            ));
                            assert(views_of(out@.push(p)) =~= views_of(out@).push(p@));
                            assert(views_of(out@) + (seq![held1.take(len1)] + h) =~= views_of(
                                out@.push(p),
                            ) + h);
                        },
                    }
                }
                out.push(p);
            }
            proof {
                assert(frame_packets(machine.held(), cap as int) == Some(
                    Seq::<Seq<u8>>::empty(),
                ));
                assert(frame_rest(machine.held(), cap as int) == machine.held());
                assert(views_of(out@) + Seq::<Seq<u8>>::empty() =~= views_of(out@));
            }
        }
        proof {
            assert(c@.skip(c@.len() as int) =~= Seq::<u8>::empty());
            assert(Seq::<u8>::empty() + rest_chunks =~= rest_chunks);
            assert(full == consumed + rest_chunks);
        }
        i = i + 1;
    }
    proof {
        assert(views_of(chunks@).skip(chunks@.len() as int) =~= Seq::<Seq<u8>>::empty());
        assert(concat_chunks(Seq::<Seq<u8>>::empty()) == Seq::<u8>::empty());
        assert(full =~= consumed);
    }
    Ok(out)
}

} // verus!
