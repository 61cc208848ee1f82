//! Message-framed transport: one whole message per receive, one whole
//! message per send.
//!
//! A WebSocket carrier already has message boundaries, so no length
//! parsing is needed here; a [`MessageBuffer`] holds at most one pending
//! message per direction and the pump shuttles it across on readiness.
//! Ghost histories on the endpoint traits record every message delivered
//! and accepted, so the buffer and the pump step can promise that what
//! goes out is exactly what came in.

use vstd::prelude::*;

use crate::errors::{TunnelError, is_blocked};
use crate::poller::Event;

verus! {

/// The size of a message buffer, and so the largest acceptable message.
pub const MESSAGE_BUF_SIZE: usize = 2048;

/// The receive half of a message endpoint, for callers that only read.
/// A successful receive delivers a whole message of at least one byte
/// into the front of `buf` and records it in the `delivered` history; an
/// empty read is end of file and must be reported as `UnexpectedEof`.
pub trait Rx {
    /// All messages this source has delivered so far, oldest first.  The
    /// default is the empty history, so that adapters outside the
    /// verifier can implement the trait without ghost code.
    open spec fn delivered(&self) -> Seq<Seq<u8>> {
        Seq::empty()
    }

    /// Receive one message into the front of `buf`, returning its length.
    fn recv(&mut self, buf: &mut Vec<u8>) -> (r: Result<usize, TunnelError>)
        ensures
            final(buf)@.len() == old(buf)@.len(),
            r matches Ok(n) ==> 1 <= n <= old(buf)@.len() && final(self).delivered() == old(self).delivered().push(final(buf)@.take(n as int)),
            r matches Err(_) ==> final(self).delivered() == old(self).delivered(),
    ;
}

/// The send half of a message endpoint, for callers that only write.
/// A successful send accepts the whole message — partial sends are not
/// permitted — and records it in the `accepted` history; the message may
/// still sit in a protocol buffer until `flush`.
pub trait Tx {
    /// All messages this destination has accepted so far, oldest first.
    /// The default is the empty history, as for [`Rx::delivered`].
    open spec fn accepted(&self) -> Seq<Seq<u8>> {
        Seq::empty()
    }

    /// Send `buf` as one message, returning its full length.
    fn send(&mut self, buf: &Vec<u8>) -> (r: Result<usize, TunnelError>)
        requires
            buf@.len() >= 1,
        ensures
            r matches Ok(n) ==> n == buf@.len() && final(self).accepted() == old(self).accepted().push(buf@),
            r matches Err(_) ==> final(self).accepted() == old(self).accepted(),
    ;

    /// Flush the buffer to send all queued messages.
    fn flush(&mut self) -> (r: Result<(), TunnelError>)
        ensures
            final(self).accepted() == old(self).accepted(),
    ;
}

/// A duplex message endpoint, as the pump sees one object that both
/// receives and sends.  The operations are those of [`Rx`] and [`Tx`],
/// with one promise more: neither half ever touches the other half's
/// history.
pub trait MessageIo {
    /// All messages this endpoint has delivered to its reader, oldest
    /// first.  The default is the empty history, so that adapters outside
    /// the verifier can implement the trait without ghost code.
    open spec fn delivered(&self) -> Seq<Seq<u8>> {
        Seq::empty()
    }

    /// All messages this endpoint has accepted from its writer, oldest
    /// first.  The default is the empty history, as for `delivered`.
    open spec fn accepted(&self) -> Seq<Seq<u8>> {
        Seq::empty()
    }

    /// Receive one message into the front of `buf`, returning its length.
    fn recv(&mut self, buf: &mut Vec<u8>) -> (r: Result<usize, TunnelError>)
        ensures
            final(buf)@.len() == old(buf)@.len(),
            final(self).accepted() == old(self).accepted(),
            r matches Ok(n) ==> 1 <= n <= old(buf)@.len() && final(self).delivered() == old(self).delivered().push(final(buf)@.take(n as int)),
            r matches Err(_) ==> final(self).delivered() == old(self).delivered(),
    ;

    /// Send `buf` as one message, returning its full length.
    fn send(&mut self, buf: &Vec<u8>) -> (r: Result<usize, TunnelError>)
        requires
            buf@.len() >= 1,
        ensures
            final(self).delivered() == old(self).delivered(),
            r matches Ok(n) ==> n == buf@.len() && final(self).accepted() == old(self).accepted().push(buf@),
            r matches Err(_) ==> final(self).accepted() == old(self).accepted(),
    ;

    /// Flush the buffer to send all queued messages.
    fn flush(&mut self) -> (r: Result<(), TunnelError>)
        ensures
            final(self).delivered() == old(self).delivered(),
            final(self).accepted() == old(self).accepted(),
    ;
}

/// A single-message buffer for one direction of the message pump.
pub struct MessageBuffer {
    buf: Vec<u8>,
    size: usize,
    pending: bool,
}

impl MessageBuffer {
    /// Structural well-formedness: a held message always fits the buffer.
    pub closed spec fn wf(&self) -> bool {
        &&& self.buf@.len() == MESSAGE_BUF_SIZE
        &&& self.size <= self.buf@.len()
    }

    /// Whether no message is pending.
    pub closed spec fn spec_empty(&self) -> bool {
        !self.pending
    }

    /// The bytes of the pending message that are still unsent; empty once
    /// the message has been handed over and only its flush is owed.
    pub closed spec fn pending_bytes(&self) -> Seq<u8> {
        self.buf@.take(self.size as int)
    }

    /// Creates an empty buffer.
    pub fn new() -> (r: MessageBuffer)
        ensures
            r.wf(),
            r.spec_empty(),
    {
        MessageBuffer { buf: vec![0u8; MESSAGE_BUF_SIZE], size: 0, pending: false }
    }

    /// Whether the buffer has room to receive a message.
    pub fn empty(&self) -> (r: bool)
        requires
            self.wf(),
        ensures
            r == self.spec_empty(),
    {
        !self.pending
    }

    /// Receives one message if none is pending; does nothing otherwise.
    /// On success exactly the message the source delivered is pending; a
    /// failed receive leaves the buffer empty so the next readiness event
    /// retries.
    pub fn read<R: MessageIo>(&mut self, socket: &mut R) -> (r: Result<(), TunnelError>)
        requires
            old(self).wf(),
        ensures
            final(self).wf(),
            final(socket).accepted() == old(socket).accepted(),
            !old(self).spec_empty() ==> r == Ok::<(), TunnelError>(()) && *final(self) == *old(self) && final(socket).delivered() == old(socket).delivered(),
            r matches Ok(()) ==> !final(self).spec_empty(),
            r matches Ok(()) && old(self).spec_empty() ==> final(self).pending_bytes().len() >= 1
                && final(socket).delivered() == old(socket).delivered().push(
                final(self).pending_bytes(),
            ),
            r matches Err(_) ==> final(self).spec_empty() == old(self).spec_empty() && final(socket).delivered() == old(socket).delivered(),
    {
        if !self.empty() {
            return Ok(());
        }
        let n = match socket.recv(&mut self.buf) {
            Ok(n) => n,
            Err(e) => {
                return Err(e);
            },
        };
        self.size = n;
        self.pending = true;
        Ok(())
    }

    /// Sends the pending message, if any, and flushes.  On success the
    /// destination has accepted exactly the pending bytes and the buffer
    /// is empty again.  A send that "would block" keeps the message
    /// pending for the next writable event; a flush that "would block"
    /// after the message was accepted keeps only the flush owed.
    pub fn write<T: MessageIo>(&mut self, socket: &mut T) -> (r: Result<(), TunnelError>)
        requires
            old(self).wf(),
        ensures
            final(self).wf(),
            final(socket).delivered() == old(socket).delivered(),
            old(self).spec_empty() ==> r == Ok::<(), TunnelError>(()) && *final(self) == *old(self) && final(socket).accepted() == old(socket).accepted(),
            r matches Ok(()) ==> final(self).spec_empty(),
            r matches Ok(()) && !old(self).spec_empty() && old(self).pending_bytes().len() >= 1
                ==> final(socket).accepted() == old(socket).accepted().push(
                old(self).pending_bytes(),
            ),
            r matches Ok(()) && !old(self).spec_empty() && old(self).pending_bytes().len() == 0
                ==> final(socket).accepted() == old(socket).accepted(),
            r matches Err(_) ==> final(self).spec_empty() == old(self).spec_empty() && ((*final(self) == *old(self) && final(socket).accepted() == old(socket).accepted()) || (final(socket).accepted() == old(socket).accepted().push(old(self).pending_bytes()) && final(self).pending_bytes() == Seq::<u8>::empty())),
    {
        if self.empty() {
            return Ok(());
        }
        while self.size > 0
            invariant
                self.wf(),
                !self.spec_empty(),
                !old(self).spec_empty(),
                self.buf == old(self).buf,
                socket.delivered() == old(socket).delivered(),
                (self.size == old(self).size && socket.accepted() == old(socket).accepted()) || (
                old(self).size > 0 && self.size == 0 && socket.accepted() == old(socket).accepted().push(old(self).pending_bytes())),
            decreases self.size,
        {
            let mut seg: Vec<u8> = Vec::new();
            let mut k: usize = 0;
            while k < self.size
                invariant
                    k <= self.size,
                    self.size <= self.buf@.len(),
                    seg@ == self.buf@.subrange(0, k as int),
                decreases self.size - k,
            {
                let b = self.buf[k];
                seg.push(b);
                proof {
                    assert(seg@ =~= self.buf@.subrange(0, k + 1));
                }
                k = k + 1;
            }
            proof {
                assert(seg@ =~= self.pending_bytes());
            }
            let n = match socket.send(&seg) {
                Ok(n) => n,
                Err(e) => {
                    return Err(e);
                },
            };
            self.size = self.size - n;
        }
        match socket.flush() {
            Ok(()) => {},
            Err(e) => {
                proof {
                    assert(self.pending_bytes() =~= Seq::<u8>::empty());
                }
                return Err(e);
            },
        }
        self.pending = false;
        Ok(())
    }
}

/// Recomputes poller interest for the message pump from buffer state
/// alone: each side is read while the buffer it fills is empty, and is
/// written to while the buffer headed its way holds a message.
pub fn recompute_interest(key_a: usize, key_b: usize, ab_empty: bool, ba_empty: bool) -> (r: (
    Event,
    Event,
))
    ensures
        r.0 == (Event { key: key_a, readable: ab_empty, writable: !ba_empty }),
        r.1 == (Event { key: key_b, readable: ba_empty, writable: !ab_empty }),
{
    (
        Event { key: key_a, readable: ab_empty, writable: !ba_empty },
        Event { key: key_b, readable: ba_empty, writable: !ab_empty },
    )
}

/// Handles one readiness event of the message pump: performs the reads
/// and writes the event allows, treats "would block" as backpressure, and
/// returns the interest to re-arm both registrations with.
///
/// The content clauses carry the data plane's promise per direction: a
/// destination accepts only the message that was pending towards it, a
/// non-trivial pending message that leaves the buffer was accepted, and
/// every message a source delivers becomes the pending message — nothing
/// is invented, dropped or reordered.
pub fn message_step<A: MessageIo, B: MessageIo>(
    a: &mut A,
    b: &mut B,
    ab_buf: &mut MessageBuffer,
    ba_buf: &mut MessageBuffer,
    ev: &Event,
    key_a: usize,
    key_b: usize,
) -> (r: Result<(Event, Event), TunnelError>)
    requires
        old(ab_buf).wf(),
        old(ba_buf).wf(),
        key_a != key_b,
    ensures
        final(ab_buf).wf(),
        final(ba_buf).wf(),
        ev.key != key_a && ev.key != key_b ==> (r matches Ok(_) && *final(ab_buf) == *old(ab_buf)
            && *final(ba_buf) == *old(ba_buf) && *final(a) == *old(a) && *final(b) == *old(b)),
        r matches Ok(evs) ==> evs.0 == (Event {
            key: key_a,
            readable: final(ab_buf).spec_empty(),
            writable: !final(ba_buf).spec_empty(),
        }) && evs.1 == (Event {
            key: key_b,
            readable: final(ba_buf).spec_empty(),
            writable: !final(ab_buf).spec_empty(),
        }),
        final(b).accepted() == old(b).accepted() || (!old(ab_buf).spec_empty() && final(b).accepted() == old(b).accepted().push(old(ab_buf).pending_bytes())),
        !old(ab_buf).spec_empty() && old(ab_buf).pending_bytes().len() >= 1 && final(ab_buf).spec_empty() ==> final(b).accepted() == old(b).accepted().push(
            old(ab_buf).pending_bytes(),
        ),
        final(a).delivered() == old(a).delivered() || (old(ab_buf).spec_empty() && !final(ab_buf).spec_empty() && final(a).delivered() == old(a).delivered().push(
            final(ab_buf).pending_bytes(),
        )),
        final(a).accepted() == old(a).accepted() || (!old(ba_buf).spec_empty() && final(a).accepted() == old(a).accepted().push(old(ba_buf).pending_bytes())),
        !old(ba_buf).spec_empty() && old(ba_buf).pending_bytes().len() >= 1 && final(ba_buf).spec_empty() ==> final(a).accepted() == old(a).accepted().push(
            old(ba_buf).pending_bytes(),
        ),
        final(b).delivered() == old(b).delivered() || (old(ba_buf).spec_empty() && !final(ba_buf).spec_empty() && final(b).delivered() == old(b).delivered().push(
            final(ba_buf).pending_bytes(),
        )),
        r matches Err(e) ==> e != TunnelError::WouldBlock,
{
    if ev.key == key_a {
        if ev.readable {
            match is_blocked(ab_buf.read(a)) {
                Ok(_) => {},
                Err(e) => {
                    return Err(e);
                },
            }
        }
        if ev.writable {
            match is_blocked(ba_buf.write(a)) {
                Ok(_) => {},
                Err(e) => {
                    return Err(e);
                },
            }
        }
    }
    if ev.key == key_b {
        if ev.readable {
            match is_blocked(ba_buf.read(b)) {
                Ok(_) => {},
                Err(e) => {
                    return Err(e);
                },
            }
        }
        if ev.writable {
            match is_blocked(ab_buf.write(b)) {
                Ok(_) => {},
                Err(e) => {
                    return Err(e);
                },
            }
        }
    }
    let ab_empty = ab_buf.empty();
    let ba_empty = ba_buf.empty();
    Ok(recompute_interest(key_a, key_b, ab_empty, ba_empty))
}

} // verus!
