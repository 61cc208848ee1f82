//! Datagram-framed transport: one whole datagram per receive and per
//! send, forwarded between two endpoints without any reframing.
//!
//! Ghost histories on the traits record every datagram delivered and
//! accepted, so the forwarder can promise that what it hands on is
//! exactly what it received.

use vstd::prelude::*;

use crate::errors::TunnelError;

verus! {

/// The size of a datagram buffer, and so the largest acceptable datagram.
pub const DATAGRAM_BUF_SIZE: usize = 2048;

/// Receives one single datagram per call; datagrams may not come in order.
/// A successful receive delivers a whole datagram of at least one byte
/// into the front of `buf` and records it in the `delivered` history.
pub trait Rx {
    /// All datagrams this source has delivered so far, oldest first.  The
    /// default is the empty history, so that adapters outside the
    /// verifier can implement the trait without ghost code.
    open spec fn delivered(&self) -> Seq<Seq<u8>> {
        Seq::empty()
    }

    /// Receive one datagram into the front of `buf`, returning its length.
    fn recv(&mut self, buf: &mut Vec<u8>) -> (r: Result<usize, TunnelError>)
        ensures
            final(buf)@.len() == old(buf)@.len(),
            r matches Ok(n) ==> 1 <= n <= old(buf)@.len() && final(self).delivered() == old(self).delivered().push(final(buf)@.take(n as int)),
            r matches Err(_) ==> final(self).delivered() == old(self).delivered(),
    ;
}

/// Sends one single datagram per call.  A successful send accepts the
/// whole datagram and records it in the `accepted` history; it may be
/// queued in a buffer instead of sent at once, and `flush` sends all
/// queued datagrams.
pub trait Tx {
    /// All datagrams this destination has accepted so far, oldest first.
    /// The default is the empty history, as for [`Rx::delivered`].
    open spec fn accepted(&self) -> Seq<Seq<u8>> {
        Seq::empty()
    }

    /// Send `buf` as one datagram, returning its full length.
    fn send(&mut self, buf: &Vec<u8>) -> (r: Result<usize, TunnelError>)
        requires
            buf@.len() >= 1,
        ensures
            r matches Ok(n) ==> n == buf@.len() && final(self).accepted() == old(self).accepted().push(buf@),
            r matches Err(_) ==> final(self).accepted() == old(self).accepted(),
    ;

    /// Flush the buffer to send all queued datagrams.
    fn flush(&mut self) -> (r: Result<(), TunnelError>)
        ensures
            final(self).accepted() == old(self).accepted(),
    ;
}

/// Turns "would block" into `Ok(None)`, any other error stays an error,
/// and success becomes `Ok(Some(..))`.
pub trait NonBlockingResult<T> {
    /// Separate backpressure from failure.
    fn no_block(self) -> Result<Option<T>, TunnelError>;
}

impl<T> NonBlockingResult<T> for Result<T, TunnelError> {
    fn no_block(self) -> (r: Result<Option<T>, TunnelError>)
        ensures
            self matches Ok(x) ==> r == Ok::<Option<T>, TunnelError>(Some(x)),
            self matches Err(e) ==> r == if e == TunnelError::WouldBlock {
                Ok::<Option<T>, TunnelError>(None)
            } else {
                Err::<Option<T>, TunnelError>(e)
            },
    {
        match self {
            Ok(x) => Ok(Some(x)),
            Err(e) => if e == TunnelError::WouldBlock {
                Ok(None)
            } else {
                Err(e)
            },
        }
    }
}

/// A single-datagram buffer for one direction of the datagram pump.
pub struct DatagramBuffer {
    buf: Vec<u8>,
    size: usize,
}

impl DatagramBuffer {
    /// Structural well-formedness: a held datagram always fits the buffer.
    pub closed spec fn wf(&self) -> bool {
        &&& self.buf@.len() == DATAGRAM_BUF_SIZE
        &&& self.size <= self.buf@.len()
    }

    /// Whether a datagram is held, waiting to be forwarded.
    pub closed spec fn spec_holding(&self) -> bool {
        self.size > 0
    }

    /// The bytes of the held datagram.
    pub closed spec fn held_bytes(&self) -> Seq<u8> {
        self.buf@.take(self.size as int)
    }

    /// Creates an empty buffer.
    pub fn new() -> (r: DatagramBuffer)
        ensures
            r.wf(),
            !r.spec_holding(),
    {
        DatagramBuffer { buf: vec![0u8; DATAGRAM_BUF_SIZE], size: 0 }
    }

    /// Forwards one datagram from `src` to `dst`: receives one if none is
    /// held, then sends it whole and flushes.  On success the destination
    /// accepted exactly the received datagram and the buffer is empty
    /// again; a datagram the destination did not accept stays held, to be
    /// resent — never duplicated — on the next round.
    pub fn read_write<S: Rx, D: Tx>(&mut self, src: &mut S, dst: &mut D) -> (r: Result<
        (),
        TunnelError,
    >)
        requires
            old(self).wf(),
        ensures
            final(self).wf(),
            old(self).spec_holding() ==> final(src).delivered() == old(src).delivered(),
            final(src).delivered() == old(src).delivered() || final(src).delivered() == old(src).delivered().push(final(src).delivered().last()),
            ({
                let m = if old(self).spec_holding() {
                    old(self).held_bytes()
                } else {
                    final(src).delivered().last()
                };
                &&& (r matches Ok(()) ==> (!final(self).spec_holding() && final(dst).accepted()
                    == old(dst).accepted().push(m) && (!old(self).spec_holding() ==> final(src).delivered() == old(src).delivered().push(m))))
                &&& (r matches Err(_) ==> final(dst).accepted() == old(dst).accepted() || final(dst).accepted() == old(dst).accepted().push(m))
                &&& (r matches Err(_) && final(dst).accepted() == old(dst).accepted() && (old(self).spec_holding() || final(src).delivered().len() > old(src).delivered().len())
                    ==> (final(self).spec_holding() && final(self).held_bytes() == m))
            }),
    {
        if self.size == 0 {
            let n = match src.recv(&mut self.buf) {
                Ok(n) => n,
                Err(e) => {
                    return Err(e);
                },
            };
            self.size = n;
        }
        let mut seg: Vec<u8> = Vec::new();
        let mut k: usize = 0;
        while k < self.size
            invariant
                k <= self.size,
                self.size <= self.buf@.len(),
                seg@ == self.buf@.subrange(0, k as int),
            decreases self.size - k,
        {
            let b = self.buf[k];
            seg.push(b);
            proof {
                assert(seg@ =~= self.buf@.subrange(0, k + 1));
            }
            k = k + 1;
        }
        proof {
            assert(seg@ =~= self.held_bytes());
        }
        let n = match dst.send(&seg) {
            Ok(n) => n,
            Err(e) => {
                return Err(e);
            },
        };
        self.size = self.size - n;
        match dst.flush() {
            Ok(()) => {},
            Err(e) => {
                proof {
                    assert(dst.accepted().len() == old(dst).accepted().len() + 1);
                }
                return Err(e);
            },
        }
        Ok(())
    }
}

} // verus!
