//! The message and datagram buffers, and the poller event helpers.

use std::collections::VecDeque;

use simple_tunnel::datagram;
use simple_tunnel::datagram::DatagramBuffer;
use simple_tunnel::errors::TunnelError;
use simple_tunnel::message::{message_step, recompute_interest, MessageBuffer, MessageIo};
use simple_tunnel::poller::{epoll_timeout_millis, Event};

/// A scripted message endpoint: whole messages in, whole messages out.
/// Sends can be told to fail for a while.
struct ScriptedMessages {
    incoming: VecDeque<Vec<u8>>,
    outgoing: Vec<Vec<u8>>,
    flushed: usize,
    send_failures: usize,
}

impl ScriptedMessages {
    fn new() -> Self {
        ScriptedMessages {
            incoming: VecDeque::new(),
            outgoing: Vec::new(),
            flushed: 0,
            send_failures: 0,
        }
    }
}

impl MessageIo for ScriptedMessages {
    fn recv(&mut self, buf: &mut Vec<u8>) -> Result<usize, TunnelError> {
        match self.incoming.pop_front() {
            None => Err(TunnelError::WouldBlock),
            Some(msg) => {
                if msg.len() > buf.len() {
                    return Err(TunnelError::Oversized);
                }
                buf[..msg.len()].copy_from_slice(&msg);
                Ok(msg.len())
            }
        }
    }

    fn send(&mut self, buf: &Vec<u8>) -> Result<usize, TunnelError> {
        if self.send_failures > 0 {
            self.send_failures -= 1;
            return Err(TunnelError::WouldBlock);
        }
        self.outgoing.push(buf.clone());
        Ok(buf.len())
    }

    fn flush(&mut self) -> Result<(), TunnelError> {
        self.flushed += 1;
        Ok(())
    }
}

impl datagram::Rx for ScriptedMessages {
    fn recv(&mut self, buf: &mut Vec<u8>) -> Result<usize, TunnelError> {
        MessageIo::recv(self, buf)
    }
}

impl datagram::Tx for ScriptedMessages {
    fn send(&mut self, buf: &Vec<u8>) -> Result<usize, TunnelError> {
        MessageIo::send(self, buf)
    }

    fn flush(&mut self) -> Result<(), TunnelError> {
        MessageIo::flush(self)
    }
}

#[test]
fn event_constructors_set_exactly_the_flags() {
    assert_eq!(Event::all(7), Event { key: 7, readable: true, writable: true });
    assert_eq!(Event::readable(7), Event { key: 7, readable: true, writable: false });
    assert_eq!(Event::writable(7), Event { key: 7, readable: false, writable: true });
    assert_eq!(Event::none(7), Event { key: 7, readable: false, writable: false });
}

#[test]
fn timeout_conversion_rounds_up_and_saturates() {
    assert_eq!(epoll_timeout_millis(None), -1);
    assert_eq!(epoll_timeout_millis(Some((0, false))), 0);
    assert_eq!(epoll_timeout_millis(Some((0, true))), 1);
    assert_eq!(epoll_timeout_millis(Some((250, false))), 250);
    assert_eq!(epoll_timeout_millis(Some((250, true))), 251);
    assert_eq!(epoll_timeout_millis(Some((u64::MAX, true))), i32::MAX);
}

#[test]
fn message_buffer_holds_one_message_at_a_time() {
    let mut side = ScriptedMessages::new();
    side.incoming.push_back(vec![1, 2, 3]);
    side.incoming.push_back(vec![4, 5]);

    let mut buf = MessageBuffer::new();
    assert!(buf.empty());
    buf.read(&mut side).unwrap();
    assert!(!buf.empty());
    // A second read with a pending message changes nothing.
    buf.read(&mut side).unwrap();
    assert_eq!(side.incoming.len(), 1);

    buf.write(&mut side).unwrap();
    assert!(buf.empty());
    assert_eq!(side.outgoing, vec![vec![1, 2, 3]]);
    assert_eq!(side.flushed, 1);
}

#[test]
fn message_step_moves_one_message_and_rearms() {
    let mut a = ScriptedMessages::new();
    let mut b = ScriptedMessages::new();
    let mut ab = MessageBuffer::new();
    let mut ba = MessageBuffer::new();
    a.incoming.push_back(vec![9, 9, 9]);

    let ev = Event { key: 100, readable: true, writable: false };
    let (ea, eb) = message_step(&mut a, &mut b, &mut ab, &mut ba, &ev, 100, 200).unwrap();
    // The message now waits for b to become writable.
    assert_eq!(ea, Event { key: 100, readable: false, writable: false });
    assert_eq!(eb, Event { key: 200, readable: true, writable: true });

    let ev = Event { key: 200, readable: false, writable: true };
    let (ea, eb) = message_step(&mut a, &mut b, &mut ab, &mut ba, &ev, 100, 200).unwrap();
    assert_eq!(b.outgoing, vec![vec![9, 9, 9]]);
    assert_eq!(ea, Event { key: 100, readable: true, writable: false });
    assert_eq!(eb, Event { key: 200, readable: true, writable: false });
}

#[test]
fn interest_recomputation_is_symmetric() {
    let (a, b) = recompute_interest(100, 200, true, true);
    assert_eq!(a, Event { key: 100, readable: true, writable: false });
    assert_eq!(b, Event { key: 200, readable: true, writable: false });

    let (a, b) = recompute_interest(100, 200, false, true);
    assert_eq!(a, Event { key: 100, readable: false, writable: false });
    assert_eq!(b, Event { key: 200, readable: true, writable: true });
}

#[test]
fn datagram_buffer_forwards_one_datagram() {
    let mut src = ScriptedMessages::new();
    let mut dst = ScriptedMessages::new();
    src.incoming.push_back(vec![7; 64]);

    let mut buf = DatagramBuffer::new();
    buf.read_write(&mut src, &mut dst).unwrap();
    assert_eq!(dst.outgoing, vec![vec![7; 64]]);
    assert_eq!(dst.flushed, 1);

    // Nothing more to read: backpressure, not an error.
    let r = buf.read_write(&mut src, &mut dst);
    assert_eq!(r.unwrap_err(), TunnelError::WouldBlock);
}

#[test]
fn blocked_datagram_is_resent_once_and_not_duplicated() {
    let mut src = ScriptedMessages::new();
    let mut dst = ScriptedMessages::new();
    src.incoming.push_back(vec![5; 48]);
    dst.send_failures = 1;

    let mut buf = DatagramBuffer::new();
    // First round: received, but the destination would block.
    let r = buf.read_write(&mut src, &mut dst);
    assert_eq!(r.unwrap_err(), TunnelError::WouldBlock);
    assert!(dst.outgoing.is_empty());

    // Next round: the held datagram goes out exactly once, without
    // another receive.
    buf.read_write(&mut src, &mut dst).unwrap();
    assert_eq!(dst.outgoing, vec![vec![5; 48]]);
    assert!(src.incoming.is_empty());
}

#[test]
fn blocked_message_stays_pending_until_sent() {
    let mut side = ScriptedMessages::new();
    side.incoming.push_back(vec![8; 16]);
    let mut buf = MessageBuffer::new();
    buf.read(&mut side).unwrap();

    side.send_failures = 1;
    let r = buf.write(&mut side);
    assert_eq!(r.unwrap_err(), TunnelError::WouldBlock);
    assert!(!buf.empty());
    assert!(side.outgoing.is_empty());

    buf.write(&mut side).unwrap();
    assert!(buf.empty());
    assert_eq!(side.outgoing, vec![vec![8; 16]]);
}
