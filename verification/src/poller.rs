//! Readiness events for the one-shot poller.
//!
//! The poller itself wraps `epoll` system calls and lives outside the
//! verified library; it hands decoded readiness notifications to the pump as
//! plain [`Event`] values and takes the recomputed interest back as the same
//! type.

use vstd::prelude::*;

verus! {

/// Indicates that a file descriptor can read or write without blocking.
#[derive(Clone, Copy, Debug, PartialEq, Eq, Structural)]
pub struct Event {
    /// Key identifying the file descriptor.
    pub key: usize,
    /// Can it do a read operation without blocking?
    pub readable: bool,
    /// Can it do a write operation without blocking?
    pub writable: bool,
}

impl Event {
    /// All kinds of events (readable and writable).
    pub fn all(key: usize) -> (ev: Event)
        ensures
            ev == (Event { key, readable: true, writable: true }),
    {
        Event { key, readable: true, writable: true }
    }

    /// Only the readable event.
    pub fn readable(key: usize) -> (ev: Event)
        ensures
            ev == (Event { key, readable: true, writable: false }),
    {
        Event { key, readable: true, writable: false }
    }

    /// Only the writable event.
    pub fn writable(key: usize) -> (ev: Event)
        ensures
            ev == (Event { key, readable: false, writable: true }),
    {
        Event { key, readable: false, writable: true }
    }

    /// No events.
    pub fn none(key: usize) -> (ev: Event)
        ensures
            ev == (Event { key, readable: false, writable: false }),
    {
        Event { key, readable: false, writable: false }
    }
}

/// Converts an optional wait timeout into the millisecond argument that
/// `epoll_wait` takes: `-1` blocks indefinitely, other values are the
/// duration rounded up to a whole millisecond, saturated at `i32::MAX`.
///
/// `millis` is the whole-millisecond part of the duration and `submilli`
/// says whether a fractional part below one millisecond remains.
pub fn epoll_timeout_millis(timeout: Option<(u64, bool)>) -> (r: i32)
    ensures
        timeout is None ==> r == -1,
        timeout matches Some((millis, submilli)) ==> {
            let rounded = millis + (if submilli {
                1int
            } else {
                0int
            });
            r == if rounded > i32::MAX {
                i32::MAX as int
            } else {
                rounded
            }
        },
{
    match timeout {
        None => -1,
        Some((millis, submilli)) => {
            let capped: i32 = if millis >= i32::MAX as u64 {
                i32::MAX
            } else {
                millis as i32
            };
            if submilli && capped < i32::MAX {
                capped + 1
            } else {
                capped
            }
        },
    }
}

} // verus!
