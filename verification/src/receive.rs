//! The read path: filling a caller's buffer from the receive endpoint.

use crate::newline::{ends_line, is_line_end};
use vstd::prelude::*;

verus! {

/// What one attempt to take a byte from the receive endpoint gave.
#[derive(Clone, Copy, Debug, PartialEq, Eq, Structural)]
pub enum Received {
    /// A byte was there.
    Byte(u8),
    /// Nothing was there yet.
    NotReady,
    /// The endpoint reported an error.
    Failed,
}

/// The two ways to read.
#[derive(Clone, Copy, Debug, PartialEq, Eq, Structural)]
pub enum Mode {
    /// Wait for each byte, and end with the line or with the buffer.
    Line,
    /// Take what is there, and end when nothing is there or the buffer is
    /// full.
    Drain,
}

/// Whether `event` ends a read in `mode`: an error ends any read, a line
/// feed or carriage return ends a line read, and an empty endpoint ends a
/// draining read.
pub open spec fn ends_read(mode: Mode, event: Received) -> bool {
    match event {
        Received::Byte(byte) => mode == Mode::Line && is_line_end(byte),
        Received::NotReady => mode == Mode::Drain,
        Received::Failed => true,
    }
}

/// The bytes among `events`, in order.
pub open spec fn bytes_of(events: Seq<Received>) -> Seq<u8>
    decreases events.len(),
{
    if events.len() == 0 {
        Seq::empty()
    } else {
        bytes_of(events.drop_last()) + match events.last() {
            Received::Byte(byte) => seq![byte],
            _ => Seq::empty(),
        }
    }
}

/// Whether a read in `mode` with room for `room` bytes, which has been given
/// the first `k` of `events`, asks for no more: none is left, the room is
/// used up, or the last one given ended the read.
pub open spec fn stops(mode: Mode, events: Seq<Received>, room: nat, k: int) -> bool {
    &&& 0 <= k <= events.len()
    &&& (k == events.len() || bytes_of(events.take(k)).len() >= room || (k > 0 && ends_read(
        mode,
        events[k - 1],
    )))
}

/// Whether a read in `mode` with room for `room` bytes takes exactly the
/// first `k` of `events`: it stops there and nowhere before.
pub open spec fn ends_at(mode: Mode, events: Seq<Received>, room: nat, k: int) -> bool {
    &&& stops(mode, events, room, k)
    &&& forall|j: int| 0 <= j < k ==> !stops(mode, events, room, j)
}

/// A buffer that held `before`, after `data` was stored in it from index
/// `cursor` on.
pub open spec fn stored(before: Seq<u8>, cursor: nat, data: Seq<u8>) -> Seq<u8> {
    Seq::new(
        before.len(),
        |i: int|
            if cursor <= i < cursor + data.len() {
                data[i - cursor]
            } else {
                before[i]
            },
    )
}

/// One more event adds its byte, if it has one.
pub proof fn lemma_bytes_of_push(events: Seq<Received>, event: Received)
    ensures
        bytes_of(events.push(event)) == bytes_of(events) + match event {
            Received::Byte(byte) => seq![byte],
            _ => Seq::empty(),
        },
{
    assert(events.push(event).drop_last() =~= events);
}

/// One read in progress: where the next byte goes, and whether the read
/// still goes on.
///
/// The driver asks whether another byte is wanted
/// ([`Intake::wants_more`]), tries the receive endpoint, and hands over what
/// it gave ([`Intake::accept`]), which stores a byte and gives it back to be
/// echoed.
#[derive(Clone, Copy, Debug)]
pub struct Intake {
    mode: Mode,
    start: usize,
    at: usize,
    open: bool,
}

impl Intake {
    #[verifier::type_invariant]
    spec fn inv(self) -> bool {
        self.start <= self.at
    }

    /// The way this read works.
    pub closed spec fn mode(self) -> Mode {
        self.mode
    }

    /// The index in the buffer at which the read began.
    pub closed spec fn origin(self) -> nat {
        self.start as nat
    }

    /// The index in the buffer at which the next byte is stored.
    pub closed spec fn position(self) -> nat {
        self.at as nat
    }

    /// Whether neither a line end, nor an error, nor an empty endpoint has
    /// ended the read.
    pub closed spec fn is_open(self) -> bool {
        self.open
    }

    /// The number of bytes stored by this read.
    pub open spec fn taken(self) -> nat {
        (self.position() - self.origin()) as nat
    }

    /// Whether the read asks for another byte, for a buffer of `capacity`
    /// bytes: it has not ended and the buffer has room.
    pub open spec fn wants(self, capacity: nat) -> bool {
        self.is_open() && self.position() < capacity
    }

    /// Starts a read in `mode` that stores its first byte at index `cursor`
    /// of the buffer.
    pub fn begin(mode: Mode, cursor: usize) -> (intake: Self)
        ensures
            intake.mode() == mode,
            intake.origin() == cursor,
            intake.position() == cursor,
            intake.is_open(),
    {
        Intake { mode, start: cursor, at: cursor, open: true }
    }

    /// Whether to try the receive endpoint again, for a buffer of `capacity`
    /// bytes.
    pub fn wants_more(&self, capacity: usize) -> (r: bool)
        ensures
            r == self.wants(capacity as nat),
    {
        self.open && self.at < capacity
    }

    /// The index in the buffer at which the next byte is stored.
    pub fn cursor(&self) -> (r: usize)
        ensures
            r == self.position(),
    {
        self.at
    }

    /// The number of bytes stored by this read.
    pub fn count(&self) -> (r: usize)
        ensures
            r == self.taken(),
            self.origin() <= self.position(),
    {
        proof {
            use_type_invariant(self);
        }
        self.at - self.start
    }

    /// Takes what one attempt on the receive endpoint gave.
    ///
    /// A byte is stored at the cursor, which moves on, and is given back to
    /// be echoed; in a line read a line feed or carriage return then ends the
    /// read. An empty endpoint ends a draining read and leaves a line read
    /// waiting. An error ends either. Where the read has ended or the buffer
    /// is full, nothing changes and nothing is echoed.
    pub fn accept(&mut self, buf: &mut [u8], event: Received) -> (echo: Option<u8>)
        ensures
            final(buf)@.len() == old(buf)@.len(),
            final(self).mode() == old(self).mode(),
            final(self).origin() == old(self).origin(),
            !old(self).wants(old(buf)@.len()) ==> {
                &&& *final(self) == *old(self)
                &&& final(buf)@ == old(buf)@
                &&& echo is None
            },
            old(self).wants(old(buf)@.len()) ==> match event {
                Received::Byte(byte) => {
                    &&& final(buf)@ == old(buf)@.update(old(self).position() as int, byte)
                    &&& final(self).position() == old(self).position() + 1
                    &&& final(self).is_open() == !ends_read(old(self).mode(), event)
                    &&& echo == Some(byte)
                },
                Received::NotReady => {
                    &&& final(buf)@ == old(buf)@
                    &&& final(self).position() == old(self).position()
                    &&& final(self).is_open() == !ends_read(old(self).mode(), event)
                    &&& echo is None
                },
                Received::Failed => {
                    &&& final(buf)@ == old(buf)@
                    &&& final(self).position() == old(self).position()
                    &&& !final(self).is_open()
                    &&& echo is None
                },
            },
    {
        proof {
            use_type_invariant(&*self);
        }
        if !self.open || self.at >= buf.len() {
            return None;
        }
        match event {
            Received::Byte(byte) => {
                buf[self.at] = byte;
                self.at = self.at + 1;
                match self.mode {
                    Mode::Line => {
                        if ends_line(byte) {
                            self.open = false;
                        }
                    },
                    Mode::Drain => {},
                }
                Some(byte)
            },
            Received::NotReady => {
                match self.mode {
                    Mode::Line => {},
                    Mode::Drain => {
                        self.open = false;
                    },
                }
                None
            },
            Received::Failed => {
                self.open = false;
                None
            },
        }
    }
}

} // verus!
