//! A serial port held in memory.

use crate::newline::{lemma_normalized_concat, lemma_normalized_push, normalized, on_wire};
use crate::receive::{
    bytes_of, ends_at, ends_read, lemma_bytes_of_push, stops, stored, Intake, Mode, Received,
};
use crate::transmit::{Answer, Transmission, TransmitError};
use vstd::prelude::*;

verus! {

/// What a transmit endpoint that takes `capacity` bytes in all, and has
/// taken `sent`, has taken after `bytes` were offered to it one by one: as
/// many of them as it had room for.
pub open spec fn logged(sent: Seq<u8>, capacity: nat, bytes: Seq<u8>) -> Seq<u8> {
    let room = if capacity > sent.len() {
        capacity - sent.len()
    } else {
        0
    };
    if bytes.len() <= room {
        sent + bytes
    } else {
        sent + bytes.take(room)
    }
}

/// Offering two runs of bytes one after the other is offering them joined.
pub proof fn lemma_logged_twice(sent: Seq<u8>, capacity: nat, first: Seq<u8>, second: Seq<u8>)
    ensures
        logged(logged(sent, capacity, first), capacity, second) == logged(
            sent,
            capacity,
            first + second,
        ),
{
    let room = if capacity > sent.len() {
        capacity - sent.len()
    } else {
        0
    };
    if first.len() <= room {
        let left = room - first.len();
        if second.len() <= left {
            assert(sent + first + second =~= sent + (first + second));
        } else {
            assert(sent + first + second.take(left) =~= sent + (first + second).take(room));
        }
    } else {
        assert(sent + first.take(room) =~= sent + (first + second).take(room));
    }
}

/// Both endpoints of a serial channel, held in memory: the outcomes that the
/// receive endpoint will give, one for each attempt, and the bytes that the
/// transmit endpoint has taken.
#[derive(Clone, Debug)]
pub struct Port {
    /// What each attempt on the receive endpoint gives, in order.
    pub incoming: Vec<Received>,
    /// How many of those attempts have been made.
    pub polled: usize,
    /// The bytes that the transmit endpoint has taken, in order.
    pub sent: Vec<u8>,
    /// How many bytes the transmit endpoint takes in all before it reports
    /// errors.
    pub capacity: usize,
}

impl Port {
    /// The outcomes that the receive endpoint has yet to give.
    pub open spec fn pending(&self) -> Seq<Received> {
        if self.polled <= self.incoming@.len() {
            self.incoming@.skip(self.polled as int)
        } else {
            Seq::empty()
        }
    }

    /// How many more bytes the transmit endpoint takes.
    pub open spec fn room(&self) -> nat {
        if self.capacity > self.sent@.len() {
            (self.capacity - self.sent@.len()) as nat
        } else {
            0
        }
    }

    /// What the transmit endpoint has taken after `bytes` were offered to it.
    pub open spec fn sent_after(&self, bytes: Seq<u8>) -> Seq<u8> {
        logged(self.sent@, self.capacity as nat, bytes)
    }

    /// How many more bytes a buffer of `capacity` bytes holds from index
    /// `cursor` on.
    pub open spec fn space(capacity: nat, cursor: nat) -> nat {
        if cursor <= capacity {
            (capacity - cursor) as nat
        } else {
            0
        }
    }

    /// The bytes among the outcomes that the receive endpoint gave between
    /// this state of the port and the state `after`.
    pub open spec fn received_until(&self, after: Port) -> Seq<u8> {
        bytes_of(self.pending().take(after.polled - self.polled))
    }

    /// A port whose receive endpoint will give `incoming`, and whose
    /// transmit endpoint has sent nothing and takes whatever it is given.
    pub fn new(incoming: Vec<Received>) -> (port: Port)
        ensures
            port.incoming == incoming,
            port.polled == 0,
            port.sent@ == Seq::<u8>::empty(),
            port.capacity == usize::MAX,
    {
        Port { incoming, polled: 0, sent: Vec::new(), capacity: usize::MAX }
    }

    /// One attempt on the receive endpoint: the next outcome, or `None` when
    /// none is left.
    pub fn poll(&mut self) -> (event: Option<Received>)
        ensures
            final(self).incoming == old(self).incoming,
            final(self).sent == old(self).sent,
            final(self).capacity == old(self).capacity,
            match event {
                Some(e) => {
                    &&& old(self).pending().len() > 0
                    &&& e == old(self).pending()[0]
                    &&& final(self).polled == old(self).polled + 1
                },
                None => {
                    &&& old(self).pending().len() == 0
                    &&& final(self).polled == old(self).polled
                },
            },
    {
        if self.polled < self.incoming.len() {
            let e = self.incoming[self.polled];
            self.polled = self.polled + 1;
            Some(e)
        } else {
            None
        }
    }

    /// Offers one byte to the transmit endpoint: it is taken, and `true`
    /// comes back, while there is room.
    pub fn transmit(&mut self, byte: u8) -> (accepted: bool)
        ensures
            final(self).incoming == old(self).incoming,
            final(self).polled == old(self).polled,
            final(self).capacity == old(self).capacity,
            accepted == (old(self).room() > 0),
            final(self).sent@ == old(self).sent_after(seq![byte]),
    {
        if self.sent.len() < self.capacity {
            self.sent.push(byte);
            true
        } else {
            assert(seq![byte].take(0) =~= Seq::<u8>::empty());
            assert(self.sent@ + Seq::<u8>::empty() =~= self.sent@);
            false
        }
    }

    /// Writes `text` in its wire form to the transmit endpoint, byte by
    /// byte. At the first byte that the endpoint refuses the rest is
    /// abandoned and the error is returned.
    pub fn write(&mut self, text: &[u8]) -> (r: Result<(), TransmitError>)
        ensures
            final(self).incoming == old(self).incoming,
            final(self).polled == old(self).polled,
            final(self).capacity == old(self).capacity,
            final(self).sent@ == old(self).sent_after(normalized(text@)),
            r.is_ok() == (normalized(text@).len() <= old(self).room()),
    {
        let mut t = Transmission::begin(text);
        let mut next = t.pending();
        while next.is_some()
            invariant
                self.incoming == old(self).incoming,
                self.polled == old(self).polled,
                self.capacity == old(self).capacity,
                t.source() == text@,
                next == t.pending_byte(),
                t.delivered().is_prefix_of(normalized(text@)),
                self.sent@ == old(self).sent@ + t.delivered(),
                t.delivered().len() > 0 ==> self.sent@.len() <= self.capacity,
                t.faulted() ==> self.sent@.len() >= self.capacity && t.delivered().len()
                    < normalized(text@).len(),
            decreases
                    normalized(text@).len() - t.delivered().len() + if t.faulted() {
                        0int
                    } else {
                        1int
                    },
        {
            let byte = next.unwrap();
            let accepted = self.transmit(byte);
            t.settle(
                if accepted {
                    Answer::Accepted
                } else {
                    Answer::Failed
                },
            );
            next = t.pending();
            proof {
                if accepted {
                    assert(self.sent@ =~= old(self).sent@ + t.delivered());
                }
            }
        }
        proof {
            let wire = normalized(text@);
            if !t.faulted() {
                assert(t.delivered() =~= wire);
            } else {
                assert(t.delivered() =~= wire.take(t.delivered().len() as int));
            }
        }
        t.outcome()
    }

    /// Reads in `mode` into `buf` from index `cursor` on, and returns the
    /// number of bytes stored.
    ///
    /// The receive endpoint is tried until it has nothing left to give, the
    /// buffer is full, or what it gave ended the read. Each byte is stored
    /// and then echoed through the write path; an error of the echo is
    /// passed over.
    pub fn receive(&mut self, mode: Mode, cursor: usize, buf: &mut [u8]) -> (n: usize)
        ensures
            final(self).incoming == old(self).incoming,
            final(self).capacity == old(self).capacity,
            ends_at(
                mode,
                old(self).pending(),
                Self::space(old(buf)@.len(), cursor as nat),
                final(self).polled - old(self).polled,
            ),
            n == old(self).received_until(*final(self)).len(),
            n <= Self::space(old(buf)@.len(), cursor as nat),
            final(buf)@ == stored(old(buf)@, cursor as nat, old(self).received_until(*final(self))),
            final(self).sent@ == old(self).sent_after(
                normalized(old(self).received_until(*final(self))),
            ),
    {
        let ghost events = self.pending();
        let ghost room = Self::space(buf@.len(), cursor as nat);
        let mut intake = Intake::begin(mode, cursor);
        proof {
            assert(events.take(0) =~= Seq::<Received>::empty());
            assert(buf@ =~= stored(buf@, cursor as nat, Seq::<u8>::empty()));
            assert(self.sent@ + Seq::<u8>::empty() =~= self.sent@);
        }
        while intake.wants_more(buf.len())
            invariant
                events == old(self).pending(),
                room == Self::space(old(buf)@.len(), cursor as nat),
                self.incoming == old(self).incoming,
                self.capacity == old(self).capacity,
                old(self).polled <= self.polled,
                self.polled - old(self).polled <= events.len(),
                self.pending() == events.skip(self.polled - old(self).polled),
                intake.mode() == mode,
                intake.origin() == cursor,
                intake.position() == cursor + bytes_of(
                    events.take(self.polled - old(self).polled),
                ).len(),
                bytes_of(events.take(self.polled - old(self).polled)).len() <= room,
                buf@.len() == old(buf)@.len(),
                buf@ == stored(
                    old(buf)@,
                    cursor as nat,
                    bytes_of(events.take(self.polled - old(self).polled)),
                ),
                forall|j: int|
                    0 <= j < self.polled - old(self).polled ==> !stops(mode, events, room, j),
                intake.is_open() == !(self.polled - old(self).polled > 0 && ends_read(
                    mode,
                    events[self.polled - old(self).polled - 1],
                )),
                self.sent@ == old(self).sent_after(
                    normalized(bytes_of(events.take(self.polled - old(self).polled))),
                ),
            ensures
                stops(mode, events, room, self.polled - old(self).polled),
            decreases events.len() - (self.polled - old(self).polled),
        {
            let ghost k = self.polled - old(self).polled;
            let ghost data = bytes_of(events.take(k));
            let event = match self.poll() {
                None => {
                    break ;
                },
                Some(event) => event,
            };
            proof {
                assert(event == events[k]);
                assert(events.take(k + 1) =~= events.take(k).push(event));
                lemma_bytes_of_push(events.take(k), event);
                assert(self.pending() =~= events.skip(k + 1));
            }
            match intake.accept(buf, event) {
                Some(byte) => {
                    let one = [byte];
                    let _ = self.write(&one);
                    proof {
                        assert(one@ =~= seq![byte]);
                        lemma_normalized_push(Seq::<u8>::empty(), byte);
                        assert(normalized(seq![byte]) =~= on_wire(byte));
                        lemma_normalized_concat(data, seq![byte]);
                        lemma_logged_twice(
                            old(self).sent@,
                            self.capacity as nat,
                            normalized(data),
                            normalized(seq![byte]),
                        );
                        assert(buf@ =~= stored(old(buf)@, cursor as nat, data + seq![byte]));
                    }
                },
                None => {
                    proof {
                        assert(data + Seq::<u8>::empty() =~= data);
                    }
                },
            }
        }
        intake.count()
    }
}

} // verus!
