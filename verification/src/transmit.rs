//! The write path: one text on its way to the transmit endpoint.

use crate::newline::{lemma_normalized_push, lemma_normalized_split, normalized, CR, LF};
use vstd::prelude::*;

verus! {

/// The transmit endpoint reported an error, and the rest of the text was
/// abandoned.
#[derive(Clone, Copy, Debug, PartialEq, Eq, Structural)]
pub struct TransmitError;

/// Why a formatted write did not complete.
#[derive(Clone, Copy, Debug, PartialEq, Eq, Structural)]
pub enum WriteError {
    /// The transmit endpoint reported an error, and the rest of the text was
    /// abandoned.
    Transmit,
    /// The value's own formatting code reported an error, after all that it
    /// had made until then was written.
    Format,
}

/// What the transmit endpoint answered when it was offered one byte.
#[derive(Clone, Copy, Debug, PartialEq, Eq, Structural)]
pub enum Answer {
    /// It took the byte.
    Accepted,
    /// It had no room yet: the byte is to be offered again.
    Busy,
    /// It reported an error.
    Failed,
}

/// One text on its way out, byte by byte.
///
/// The driver asks for the byte to offer to the transmit endpoint
/// ([`Transmission::pending`]), offers it, and reports what the endpoint
/// answered ([`Transmission::settle`]), until nothing is pending. A byte that
/// found the endpoint busy stays pending, so the write waits at each byte
/// until the endpoint takes it.
pub struct Transmission<'a> {
    text: &'a [u8],
    pos: usize,
    cr_sent: bool,
    failed: bool,
}

impl<'a> Transmission<'a> {
    #[verifier::type_invariant]
    spec fn inv(self) -> bool {
        &&& self.pos <= self.text@.len()
        &&& self.cr_sent ==> self.pos < self.text@.len() && self.text@[self.pos as int] == LF
    }

    /// The text being written.
    pub closed spec fn source(self) -> Seq<u8> {
        self.text@
    }

    /// The bytes that the endpoint has accepted so far, in order.
    pub closed spec fn delivered(self) -> Seq<u8> {
        normalized(self.text@.take(self.pos as int)) + if self.cr_sent {
            seq![CR]
        } else {
            Seq::<u8>::empty()
        }
    }

    /// Whether the endpoint has reported an error.
    pub closed spec fn faulted(self) -> bool {
        self.failed
    }

    /// The byte to hand to the endpoint next: the first byte of the wire form
    /// that has not been accepted yet, unless the endpoint has failed.
    pub open spec fn pending_byte(self) -> Option<u8> {
        if self.faulted() || self.delivered().len() >= normalized(self.source()).len() {
            None
        } else {
            Some(normalized(self.source())[self.delivered().len() as int])
        }
    }

    /// Starts writing `text`: nothing is delivered yet.
    pub fn begin(text: &'a [u8]) -> (t: Self)
        ensures
            t.source() == text@,
            t.delivered() == Seq::<u8>::empty(),
            !t.faulted(),
    {
        let t = Transmission { text, pos: 0, cr_sent: false, failed: false };
        assert(t.delivered() =~= Seq::<u8>::empty());
        t
    }

    proof fn lemma_position(self)
        requires
            self.inv(),
        ensures
            self.delivered().is_prefix_of(normalized(self.source())),
            self.pos == self.text@.len() ==> self.delivered() == normalized(self.source()),
            self.pos < self.text@.len() ==> {
                &&& self.delivered().len() < normalized(self.source()).len()
                &&& normalized(self.source())[self.delivered().len() as int] == (if self.text@[self.pos as int]
                    == LF && !self.cr_sent {
                    CR
                } else {
                    self.text@[self.pos as int]
                })
            },
    {
        let text = self.text@;
        let wire = normalized(text);
        let at = self.pos as int;
        if at == text.len() {
            assert(text.take(at) =~= text);
            assert(self.delivered() =~= wire);
        } else {
            lemma_normalized_split(text, at);
            assert(self.delivered() =~= wire.subrange(0, self.delivered().len() as int));
        }
    }

    /// The byte to hand to the transmit endpoint next, or `None` when the
    /// whole wire form has been delivered or the endpoint has failed. What
    /// has been delivered is always the beginning of the wire form.
    pub fn pending(&self) -> (next: Option<u8>)
        ensures
            next == self.pending_byte(),
            self.delivered().is_prefix_of(normalized(self.source())),
    {
        proof {
            use_type_invariant(self);
            self.lemma_position();
        }
        if self.failed || self.pos >= self.text.len() {
            None
        } else {
            let byte = self.text[self.pos];
            if byte == LF && !self.cr_sent {
                Some(CR)
            } else {
                Some(byte)
            }
        }
    }

    /// Records what the endpoint answered to the pending byte. A byte that
    /// was taken counts as delivered, and the next one becomes pending. A
    /// busy endpoint changes nothing. An error abandons the rest of the text.
    /// With nothing pending this changes nothing.
    pub fn settle(&mut self, answer: Answer)
        ensures
            final(self).source() == old(self).source(),
            match old(self).pending_byte() {
                None => *final(self) == *old(self),
                Some(byte) => match answer {
                    Answer::Accepted => {
                        &&& final(self).delivered() == old(self).delivered().push(byte)
                        &&& !final(self).faulted()
                    },
                    Answer::Busy => *final(self) == *old(self),
                    Answer::Failed => {
                        &&& final(self).delivered() == old(self).delivered()
                        &&& final(self).faulted()
                    },
                },
            },
    {
        proof {
            use_type_invariant(&*self);
            self.lemma_position();
        }
        if self.failed || self.pos >= self.text.len() {
            return ;
        }
        match answer {
            Answer::Accepted => {},
            Answer::Busy => {
                return ;
            },
            Answer::Failed => {
                self.failed = true;
                return ;
            },
        }
        let byte = self.text[self.pos];
        if byte == LF && !self.cr_sent {
            self.cr_sent = true;
            assert(final(self).delivered() =~= old(self).delivered().push(CR));
        } else {
            proof {
                lemma_normalized_push(self.text@.take(self.pos as int), byte);
                assert(self.text@.take(self.pos as int + 1) =~= self.text@.take(self.pos as int).push(
                    byte,
                ));
            }
            *self = Transmission {
                text: self.text,
                pos: self.pos + 1,
                cr_sent: false,
                failed: false,
            };
            assert(self.delivered() =~= old(self).delivered().push(byte));
        }
    }

    /// How the write ended so far: an error once the endpoint has failed.
    pub fn outcome(&self) -> (r: Result<(), TransmitError>)
        ensures
            r.is_err() == self.faulted(),
    {
        if self.failed {
            Err(TransmitError)
        } else {
            Ok(())
        }
    }
}

} // verus!
