//! Newline normalization: how text is laid out on the wire.

use vstd::prelude::*;

verus! {

/// Carriage return.
pub const CR: u8 = 13;

/// Line feed.
pub const LF: u8 = 10;

/// Whether `byte` ends a line that is being typed: a line feed or a
/// carriage return.
pub open spec fn is_line_end(byte: u8) -> bool {
    byte == LF || byte == CR
}

/// The bytes that stand on the wire for one byte of text: a line feed is
/// preceded by a carriage return, every other byte stands for itself.
pub open spec fn on_wire(byte: u8) -> Seq<u8> {
    if byte == LF {
        seq![CR, LF]
    } else {
        seq![byte]
    }
}

/// The wire form of `text`: `text` with every line feed replaced by a
/// carriage return and a line feed.
pub open spec fn normalized(text: Seq<u8>) -> Seq<u8>
    decreases text.len(),
{
    if text.len() == 0 {
        Seq::empty()
    } else {
        normalized(text.drop_last()) + on_wire(text.last())
    }
}

/// The text that a wire form stands for: a carriage return directly before a
/// line feed is dropped.
pub open spec fn restored(wire: Seq<u8>) -> Seq<u8>
    decreases wire.len(),
{
    if wire.len() == 0 {
        Seq::empty()
    } else if wire.len() >= 2 && wire[wire.len() - 2] == CR && wire.last() == LF {
        restored(wire.take(wire.len() - 2)).push(LF)
    } else {
        restored(wire.drop_last()).push(wire.last())
    }
}

/// Whether `byte` ends a line that is being typed.
pub fn ends_line(byte: u8) -> (r: bool)
    ensures
        r == is_line_end(byte),
{
    byte == LF || byte == CR
}

/// Appending one byte to the text appends that byte's wire form.
pub proof fn lemma_normalized_push(text: Seq<u8>, byte: u8)
    ensures
        normalized(text.push(byte)) == normalized(text) + on_wire(byte),
{
    assert(text.push(byte).drop_last() =~= text);
}

/// Normalization works byte by byte: the wire form of two texts joined is
/// the two wire forms joined.
pub proof fn lemma_normalized_concat(head: Seq<u8>, tail: Seq<u8>)
    ensures
        normalized(head + tail) == normalized(head) + normalized(tail),
    decreases tail.len(),
{
    if tail.len() == 0 {
        assert(head + tail =~= head);
        assert(normalized(head) + normalized(tail) =~= normalized(head));
    } else {
        lemma_normalized_concat(head, tail.drop_last());
        assert((head + tail).drop_last() =~= head + tail.drop_last());
        assert((head + tail).last() == tail.last());
        assert(normalized(head + tail) =~= normalized(head) + normalized(tail));
    }
}

/// The wire form around one position of the text: what stands before it, the
/// byte's own wire form, and what stands after it.
pub proof fn lemma_normalized_split(text: Seq<u8>, at: int)
    requires
        0 <= at < text.len(),
    ensures
        normalized(text) == normalized(text.take(at)) + on_wire(text[at]) + normalized(
            text.skip(at + 1),
        ),
{
    assert(text =~= text.take(at).push(text[at]) + text.skip(at + 1));
    lemma_normalized_concat(text.take(at).push(text[at]), text.skip(at + 1));
    lemma_normalized_push(text.take(at), text[at]);
}

/// The wire form is at least as long as the text and at most twice as long.
pub proof fn lemma_normalized_len(text: Seq<u8>)
    ensures
        text.len() <= normalized(text).len() <= 2 * text.len(),
    decreases text.len(),
{
    if text.len() > 0 {
        lemma_normalized_len(text.drop_last());
    }
}

/// On the wire every line feed directly follows a carriage return.
pub proof fn lemma_line_feed_follows_return(text: Seq<u8>, at: int)
    requires
        0 <= at < normalized(text).len(),
        normalized(text)[at] == LF,
    ensures
        at > 0,
        normalized(text)[at - 1] == CR,
    decreases text.len(),
{
    let front = normalized(text.drop_last());
    if at < front.len() {
        lemma_line_feed_follows_return(text.drop_last(), at);
    }
}

/// Nothing but the carriage returns is added: dropping them again gives the
/// text back, so two texts with one wire form are one text.
pub proof fn lemma_restored_normalized(text: Seq<u8>)
    ensures
        restored(normalized(text)) == text,
    decreases text.len(),
{
    if text.len() > 0 {
        let front = normalized(text.drop_last());
        let wire = normalized(text);
        lemma_restored_normalized(text.drop_last());
        if text.last() == LF {
            assert(wire.take(wire.len() - 2) =~= front);
        } else {
            assert(wire.drop_last() =~= front);
        }
        assert(text.drop_last().push(text.last()) =~= text);
    }
}

} // verus!
