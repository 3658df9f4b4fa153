//! The console: a slot for the port, and reading and writing through it.

use crate::newline::{lemma_normalized_concat, normalized, LF};
use crate::port::{lemma_logged_twice, Port};
use crate::newline::lemma_normalized_push;
use crate::receive::{ends_at, stored, Mode};
use crate::transmit::{TransmitError, WriteError};
use core::fmt::Write;
use vstd::prelude::*;
use vstd::string::{to_string_from_display_ensures, StringSliceAdditionalSpecFns};
use vstd::utf8::encode_utf8;

verus! {

/// The console's state: the handle of the serial channel, both endpoints as
/// one, once the console has been configured.
pub struct Console<H> {
    /// The handle, or `None` before configuration.
    pub handle: Option<H>,
}

impl<H> Console<H> {
    /// A console that has not been configured.
    pub fn new() -> (console: Self)
        ensures
            console.handle is None,
    {
        Console { handle: None }
    }

    /// Whether the console has been configured.
    pub fn is_configured(&self) -> (r: bool)
        ensures
            r == self.handle is Some,
    {
        self.handle.is_some()
    }
}

/// Configures the console: installs `handle`. A handle that was installed
/// before is replaced and dropped.
pub fn configure<H>(console: &mut Console<H>, handle: H)
    ensures
        final(console).handle == Some(handle),
{
    console.handle = Some(handle);
}

/// Whether writing `text` turns the port `before` into the console handle
/// `after`: the transmit endpoint was offered the wire form of `text`, and
/// nothing else changed.
pub open spec fn wrote(before: Port, after: Option<Port>, text: Seq<u8>) -> bool {
    &&& after matches Some(port)
    &&& port.incoming == before.incoming
    &&& port.polled == before.polled
    &&& port.capacity == before.capacity
    &&& port.sent@ == before.sent_after(normalized(text))
}

/// Whether the transmit endpoint of `port` has room for the whole wire form
/// of `text`, so that a write of `text` meets no error.
pub open spec fn fits(port: Port, text: Seq<u8>) -> bool {
    normalized(text).len() <= port.room()
}

/// How a write to `port` ends that formats a value and writes what was
/// made, when formatting made `text` and ran to its end or not (`complete`).
///
/// The text is written as it is made, so an error of the transmit endpoint
/// comes before an error of the formatting code.
pub open spec fn formatted_outcome(port: Port, text: Seq<u8>, complete: bool) -> Result<
    (),
    WriteError,
> {
    if !fits(port, text) {
        Err(WriteError::Transmit)
    } else if !complete {
        Err(WriteError::Format)
    } else {
        Ok(())
    }
}

/// Whether a write that formatted a value into `text`, to its end or not
/// (`complete`), turns the port `before` into the console handle `after`
/// and returns `r`.
pub open spec fn wrote_formatted(
    before: Port,
    after: Option<Port>,
    text: Seq<u8>,
    complete: bool,
    r: Result<(), WriteError>,
) -> bool {
    &&& wrote(before, after, text)
    &&& r == formatted_outcome(before, text, complete)
}

/// The text of a line: `text` and a line feed where formatting ran to its
/// end, else `text` alone, for the line feed stands at the template's end.
pub open spec fn line_of(text: Seq<u8>, complete: bool) -> Seq<u8> {
    if complete {
        text.push(LF)
    } else {
        text
    }
}

/// Whether a read in `mode`, into a buffer that held `buf` and from index
/// `cursor` on, turns the port `before` into the console handle `after`, the
/// buffer into `filled`, and returns `n`.
///
/// The read takes the outcomes of the receive endpoint up to the first at
/// which it stops. The bytes among them are stored in order, `n` is their
/// number, and their wire form was offered to the transmit endpoint: each
/// byte that was read is echoed once, in the order received.
pub open spec fn took(
    mode: Mode,
    before: Port,
    after: Option<Port>,
    buf: Seq<u8>,
    cursor: nat,
    filled: Seq<u8>,
    n: nat,
) -> bool {
    &&& after matches Some(port)
    &&& port.incoming == before.incoming
    &&& port.capacity == before.capacity
    &&& ends_at(
        mode,
        before.pending(),
        Port::space(buf.len(), cursor),
        port.polled - before.polled,
    )
    &&& n == before.received_until(port).len()
    &&& n <= Port::space(buf.len(), cursor)
    &&& filled == stored(buf, cursor, before.received_until(port))
    &&& port.sent@ == before.sent_after(normalized(before.received_until(port)))
}

/// Writes `s` to the console. On a console that has not been configured this
/// does nothing and succeeds. An error of the transmit endpoint ends the
/// write and is returned.
pub fn write_str(console: &mut Console<Port>, s: &str) -> (r: Result<(), TransmitError>)
    ensures
        match old(console).handle {
            None => final(console).handle is None && r is Ok,
            Some(port) => {
                &&& wrote(port, final(console).handle, s.spec_bytes())
                &&& r.is_ok() == fits(port, s.spec_bytes())
            },
        },
{
    match &mut console.handle {
        Some(port) => port.write(s.as_bytes()),
        None => Ok(()),
    }
}

/// Reads a line from the console into `b`, and returns the number of bytes
/// stored, which is 0 on a console that has not been configured.
///
/// The read waits for each byte and ends once `b` is full, a line feed or
/// carriage return has been stored, or the receive endpoint reports an
/// error. On a port held in memory it also ends when the port has nothing
/// left to give.
pub fn read(console: &mut Console<Port>, b: &mut [u8]) -> (n: usize)
    ensures
        match old(console).handle {
            None => final(console).handle is None && n == 0 && final(b)@ == old(b)@,
            Some(port) => took(
                Mode::Line,
                port,
                final(console).handle,
                old(b)@,
                0,
                final(b)@,
                n as nat,
            ),
        },
{
    match &mut console.handle {
        Some(port) => port.receive(Mode::Line, 0, b),
        None => 0,
    }
}

/// Takes the bytes that the console has ready into `buf` from index `*len`
/// on, moves `*len` past them, and returns their number, which is 0 on a
/// console that has not been configured.
///
/// The read ends once `*len` has reached the length of `buf`, or the receive
/// endpoint has nothing ready or reports an error. With `*len` beyond the
/// length of `buf` nothing is read.
pub fn read_noblock(console: &mut Console<Port>, buf: &mut [u8], len: &mut usize) -> (n: usize)
    ensures
        *final(len) == *old(len) + n,
        match old(console).handle {
            None => final(console).handle is None && n == 0 && final(buf)@ == old(buf)@,
            Some(port) => took(
                Mode::Drain,
                port,
                final(console).handle,
                old(buf)@,
                *old(len) as nat,
                final(buf)@,
                n as nat,
            ),
        },
{
    match &mut console.handle {
        Some(port) => {
            let n = port.receive(Mode::Drain, *len, buf);
            assert(*len + n <= usize::MAX) by {
                assert(buf@.len() == buf.len());
            }
            *len = *len + n;
            n
        },
        None => 0,
    }
}

/// Formats `value` into the empty string `text`, and returns whether the
/// value's formatting code ran to its end: `write!` with the template
/// `"{}"`, which calls `core::fmt::Write::write_fmt` on the string.
///
/// Where formatting ran to its end, `text` holds what `to_string` gives for
/// the value, which std makes in the same way, by the value's `Display`.
/// Where it did not, `text` holds what was made before, and nothing is
/// claimed of it.
#[verifier::external_body]
fn render_into<T: core::fmt::Display>(text: &mut String, value: &T) -> (complete: bool)
    requires
        old(text)@.len() == 0,
    ensures
        complete ==> to_string_from_display_ensures::<T>(value, *final(text)),
{
    write!(text, "{}", value).is_ok()
}

/// Writes `text`, which formatting a value made, to the console;
/// `complete` says whether the formatting ran to its end.
///
/// On a console that has not been configured this does nothing and
/// succeeds. Else `text` is written as [`write_str`] writes it, and the
/// error is that of the transmit endpoint if it had no room for the text,
/// else that of the formatting if it did not run to its end.
pub fn write_formatted(console: &mut Console<Port>, text: &str, complete: bool) -> (r: Result<
    (),
    WriteError,
>)
    ensures
        match old(console).handle {
            None => final(console).handle is None && r is Ok,
            Some(port) => wrote_formatted(
                port,
                final(console).handle,
                text.spec_bytes(),
                complete,
                r,
            ),
        },
{
    if !console.is_configured() {
        return Ok(());
    }
    match write_str(console, text) {
        Err(_) => Err(WriteError::Transmit),
        Ok(()) => if complete {
            Ok(())
        } else {
            Err(WriteError::Format)
        },
    }
}

/// Writes `text`, which formatting a value made, to the console as a line;
/// `complete` says whether the formatting ran to its end.
///
/// This is [`write_formatted`], with a line feed after `text` where the
/// formatting ran to its end.
pub fn sprintln_formatted(console: &mut Console<Port>, text: &str, complete: bool) -> (r: Result<
    (),
    WriteError,
>)
    ensures
        match old(console).handle {
            None => final(console).handle is None && r is Ok,
            Some(port) => wrote_formatted(
                port,
                final(console).handle,
                line_of(text.spec_bytes(), complete),
                complete,
                r,
            ),
        },
{
    if !complete {
        return write_formatted(console, text, false);
    }
    match sprintln(console, text) {
        Err(_) => Err(WriteError::Transmit),
        Ok(()) => Ok(()),
    }
}

/// Writes to the console the text that `args` formats to, as [`write_str`]
/// writes a string; `args` is a template with its arguments, as
/// `format_args!` makes it, or any other value that can be displayed.
///
/// On a console that has not been configured this does nothing and
/// succeeds: the value is not formatted. Else what the value's formatting
/// code makes is written, and where the write succeeds, that is the whole
/// text that the value formats to, and the transmit endpoint had room for
/// it. Which error comes on which text is said by [`write_formatted`].
pub fn write_fmt<T: core::fmt::Display>(console: &mut Console<Port>, args: T) -> (r: Result<
    (),
    WriteError,
>)
    ensures
        match old(console).handle {
            None => final(console).handle is None && r is Ok,
            Some(port) => exists|text: String, complete: bool|
                {
                    &&& complete ==> to_string_from_display_ensures::<T>(&args, text)
                    &&& #[trigger] wrote_formatted(
                        port,
                        final(console).handle,
                        encode_utf8(text@),
                        complete,
                        r,
                    )
                },
        },
{
    if !console.is_configured() {
        return Ok(());
    }
    let mut text = String::new();
    let complete = render_into(&mut text, &args);
    let r = write_formatted(console, text.as_str(), complete);
    assert(wrote_formatted(
        old(console).handle->Some_0,
        console.handle,
        encode_utf8(text@),
        complete,
        r,
    ));
    r
}

/// Writes to the console the text that `args` formats to, and a line feed,
/// as [`sprintln`] writes a string. Where the formatting does not run to its
/// end, no line feed follows what it made. Which error comes on which text
/// is said by [`sprintln_formatted`].
pub fn sprintln_fmt<T: core::fmt::Display>(console: &mut Console<Port>, args: T) -> (r: Result<
    (),
    WriteError,
>)
    ensures
        match old(console).handle {
            None => final(console).handle is None && r is Ok,
            Some(port) => exists|text: String, complete: bool|
                {
                    &&& complete ==> to_string_from_display_ensures::<T>(&args, text)
                    &&& #[trigger] wrote_formatted(
                        port,
                        final(console).handle,
                        line_of(encode_utf8(text@), complete),
                        complete,
                        r,
                    )
                },
        },
{
    if !console.is_configured() {
        return Ok(());
    }
    let mut text = String::new();
    let complete = render_into(&mut text, &args);
    let r = sprintln_formatted(console, text.as_str(), complete);
    assert(wrote_formatted(
        old(console).handle->Some_0,
        console.handle,
        line_of(encode_utf8(text@), complete),
        complete,
        r,
    ));
    r
}

/// Writes `s` and a line feed to the console, as one text. On a console
/// that has not been configured this does nothing and succeeds. An error of
/// the transmit endpoint ends the write and is returned.
pub fn sprintln(console: &mut Console<Port>, s: &str) -> (r: Result<(), TransmitError>)
    ensures
        match old(console).handle {
            None => final(console).handle is None && r is Ok,
            Some(port) => {
                &&& wrote(port, final(console).handle, s.spec_bytes().push(LF))
                &&& r.is_ok() == fits(port, s.spec_bytes().push(LF))
            },
        },
{
    match &mut console.handle {
        Some(port) => {
            let ghost before = *port;
            let end = [LF];
            let r = match port.write(s.as_bytes()) {
                Ok(()) => port.write(&end),
                Err(e) => Err(e),
            };
            proof {
                let text = s.spec_bytes();
                assert(end@ =~= seq![LF]);
                assert(text.push(LF) =~= text + seq![LF]);
                lemma_normalized_concat(text, seq![LF]);
                lemma_normalized_push(Seq::<u8>::empty(), LF);
                lemma_normalized_push(text, LF);
                lemma_logged_twice(
                    before.sent@,
                    before.capacity as nat,
                    normalized(text),
                    normalized(seq![LF]),
                );
            }
            r
        },
        None => Ok(()),
    }
}

/// Two writes, one after the other, put the whole of the first text on the
/// wire and then the whole of the second: the bytes of two writes are never
/// mixed.
pub proof fn lemma_writes_follow_each_other(
    before: Port,
    between: Port,
    after: Option<Port>,
    first: Seq<u8>,
    second: Seq<u8>,
)
    requires
        wrote(before, Some(between), first),
        wrote(between, after, second),
    ensures
        wrote(before, after, first + second),
{
    lemma_normalized_concat(first, second);
    lemma_logged_twice(
        before.sent@,
        before.capacity as nat,
        normalized(first),
        normalized(second),
    );
}

/// While the transmit endpoint has room, a write puts exactly the wire form
/// of the text on the wire, after what was there.
pub proof fn lemma_wrote_with_room(before: Port, after: Port, text: Seq<u8>)
    requires
        wrote(before, Some(after), text),
        fits(before, text),
    ensures
        after.sent@ == before.sent@ + normalized(text),
{
}

/// While the transmit endpoint has room, a read echoes exactly the wire form
/// of the bytes it stored, after what was on the wire: every byte once, in
/// the order received.
pub proof fn lemma_took_with_room(
    mode: Mode,
    before: Port,
    after: Port,
    buf: Seq<u8>,
    cursor: nat,
    filled: Seq<u8>,
    n: nat,
)
    requires
        took(mode, before, Some(after), buf, cursor, filled, n),
        cursor <= buf.len(),
        normalized(filled.subrange(cursor as int, (cursor + n) as int)).len() <= before.room(),
    ensures
        before.received_until(after) == filled.subrange(cursor as int, (cursor + n) as int),
        after.sent@ == before.sent@ + normalized(filled.subrange(cursor as int, (cursor + n) as int)),
{
    assert(before.received_until(after) =~= filled.subrange(cursor as int, (cursor + n) as int));
}

} // verus!
