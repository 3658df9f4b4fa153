use serial_console::port::Port;
use serial_console::receive::Received;
use serial_console::stdout::{
    configure, read, read_noblock, sprintln, sprintln_formatted, sprintln_fmt, write_formatted, write_fmt,
    write_str, Console,
};
use serial_console::transmit::{TransmitError, WriteError};
use std::fmt;

fn typed(text: &str) -> Vec<Received> {
    text.bytes().map(Received::Byte).collect()
}

fn console_fed(text: &str) -> Console<Port> {
    let mut console = Console::new();
    configure(&mut console, Port::new(typed(text)));
    console
}

fn console_with_room(capacity: usize, text: &str) -> Console<Port> {
    let mut console = Console::new();
    let port = Port { incoming: typed(text), polled: 0, sent: Vec::new(), capacity };
    configure(&mut console, port);
    console
}

struct Broken;

impl fmt::Display for Broken {
    fn fmt(&self, f: &mut fmt::Formatter<'_>) -> fmt::Result {
        f.write_str("so\nfar")?;
        Err(fmt::Error)
    }
}

fn wire(console: &Console<Port>) -> Vec<u8> {
    console.handle.as_ref().unwrap().sent.clone()
}

fn polled(console: &Console<Port>) -> usize {
    console.handle.as_ref().unwrap().polled
}

#[test]
fn new_console_is_not_configured() {
    let console: Console<Port> = Console::new();
    assert!(!console.is_configured());
    assert!(console.handle.is_none());
}

#[test]
fn configure_installs_the_handle() {
    let mut console = Console::new();
    configure(&mut console, Port::new(typed("x")));
    assert!(console.is_configured());
    assert_eq!(console.handle.as_ref().unwrap().incoming, vec![Received::Byte(b'x')]);
}

#[test]
fn configure_again_replaces_the_handle() {
    let mut console = console_fed("old");
    assert_eq!(write_str(&mut console, "lost"), Ok(()));
    configure(&mut console, Port::new(typed("new")));
    assert_eq!(wire(&console), b"");
    assert_eq!(console.handle.as_ref().unwrap().incoming, typed("new"));
}

#[test]
fn write_str_puts_a_carriage_return_before_a_line_feed() {
    let mut console = console_fed("");
    assert_eq!(write_str(&mut console, "a\nb"), Ok(()));
    assert_eq!(wire(&console), b"a\r\nb");
}

#[test]
fn write_str_of_line_feeds_only() {
    let mut console = console_fed("");
    assert_eq!(write_str(&mut console, "\n\n"), Ok(()));
    assert_eq!(wire(&console), b"\r\n\r\n");
}

#[test]
fn write_str_keeps_a_carriage_return_that_is_there() {
    let mut console = console_fed("");
    assert_eq!(write_str(&mut console, "a\r\n\rb"), Ok(()));
    assert_eq!(wire(&console), b"a\r\r\n\rb");
}

#[test]
fn write_str_passes_every_other_byte_through() {
    let mut console = console_fed("");
    let text = "\t\u{0} ~\u{7f}\u{e9}\u{20ac}";
    assert_eq!(write_str(&mut console, text), Ok(()));
    assert_eq!(wire(&console), text.as_bytes());
}

#[test]
fn write_str_of_nothing_sends_nothing() {
    let mut console = console_fed("");
    assert_eq!(write_str(&mut console, ""), Ok(()));
    assert_eq!(wire(&console), b"");
}

#[test]
fn write_str_before_configuration_does_nothing() {
    let mut console: Console<Port> = Console::new();
    assert_eq!(write_str(&mut console, "lost\n"), Ok(()));
    assert!(console.handle.is_none());
}

#[test]
fn write_str_leaves_the_receive_endpoint_alone() {
    let mut console = console_fed("abc");
    assert_eq!(write_str(&mut console, "hello\n"), Ok(()));
    assert_eq!(polled(&console), 0);
    assert_eq!(console.handle.as_ref().unwrap().incoming, typed("abc"));
}

#[test]
fn two_writes_follow_each_other_on_the_wire() {
    let mut console = console_fed("");
    assert_eq!(write_str(&mut console, "one\n"), Ok(()));
    assert_eq!(write_str(&mut console, "two\n"), Ok(()));
    assert_eq!(wire(&console), b"one\r\ntwo\r\n");
    let mut joined = console_fed("");
    assert_eq!(write_str(&mut joined, "one\ntwo\n"), Ok(()));
    assert_eq!(wire(&joined), wire(&console));
}

#[test]
fn write_str_abandons_the_text_when_the_endpoint_fails() {
    let mut console = console_with_room(2, "");
    assert_eq!(write_str(&mut console, "a\nb"), Err(TransmitError));
    assert_eq!(wire(&console), b"a\r");
    assert_eq!(write_str(&mut console, "c"), Err(TransmitError));
    assert_eq!(wire(&console), b"a\r");
    assert_eq!(write_str(&mut console, ""), Ok(()));
}

#[test]
fn port_write_reports_the_endpoint_error() {
    let mut port = Port { incoming: Vec::new(), polled: 0, sent: Vec::new(), capacity: 3 };
    assert_eq!(port.write(b"ab"), Ok(()));
    assert_eq!(port.write(b"\n"), Err(TransmitError));
    assert_eq!(port.sent, b"ab\r");
    assert_eq!(port.write(b""), Ok(()));
    assert_eq!(port.write(b"x"), Err(TransmitError));
    assert_eq!(port.sent, b"ab\r");
}

#[test]
fn port_write_fills_the_endpoint_exactly() {
    let mut port = Port { incoming: Vec::new(), polled: 0, sent: Vec::new(), capacity: 4 };
    assert_eq!(port.write(b"a\nb"), Ok(()));
    assert_eq!(port.sent, b"a\r\nb");
}

#[test]
fn port_transmit_takes_bytes_while_there_is_room() {
    let mut port = Port { incoming: Vec::new(), polled: 0, sent: vec![1, 2], capacity: 3 };
    assert!(port.transmit(b'\n'));
    assert!(!port.transmit(b'x'));
    assert_eq!(port.sent, vec![1, 2, b'\n']);
}

#[test]
fn port_poll_gives_each_outcome_once() {
    let mut port = Port::new(vec![Received::Byte(7), Received::NotReady, Received::Failed]);
    assert_eq!(port.capacity, usize::MAX);
    assert_eq!(port.poll(), Some(Received::Byte(7)));
    assert_eq!(port.poll(), Some(Received::NotReady));
    assert_eq!(port.poll(), Some(Received::Failed));
    assert_eq!(port.poll(), None);
    assert_eq!(port.poll(), None);
    assert_eq!(port.polled, 3);
}

#[test]
fn port_poll_past_the_end_gives_nothing() {
    let mut port = Port { incoming: typed("a"), polled: 5, sent: Vec::new(), capacity: 1 };
    assert_eq!(port.poll(), None);
    assert_eq!(port.polled, 5);
}

#[test]
fn sprintln_adds_one_line_feed() {
    let mut console = console_fed("");
    assert_eq!(sprintln(&mut console, "a\nb"), Ok(()));
    assert_eq!(sprintln(&mut console, ""), Ok(()));
    assert_eq!(wire(&console), b"a\r\nb\r\n\r\n");
}

#[test]
fn sprintln_abandons_the_line_feed_after_an_error() {
    let mut console = console_with_room(3, "");
    assert_eq!(sprintln(&mut console, "abcd"), Err(TransmitError));
    assert_eq!(wire(&console), b"abc");
    let mut short = console_with_room(5, "");
    assert_eq!(sprintln(&mut short, "abcd"), Err(TransmitError));
    assert_eq!(wire(&short), b"abcd\r");
    let mut exact = console_with_room(6, "");
    assert_eq!(sprintln(&mut exact, "abcd"), Ok(()));
    assert_eq!(wire(&exact), b"abcd\r\n");
}

#[test]
fn sprintln_before_configuration_does_nothing() {
    let mut console: Console<Port> = Console::new();
    assert_eq!(sprintln(&mut console, "lost"), Ok(()));
    assert!(console.handle.is_none());
}

#[test]
fn write_fmt_writes_the_formatted_text() {
    let mut console = console_fed("");
    assert_eq!(write_fmt(&mut console, format!("x = {}\ny = {:02}", 5, 7)), Ok(()));
    assert_eq!(write_fmt(&mut console, 42), Ok(()));
    assert_eq!(write_fmt(&mut console, '\n'), Ok(()));
    assert_eq!(wire(&console), b"x = 5\r\ny = 0742\r\n");
}

#[test]
fn write_fmt_before_configuration_does_nothing() {
    let mut console: Console<Port> = Console::new();
    assert_eq!(write_fmt(&mut console, 1), Ok(()));
    assert_eq!(write_fmt(&mut console, Broken), Ok(()));
    assert!(console.handle.is_none());
}

#[test]
fn sprintln_fmt_adds_one_line_feed() {
    let mut console = console_fed("");
    assert_eq!(sprintln_fmt(&mut console, format!("{}-{}", "a", 'b')), Ok(()));
    assert_eq!(wire(&console), b"a-b\r\n");
    let mut none: Console<Port> = Console::new();
    assert_eq!(sprintln_fmt(&mut none, 1), Ok(()));
    assert_eq!(sprintln_fmt(&mut none, Broken), Ok(()));
    assert!(none.handle.is_none());
}

#[test]
fn read_ends_with_the_line() {
    let mut console = console_fed("ab\n");
    let mut buffer = [0u8; 10];
    assert_eq!(read(&mut console, &mut buffer), 3);
    assert_eq!(&buffer[..3], b"ab\n");
    assert_eq!(&buffer[3..], &[0u8; 7]);
    assert_eq!(polled(&console), 3);
}

#[test]
fn read_ends_with_the_full_buffer() {
    let mut console = console_fed("abcdef");
    let mut buffer = [0u8; 3];
    assert_eq!(read(&mut console, &mut buffer), 3);
    assert_eq!(&buffer, b"abc");
    assert_eq!(polled(&console), 3);
    assert_eq!(console.handle.as_ref().unwrap().incoming.len(), 6);
}

#[test]
fn read_ends_with_a_carriage_return() {
    let mut console = console_fed("hi\rthere");
    let mut buffer = [0u8; 10];
    assert_eq!(read(&mut console, &mut buffer), 3);
    assert_eq!(&buffer[..3], b"hi\r");
    assert_eq!(polled(&console), 3);
    assert_eq!(read(&mut console, &mut buffer), 5);
    assert_eq!(&buffer[..5], b"there");
}

#[test]
fn read_ends_with_an_error() {
    let mut console = Console::new();
    let incoming = vec![Received::Byte(b'a'), Received::Failed, Received::Byte(b'b')];
    configure(&mut console, Port::new(incoming));
    let mut buffer = [0u8; 4];
    assert_eq!(read(&mut console, &mut buffer), 1);
    assert_eq!(buffer, [b'a', 0, 0, 0]);
    assert_eq!(polled(&console), 2);
    assert_eq!(wire(&console), b"a");
}

#[test]
fn read_whose_first_attempt_fails_returns_zero() {
    let mut console = Console::new();
    configure(&mut console, Port::new(vec![Received::Failed, Received::Byte(b'a')]));
    let mut buffer = [9u8; 4];
    assert_eq!(read(&mut console, &mut buffer), 0);
    assert_eq!(buffer, [9u8; 4]);
    assert_eq!(wire(&console), b"");
}

#[test]
fn read_waits_while_nothing_is_ready() {
    let mut console = Console::new();
    let incoming = vec![
        Received::NotReady,
        Received::Byte(b'a'),
        Received::NotReady,
        Received::NotReady,
        Received::Byte(b'\n'),
        Received::Byte(b'z'),
    ];
    configure(&mut console, Port::new(incoming));
    let mut buffer = [0u8; 8];
    assert_eq!(read(&mut console, &mut buffer), 2);
    assert_eq!(&buffer[..2], b"a\n");
    assert_eq!(polled(&console), 5);
}

#[test]
fn read_before_configuration_returns_zero() {
    let mut console: Console<Port> = Console::new();
    let mut buffer = [7u8; 4];
    assert_eq!(read(&mut console, &mut buffer), 0);
    assert_eq!(buffer, [7u8; 4]);
    assert!(console.handle.is_none());
}

#[test]
fn read_into_an_empty_buffer_takes_nothing() {
    let mut console = console_fed("abc");
    let mut buffer = [0u8; 0];
    assert_eq!(read(&mut console, &mut buffer), 0);
    assert_eq!(polled(&console), 0);
    assert_eq!(wire(&console), b"");
}

#[test]
fn read_ends_when_the_port_has_nothing_left() {
    let mut console = console_fed("ab");
    let mut buffer = [0u8; 5];
    assert_eq!(read(&mut console, &mut buffer), 2);
    assert_eq!(&buffer[..2], b"ab");
    assert_eq!(read(&mut console, &mut buffer), 0);
}

#[test]
fn read_echoes_each_byte_once_in_the_order_received() {
    let mut console = console_fed("hey\nyou");
    assert_eq!(write_str(&mut console, "> "), Ok(()));
    let mut buffer = [0u8; 16];
    assert_eq!(read(&mut console, &mut buffer), 4);
    assert_eq!(wire(&console), b"> hey\r\n");
    assert_eq!(read(&mut console, &mut buffer), 3);
    assert_eq!(wire(&console), b"> hey\r\nyou");
}

#[test]
fn read_echoes_a_byte_above_ascii_as_it_is() {
    let mut console = Console::new();
    configure(&mut console, Port::new(vec![Received::Byte(0xe9), Received::Byte(b'\r')]));
    let mut buffer = [0u8; 4];
    assert_eq!(read(&mut console, &mut buffer), 2);
    assert_eq!(&buffer[..2], &[0xe9, b'\r']);
    assert_eq!(wire(&console), vec![0xe9, b'\r']);
}

#[test]
fn read_goes_on_when_the_echo_fails() {
    let mut console = console_with_room(1, "a\nb");
    let mut buffer = [0u8; 8];
    assert_eq!(read(&mut console, &mut buffer), 2);
    assert_eq!(&buffer[..2], b"a\n");
    assert_eq!(wire(&console), b"a");
}

#[test]
fn read_noblock_takes_what_is_ready() {
    let mut console = console_fed("ab");
    let mut buffer = [0u8; 8];
    let mut cursor = 0usize;
    assert_eq!(read_noblock(&mut console, &mut buffer, &mut cursor), 2);
    assert_eq!(cursor, 2);
    assert_eq!(&buffer[..2], b"ab");
    assert_eq!(read_noblock(&mut console, &mut buffer, &mut cursor), 0);
    assert_eq!(cursor, 2);
    assert_eq!(&buffer[..2], b"ab");
    assert_eq!(wire(&console), b"ab");
}

#[test]
fn read_noblock_goes_on_from_the_cursor() {
    let mut console = Console::new();
    let incoming = vec![
        Received::Byte(b'a'),
        Received::Byte(b'b'),
        Received::NotReady,
        Received::Byte(b'c'),
        Received::NotReady,
    ];
    configure(&mut console, Port::new(incoming));
    let mut buffer = [0u8; 8];
    let mut cursor = 0usize;
    assert_eq!(read_noblock(&mut console, &mut buffer, &mut cursor), 2);
    assert_eq!(cursor, 2);
    assert_eq!(polled(&console), 3);
    assert_eq!(read_noblock(&mut console, &mut buffer, &mut cursor), 1);
    assert_eq!(cursor, 3);
    assert_eq!(&buffer[..3], b"abc");
    assert_eq!(&buffer[3..], &[0u8; 5]);
}

#[test]
fn read_noblock_does_not_end_with_the_line() {
    let mut console = console_fed("a\nb\rc");
    let mut buffer = [0u8; 8];
    let mut cursor = 1usize;
    assert_eq!(read_noblock(&mut console, &mut buffer, &mut cursor), 5);
    assert_eq!(cursor, 6);
    assert_eq!(&buffer[..6], b"\0a\nb\rc");
    assert_eq!(wire(&console), b"a\r\nb\rc");
}

#[test]
fn read_noblock_ends_with_the_full_buffer() {
    let mut console = console_fed("abcdef");
    let mut buffer = [0u8; 4];
    let mut cursor = 2usize;
    assert_eq!(read_noblock(&mut console, &mut buffer, &mut cursor), 2);
    assert_eq!(cursor, 4);
    assert_eq!(&buffer, b"\0\0ab");
    assert_eq!(polled(&console), 2);
    assert_eq!(read_noblock(&mut console, &mut buffer, &mut cursor), 0);
    assert_eq!(cursor, 4);
    assert_eq!(polled(&console), 2);
}

#[test]
fn read_noblock_ends_with_an_error() {
    let mut console = Console::new();
    let incoming = vec![Received::Byte(b'a'), Received::Failed, Received::Byte(b'b')];
    configure(&mut console, Port::new(incoming));
    let mut buffer = [0u8; 4];
    let mut cursor = 0usize;
    assert_eq!(read_noblock(&mut console, &mut buffer, &mut cursor), 1);
    assert_eq!(cursor, 1);
    assert_eq!(polled(&console), 2);
}

#[test]
fn read_noblock_with_the_cursor_past_the_buffer_reads_nothing() {
    let mut console = console_fed("abc");
    let mut buffer = [0u8; 2];
    let mut cursor = 5usize;
    assert_eq!(read_noblock(&mut console, &mut buffer, &mut cursor), 0);
    assert_eq!(cursor, 5);
    assert_eq!(buffer, [0u8; 2]);
    assert_eq!(polled(&console), 0);
}

#[test]
fn read_noblock_before_configuration_returns_zero() {
    let mut console: Console<Port> = Console::new();
    let mut buffer = [3u8; 4];
    let mut cursor = 1usize;
    assert_eq!(read_noblock(&mut console, &mut buffer, &mut cursor), 0);
    assert_eq!(cursor, 1);
    assert_eq!(buffer, [3u8; 4]);
}

#[test]
fn write_fmt_reports_the_endpoint_error() {
    let mut console = console_with_room(4, "");
    assert_eq!(write_fmt(&mut console, 12345), Err(WriteError::Transmit));
    assert_eq!(wire(&console), b"1234");
    assert_eq!(write_fmt(&mut console, ""), Ok(()));
    assert_eq!(write_fmt(&mut console, 6), Err(WriteError::Transmit));
    assert_eq!(wire(&console), b"1234");
}

#[test]
fn write_fmt_counts_the_carriage_returns_against_the_room() {
    let mut console = console_with_room(3, "");
    assert_eq!(write_fmt(&mut console, "a\nb"), Err(WriteError::Transmit));
    assert_eq!(wire(&console), b"a\r\n");
    let mut exact = console_with_room(4, "");
    assert_eq!(write_fmt(&mut exact, "a\nb"), Ok(()));
    assert_eq!(wire(&exact), b"a\r\nb");
}

#[test]
fn write_fmt_reports_the_formatting_error() {
    let mut console = console_fed("");
    assert_eq!(write_fmt(&mut console, Broken), Err(WriteError::Format));
    assert_eq!(wire(&console), b"so\r\nfar");
}

#[test]
fn write_fmt_reports_the_endpoint_error_before_the_formatting_error() {
    let mut console = console_with_room(3, "");
    assert_eq!(write_fmt(&mut console, Broken), Err(WriteError::Transmit));
    assert_eq!(wire(&console), b"so\r");
}

#[test]
fn sprintln_fmt_reports_the_endpoint_error() {
    let mut console = console_with_room(3, "");
    assert_eq!(sprintln_fmt(&mut console, "ab"), Err(WriteError::Transmit));
    assert_eq!(wire(&console), b"ab\r");
    let mut exact = console_with_room(4, "");
    assert_eq!(sprintln_fmt(&mut exact, "ab"), Ok(()));
    assert_eq!(wire(&exact), b"ab\r\n");
}

#[test]
fn sprintln_fmt_leaves_the_line_feed_out_after_a_formatting_error() {
    let mut console = console_fed("");
    assert_eq!(sprintln_fmt(&mut console, Broken), Err(WriteError::Format));
    assert_eq!(wire(&console), b"so\r\nfar");
}

#[test]
fn write_formatted_says_which_error() {
    let mut console = console_with_room(4, "");
    assert_eq!(write_formatted(&mut console, "ab", true), Ok(()));
    assert_eq!(write_formatted(&mut console, "c", false), Err(WriteError::Format));
    assert_eq!(write_formatted(&mut console, "de", false), Err(WriteError::Transmit));
    assert_eq!(write_formatted(&mut console, "f", true), Err(WriteError::Transmit));
    assert_eq!(write_formatted(&mut console, "", true), Ok(()));
    assert_eq!(write_formatted(&mut console, "", false), Err(WriteError::Format));
    assert_eq!(wire(&console), b"abcd");
    let mut none: Console<Port> = Console::new();
    assert_eq!(write_formatted(&mut none, "lost", false), Ok(()));
    assert!(none.handle.is_none());
}

#[test]
fn sprintln_formatted_says_which_error() {
    let mut console = console_with_room(7, "");
    assert_eq!(sprintln_formatted(&mut console, "ab", true), Ok(()));
    assert_eq!(sprintln_formatted(&mut console, "c", false), Err(WriteError::Format));
    assert_eq!(wire(&console), b"ab\r\nc");
    assert_eq!(sprintln_formatted(&mut console, "d", true), Err(WriteError::Transmit));
    assert_eq!(wire(&console), b"ab\r\ncd\r");
    assert_eq!(sprintln_formatted(&mut console, "", false), Err(WriteError::Format));
    let mut none: Console<Port> = Console::new();
    assert_eq!(sprintln_formatted(&mut none, "lost", true), Ok(()));
    assert!(none.handle.is_none());
}
