//! A serial console line discipline for a single UART.
//!
//! The crate holds everything the console decides: how text is laid out on
//! the wire, when a write waits and when it gives up, when a read ends, what
//! is echoed, and what an unconfigured console does. It touches no hardware.
//! A driver binds it to a peripheral by asking [`transmit::Transmission`] and
//! [`receive::Intake`] what to do next and telling them what the peripheral
//! answered; [`port::Port`] is such a peripheral held in memory, and the
//! functions of [`stdout`] run a whole console on it.

pub mod newline;
pub mod transmit;
pub mod receive;
pub mod port;
pub mod stdout;
