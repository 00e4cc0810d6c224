//! The link boundary: what one non-blocking read attempt can yield, the
//! error a failed transport operation raises, and the capability interface
//! an interchangeable transport implements.
//!
//! The transports themselves — a TCP socket, a serial port — do I/O and
//! live outside the library; they hand these plain values in and out.

use vstd::prelude::*;

verus! {

/// The result of one non-blocking read attempt on a live link.
pub enum ReadState {
    /// Data arrived: one raw chunk, decoded as text with lossy
    /// replacement.
    Message(String),
    /// No data available; the link is still alive.
    WouldBlock,
    /// Zero bytes read: the remote side closed the connection gracefully.
    Disconnected,
}

/// A transport failure. Fatal to the link that raised it: the holder must
/// discard the link and let the supervisor reconnect.
pub struct LinkError {
    /// What the transport reported.
    pub detail: String,
}

/// A point-to-point transport carrying protocol messages, with best-effort
/// send and timeout-based receive; TCP and serial transports implement it
/// interchangeably outside the library.
pub trait RobotLink {
    /// Attempts a full write of one message; any failure, partial writes
    /// included, is fatal to the link.
    fn send(&mut self, msg: &str) -> Result<(), LinkError>;

    /// One read attempt. `Ok(None)` is a timeout with nothing read, or a
    /// graceful remote close; `Err` is a hard transport failure.
    fn recv(&mut self) -> Result<Option<String>, LinkError>;
}

} // verus!
