//! Error taxonomy of the agent.
//!
//! Transport-level failures (`PiteriaIOError`) are kept apart from
//! domain-level failures (`PiteriaError`): a transport failure is terminal
//! for the affected session only, while a domain failure travels back to the
//! caller on the protocol's ordinary response path.

use vstd::prelude::*;

verus! {

/// A reason a received byte sequence could not be decoded.
#[derive(Debug, Clone, Copy, PartialEq, Eq, Structural)]
pub enum DecodeError {
    /// The input ended before the value it announced was complete.
    Truncated,
    /// The envelope's tag byte names no request variant.
    BadTag(u8),
    /// A string field did not hold valid UTF-8.
    BadUtf8,
    /// Bytes remained after the announced value was fully read.
    TrailingBytes,
    /// A response's status byte names neither success nor failure.
    BadStatus(u8),
}

/// Failures of the interprocess channel itself: framing, coordination
/// channels, and the socket.
#[derive(Debug, Clone, PartialEq, Eq)]
pub enum PiteriaIOError {
    /// The peer closed the connection (end-of-stream before a full header).
    SocketClosed(String),
    /// An internal coordination channel has no more senders or receivers.
    ChannelClosed(String),
    /// A caller's private reply channel failed before a reply arrived.
    Response(String),
    /// A frame's payload could not be decoded.
    Decode(DecodeError),
    /// A header was shorter than the fixed header width.
    MalformedHeader,
    /// Any other I/O failure reported by the operating system.
    Io(String),
}

/// Domain-level failures, reported to callers as ordinary responses.
#[derive(Debug, Clone, PartialEq, Eq)]
pub enum PiteriaError {
    /// A file could not be read or written.
    IO(String),
    /// An nginx virtual-host file did not follow the expected grammar.
    NginxParse(String),
    /// The interprocess channel failed.
    PiteriaIO(PiteriaIOError),
    /// No deployment exists under the requested identifier.
    NotFound(i64),
}

/// The mathematical content of a `PiteriaIOError`.
#[verifier::ext_equal]
pub ghost enum PiteriaIOErrorView {
    SocketClosed(Seq<char>),
    ChannelClosed(Seq<char>),
    Response(Seq<char>),
    Decode(DecodeError),
    MalformedHeader,
    Io(Seq<char>),
}

impl View for PiteriaIOError {
    type V = PiteriaIOErrorView;

    open spec fn view(&self) -> PiteriaIOErrorView {
        match self {
            PiteriaIOError::SocketClosed(s) => PiteriaIOErrorView::SocketClosed(s@),
            PiteriaIOError::ChannelClosed(s) => PiteriaIOErrorView::ChannelClosed(s@),
            PiteriaIOError::Response(s) => PiteriaIOErrorView::Response(s@),
            PiteriaIOError::Decode(e) => PiteriaIOErrorView::Decode(*e),
            PiteriaIOError::MalformedHeader => PiteriaIOErrorView::MalformedHeader,
            PiteriaIOError::Io(s) => PiteriaIOErrorView::Io(s@),
        }
    }
}

/// The mathematical content of a `PiteriaError`.
#[verifier::ext_equal]
pub ghost enum PiteriaErrorView {
    IO(Seq<char>),
    NginxParse(Seq<char>),
    PiteriaIO(PiteriaIOErrorView),
    NotFound(int),
}

impl View for PiteriaError {
    type V = PiteriaErrorView;

    open spec fn view(&self) -> PiteriaErrorView {
        match self {
            PiteriaError::IO(s) => PiteriaErrorView::IO(s@),
            PiteriaError::NginxParse(s) => PiteriaErrorView::NginxParse(s@),
            PiteriaError::PiteriaIO(e) => PiteriaErrorView::PiteriaIO(e@),
            PiteriaError::NotFound(id) => PiteriaErrorView::NotFound(*id as int),
        }
    }
}

impl PiteriaIOError {
    /// True of the failures that end a session: only a clean peer close does.
    pub fn is_fatal(&self) -> (r: bool)
        ensures
            r == (self is SocketClosed),
    {
        match self {
            PiteriaIOError::SocketClosed(_) => true,
            _ => false,
        }
    }
}

} // verus!
