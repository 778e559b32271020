//! Error types for the WebSocket library
use crate::text;
use vstd::prelude::*;
use vstd::string::StringExecFns;

verus! {

/// Result type alias for WebSocket operations
pub type Result<T> = std::result::Result<T, Error>;

/// What kind of I/O failure the transport reported
#[derive(Debug, Clone, Copy, PartialEq, Eq, Structural)]
pub enum IoErrorKind {
    /// The operation would block
    WouldBlock,
    /// The peer reset the connection
    ConnectionReset,
    /// The connection is broken
    BrokenPipe,
    /// The stream ended too early
    UnexpectedEof,
    /// The operation timed out
    TimedOut,
    /// Any other failure
    Other,
}

/// An I/O failure of the transport: its kind and its text
#[derive(Debug)]
pub struct IoError {
    /// Kind of failure
    pub kind: IoErrorKind,
    /// What the transport says of it
    pub message: String,
}

/// WebSocket error types
#[derive(Debug)]
pub enum Error {
    /// I/O error from the underlying socket
    Io(IoError),
    /// Invalid WebSocket frame
    InvalidFrame(&'static str),
    /// Invalid UTF-8 in text message
    InvalidUtf8,
    /// Protocol violation
    Protocol(&'static str),
    /// Connection closed normally
    ConnectionClosed,
    /// Message too large
    MessageTooLarge,
    /// Frame too large
    FrameTooLarge,
    /// Invalid HTTP request
    InvalidHttp(&'static str),
    /// Handshake failed
    HandshakeFailed(&'static str),
    /// Buffer full (backpressure)
    BufferFull,
    /// Would block (non-blocking I/O)
    WouldBlock,
    /// Connection reset by peer
    ConnectionReset,
    /// Invalid state
    InvalidState(&'static str),
    /// Close frame received
    Closed(Option<CloseReason>),
    /// Invalid close code
    InvalidCloseCode(u16),
    /// Capacity exceeded
    Capacity(&'static str),
    /// Compression/decompression error
    Compression(String),
    /// The matching Pong for a native keepalive Ping was not received in time.
    HeartbeatTimeout,
    /// No valid inbound frame was received before the configured hard idle deadline.
    IdleTimeout,
    /// HTTP/2 error
    Http2(String),
    /// HTTP/3 error
    Http3(String),
    /// QUIC connection error
    Quic(String),
    /// QUIC write error
    QuicWrite(String),
    /// Extended CONNECT protocol not supported by server
    ExtendedConnectNotSupported,
    /// Stream was reset by peer
    StreamReset,
}

/// Close frame reason
#[derive(Debug)]
pub struct CloseReason {
    /// Close status code
    pub code: u16,
    /// Optional reason string
    pub reason: String,
}

impl CloseReason {
    /// Normal closure
    pub const NORMAL: u16 = 1000;
    /// Going away (e.g., server shutdown)
    pub const GOING_AWAY: u16 = 1001;
    /// Protocol error
    pub const PROTOCOL_ERROR: u16 = 1002;
    /// Unsupported data
    pub const UNSUPPORTED: u16 = 1003;
    /// No status received
    pub const NO_STATUS: u16 = 1005;
    /// Abnormal closure
    pub const ABNORMAL: u16 = 1006;
    /// Invalid frame payload
    pub const INVALID_PAYLOAD: u16 = 1007;
    /// Policy violation
    pub const POLICY: u16 = 1008;
    /// Message too big
    pub const TOO_BIG: u16 = 1009;
    /// Mandatory extension
    pub const EXTENSION: u16 = 1010;
    /// Internal server error
    pub const INTERNAL: u16 = 1011;

    /// Create a new close reason
    pub fn new<T: Into<String>>(code: u16, reason: T) -> (r: Self)
        ensures
            r.code == code,
            call_ensures(<T as Into<String>>::into, (reason,), r.reason),
    {
        CloseReason { code, reason: reason.into() }
    }

    /// Check if the close code is valid per RFC 6455
    pub fn is_valid_code(code: u16) -> (r: bool)
        ensures
            r == valid_close_code(code),
    {
        (1000 <= code && code <= 1003) || (1007 <= code && code <= 1011) || (3000 <= code && code
            <= 4999)
    }
}

impl Clone for CloseReason {
    fn clone(&self) -> (r: Self)
        ensures
            r == *self,
    {
        CloseReason { code: self.code, reason: self.reason.clone() }
    }
}

/// The close codes that may stand in a Close frame (RFC 6455, section 7.4).
pub open spec fn valid_close_code(code: u16) -> bool {
    1000 <= code <= 1003 || 1007 <= code <= 1011 || 3000 <= code <= 4999
}

/// Error category for classification and metrics
#[derive(Debug, Clone, Copy, PartialEq, Eq, Hash, Structural)]
pub enum ErrorKind {
    /// I/O and connection errors
    Io,
    /// WebSocket protocol violations
    Protocol,
    /// Handshake failures
    Handshake,
    /// Data validation errors (UTF-8, frame structure)
    Validation,
    /// Resource limits exceeded (frame/message size)
    Capacity,
    /// Compression/decompression errors
    Compression,
    /// Connection state errors
    Connection,
    /// Transport-specific errors (HTTP/2, HTTP/3, QUIC)
    Transport,
}

/// The category of an error.
pub open spec fn kind_of(e: Error) -> ErrorKind {
    match e {
        Error::Io(_) | Error::WouldBlock => ErrorKind::Io,
        Error::InvalidFrame(_) | Error::InvalidUtf8 | Error::InvalidCloseCode(
            _,
        ) => ErrorKind::Validation,
        Error::Protocol(_) | Error::InvalidState(_) => ErrorKind::Protocol,
        Error::MessageTooLarge | Error::FrameTooLarge | Error::BufferFull | Error::Capacity(
            _,
        ) => ErrorKind::Capacity,
        Error::InvalidHttp(_) | Error::HandshakeFailed(_)
        | Error::ExtendedConnectNotSupported => ErrorKind::Handshake,
        Error::Compression(_) => ErrorKind::Compression,
        Error::Http2(_) | Error::Http3(_) | Error::Quic(_) | Error::QuicWrite(
            _,
        ) => ErrorKind::Transport,
        Error::ConnectionClosed | Error::ConnectionReset | Error::Closed(_)
        | Error::HeartbeatTimeout | Error::IdleTimeout
        | Error::StreamReset => ErrorKind::Connection,
    }
}

/// Errors after which the connection cannot go on.
pub open spec fn fatal(e: Error) -> bool {
    e is ConnectionClosed || e is ConnectionReset || e is Protocol || e is InvalidUtf8
        || e is FrameTooLarge || e is MessageTooLarge || e is StreamReset || e is InvalidCloseCode
        || e is HeartbeatTimeout || e is IdleTimeout
}

/// The label of an error in metrics.
pub open spec fn metric_of(e: Error) -> Seq<char> {
    match e {
        Error::Io(_) => "io_error"@,
        Error::InvalidFrame(_) => "invalid_frame"@,
        Error::InvalidUtf8 => "invalid_utf8"@,
        Error::Protocol(_) => "protocol_error"@,
        Error::ConnectionClosed => "connection_closed"@,
        Error::MessageTooLarge => "message_too_large"@,
        Error::FrameTooLarge => "frame_too_large"@,
        Error::InvalidHttp(_) => "invalid_http"@,
        Error::HandshakeFailed(_) => "handshake_failed"@,
        Error::BufferFull => "buffer_full"@,
        Error::WouldBlock => "would_block"@,
        Error::ConnectionReset => "connection_reset"@,
        Error::InvalidState(_) => "invalid_state"@,
        Error::Closed(_) => "closed"@,
        Error::InvalidCloseCode(_) => "invalid_close_code"@,
        Error::Capacity(_) => "capacity_exceeded"@,
        Error::Compression(_) => "compression_error"@,
        Error::HeartbeatTimeout => "heartbeat_timeout"@,
        Error::IdleTimeout => "idle_timeout"@,
        Error::Http2(_) => "http2_error"@,
        Error::Http3(_) => "http3_error"@,
        Error::Quic(_) => "quic_error"@,
        Error::QuicWrite(_) => "quic_write_error"@,
        Error::ExtendedConnectNotSupported => "extended_connect_not_supported"@,
        Error::StreamReset => "stream_reset"@,
    }
}

/// The HTTP status that suits an error.
pub open spec fn http_status_of(e: Error) -> u16 {
    match e {
        Error::InvalidHttp(_) | Error::InvalidFrame(_) | Error::InvalidCloseCode(_)
        | Error::Protocol(_) | Error::InvalidUtf8 | Error::HandshakeFailed(_) => 400,
        Error::MessageTooLarge | Error::FrameTooLarge | Error::Capacity(_) => 413,
        Error::BufferFull => 503,
        Error::ExtendedConnectNotSupported => 501,
        _ => 500,
    }
}

/// What an error says to a reader.
pub open spec fn text_of(e: Error) -> Seq<char> {
    match e {
        Error::Io(io) => "I/O error: "@ + io.message@,
        Error::InvalidFrame(msg) => "Invalid frame: "@ + msg@,
        Error::InvalidUtf8 => "Invalid UTF-8 in text message"@,
        Error::Protocol(msg) => "Protocol error: "@ + msg@,
        Error::ConnectionClosed => "Connection closed"@,
        Error::MessageTooLarge => "Message too large"@,
        Error::FrameTooLarge => "Frame too large"@,
        Error::InvalidHttp(msg) => "Invalid HTTP: "@ + msg@,
        Error::HandshakeFailed(msg) => "Handshake failed: "@ + msg@,
        Error::BufferFull => "Buffer full"@,
        Error::WouldBlock => "Would block"@,
        Error::ConnectionReset => "Connection reset by peer"@,
        Error::InvalidState(msg) => "Invalid state: "@ + msg@,
        Error::Closed(Some(r)) => "Connection closed: "@ + text::decimal(r.code as nat) + " ("@
            + r.reason@ + ")"@,
        Error::Closed(None) => "Connection closed"@,
        Error::InvalidCloseCode(code) => "Invalid close code: "@ + text::decimal(code as nat),
        Error::Capacity(msg) => "Capacity exceeded: "@ + msg@,
        Error::Compression(msg) => "Compression error: "@ + msg@,
        Error::HeartbeatTimeout => "WebSocket Pong deadline expired"@,
        Error::IdleTimeout => "WebSocket inbound idle deadline expired"@,
        Error::Http2(msg) => "HTTP/2 error: "@ + msg@,
        Error::Http3(msg) => "HTTP/3 error: "@ + msg@,
        Error::Quic(msg) => "QUIC error: "@ + msg@,
        Error::QuicWrite(msg) => "QUIC write error: "@ + msg@,
        Error::ExtendedConnectNotSupported => "Extended CONNECT protocol not supported by server"@,
        Error::StreamReset => "Stream was reset by peer"@,
    }
}

impl Error {
    /// Get the error category/kind
    ///
    /// Useful for metrics, logging, and error handling decisions.
    pub fn kind(&self) -> (r: ErrorKind)
        ensures
            r == kind_of(*self),
    {
        match self {
            Error::Io(_) => ErrorKind::Io,
            Error::InvalidFrame(_) => ErrorKind::Validation,
            Error::InvalidUtf8 => ErrorKind::Validation,
            Error::Protocol(_) => ErrorKind::Protocol,
            Error::ConnectionClosed => ErrorKind::Connection,
            Error::MessageTooLarge => ErrorKind::Capacity,
            Error::FrameTooLarge => ErrorKind::Capacity,
            Error::InvalidHttp(_) => ErrorKind::Handshake,
            Error::HandshakeFailed(_) => ErrorKind::Handshake,
            Error::BufferFull => ErrorKind::Capacity,
            Error::WouldBlock => ErrorKind::Io,
            Error::ConnectionReset => ErrorKind::Connection,
            Error::InvalidState(_) => ErrorKind::Protocol,
            Error::Closed(_) => ErrorKind::Connection,
            Error::InvalidCloseCode(_) => ErrorKind::Validation,
            Error::Capacity(_) => ErrorKind::Capacity,
            Error::Compression(_) => ErrorKind::Compression,
            Error::HeartbeatTimeout | Error::IdleTimeout => ErrorKind::Connection,
            Error::Http2(_) => ErrorKind::Transport,
            Error::Http3(_) => ErrorKind::Transport,
            Error::Quic(_) => ErrorKind::Transport,
            Error::QuicWrite(_) => ErrorKind::Transport,
            Error::ExtendedConnectNotSupported => ErrorKind::Handshake,
            Error::StreamReset => ErrorKind::Connection,
        }
    }

    /// Check if this error is fatal (connection cannot continue)
    ///
    /// Fatal errors indicate the connection is broken and cannot be recovered.
    /// Non-fatal errors may allow the connection to continue after handling.
    pub fn is_fatal(&self) -> (r: bool)
        ensures
            r == fatal(*self),
    {
        match self {
            Error::ConnectionClosed
            | Error::ConnectionReset
            | Error::Protocol(_)
            | Error::InvalidUtf8
            | Error::FrameTooLarge
            | Error::MessageTooLarge
            | Error::StreamReset
            | Error::InvalidCloseCode(_)
            | Error::HeartbeatTimeout
            | Error::IdleTimeout => true,
            _ => false,
        }
    }

    /// Check if this error is recoverable
    ///
    /// Recoverable errors are transient and the operation may succeed if retried.
    pub fn is_recoverable(&self) -> (r: bool)
        ensures
            r == (*self is WouldBlock || *self is BufferFull),
    {
        match self {
            Error::WouldBlock | Error::BufferFull => true,
            _ => false,
        }
    }

    /// Check if this error is a timeout
    pub fn is_timeout(&self) -> (r: bool)
        ensures
            r == match *self {
                Error::HeartbeatTimeout | Error::IdleTimeout => true,
                Error::Io(io) => io.kind == IoErrorKind::TimedOut,
                _ => false,
            },
    {
        match self {
            Error::HeartbeatTimeout | Error::IdleTimeout => true,
            Error::Io(io) => io.kind == IoErrorKind::TimedOut,
            _ => false,
        }
    }

    /// Check if this error is a connection error
    pub fn is_connection_error(&self) -> (r: bool)
        ensures
            r == (kind_of(*self) == ErrorKind::Connection),
    {
        self.kind() == ErrorKind::Connection
    }

    /// Check if this error is a protocol error
    pub fn is_protocol_error(&self) -> (r: bool)
        ensures
            r == (kind_of(*self) == ErrorKind::Protocol),
    {
        self.kind() == ErrorKind::Protocol
    }

    /// Get a metric-friendly name for this error
    ///
    /// Returns a short, lowercase, underscore-separated string suitable
    /// for use in metrics labels.
    pub fn metric_name(&self) -> (r: &'static str)
        ensures
            r@ == metric_of(*self),
    {
        match self {
            Error::Io(_) => "io_error",
            Error::InvalidFrame(_) => "invalid_frame",
            Error::InvalidUtf8 => "invalid_utf8",
            Error::Protocol(_) => "protocol_error",
            Error::ConnectionClosed => "connection_closed",
            Error::MessageTooLarge => "message_too_large",
            Error::FrameTooLarge => "frame_too_large",
            Error::InvalidHttp(_) => "invalid_http",
            Error::HandshakeFailed(_) => "handshake_failed",
            Error::BufferFull => "buffer_full",
            Error::WouldBlock => "would_block",
            Error::ConnectionReset => "connection_reset",
            Error::InvalidState(_) => "invalid_state",
            Error::Closed(_) => "closed",
            Error::InvalidCloseCode(_) => "invalid_close_code",
            Error::Capacity(_) => "capacity_exceeded",
            Error::Compression(_) => "compression_error",
            Error::HeartbeatTimeout => "heartbeat_timeout",
            Error::IdleTimeout => "idle_timeout",
            Error::Http2(_) => "http2_error",
            Error::Http3(_) => "http3_error",
            Error::Quic(_) => "quic_error",
            Error::QuicWrite(_) => "quic_write_error",
            Error::ExtendedConnectNotSupported => "extended_connect_not_supported",
            Error::StreamReset => "stream_reset",
        }
    }

    /// Get a suggested HTTP status code for this error
    ///
    /// Useful when converting WebSocket errors to HTTP responses
    /// during handshake or in HTTP/2/HTTP/3 contexts.
    pub fn suggested_http_status(&self) -> (r: u16)
        ensures
            r == http_status_of(*self),
    {
        match self {
            Error::InvalidHttp(_) | Error::InvalidFrame(_) | Error::InvalidCloseCode(_) => 400,
            Error::Protocol(_) | Error::InvalidUtf8 => 400,
            Error::HandshakeFailed(_) => 400,
            Error::MessageTooLarge | Error::FrameTooLarge | Error::Capacity(_) => 413,
            Error::BufferFull => 503,
            Error::ExtendedConnectNotSupported => 501,
            _ => 500,
        }
    }

    /// The text of this error for a reader
    pub fn message(&self) -> (r: String)
        ensures
            r@ == text_of(*self),
    {
        match self {
            Error::Io(io) => text::join2("I/O error: ", &io.message),
            Error::InvalidFrame(msg) => text::join2("Invalid frame: ", msg),
            Error::InvalidUtf8 => String::from_str("Invalid UTF-8 in text message"),
            Error::Protocol(msg) => text::join2("Protocol error: ", msg),
            Error::ConnectionClosed => String::from_str("Connection closed"),
            Error::MessageTooLarge => String::from_str("Message too large"),
            Error::FrameTooLarge => String::from_str("Frame too large"),
            Error::InvalidHttp(msg) => text::join2("Invalid HTTP: ", msg),
            Error::HandshakeFailed(msg) => text::join2("Handshake failed: ", msg),
            Error::BufferFull => String::from_str("Buffer full"),
            Error::WouldBlock => String::from_str("Would block"),
            Error::ConnectionReset => String::from_str("Connection reset by peer"),
            Error::InvalidState(msg) => text::join2("Invalid state: ", msg),
            Error::Closed(Some(reason)) => {
                let mut out = String::from_str("Connection closed: ");
                text::push_decimal(&mut out, reason.code as u64);
                out.append(" (");
                out.append(&reason.reason);
                out.append(")");
                out
            },
            Error::Closed(None) => String::from_str("Connection closed"),
            Error::InvalidCloseCode(code) => {
                let mut out = String::from_str("Invalid close code: ");
                text::push_decimal(&mut out, *code as u64);
                out
            },
            Error::Capacity(msg) => text::join2("Capacity exceeded: ", msg),
            Error::Compression(msg) => text::join2("Compression error: ", msg),
            Error::HeartbeatTimeout => String::from_str("WebSocket Pong deadline expired"),
            Error::IdleTimeout => String::from_str("WebSocket inbound idle deadline expired"),
            Error::Http2(msg) => text::join2("HTTP/2 error: ", msg),
            Error::Http3(msg) => text::join2("HTTP/3 error: ", msg),
            Error::Quic(msg) => text::join2("QUIC error: ", msg),
            Error::QuicWrite(msg) => text::join2("QUIC write error: ", msg),
            Error::ExtendedConnectNotSupported => String::from_str(
                "Extended CONNECT protocol not supported by server",
            ),
            Error::StreamReset => String::from_str("Stream was reset by peer"),
        }
    }

    /// The error that an HTTP/2 failure stands for: the I/O failure under it,
    /// where there is one, else the HTTP/2 failure itself.
    ///
    /// `is_io` tells whether the HTTP/2 layer blames the transport, `io` is the
    /// failure that it hands out then, and `message` is its own text.
    pub fn from_http2(is_io: bool, io: Option<IoError>, message: String) -> (r: Self)
        ensures
            r == (if !is_io {
                Error::Http2(message)
            } else {
                match io {
                    Some(e) => Error::Io(e),
                    None => Error::Io(IoError { kind: IoErrorKind::Other, message }),
                }
            }),
    {
        if is_io {
            match io {
                Some(e) => Error::Io(e),
                None => Error::Io(IoError { kind: IoErrorKind::Other, message }),
            }
        } else {
            Error::Http2(message)
        }
    }
}

/// What an I/O failure of the transport means for the connection.
pub open spec fn error_of_io(e: IoError) -> Error {
    match e.kind {
        IoErrorKind::WouldBlock => Error::WouldBlock,
        IoErrorKind::ConnectionReset => Error::ConnectionReset,
        IoErrorKind::BrokenPipe | IoErrorKind::UnexpectedEof => Error::ConnectionClosed,
        _ => Error::Io(e),
    }
}

impl vstd::std_specs::convert::FromSpecImpl<IoError> for Error {
    open spec fn obeys_from_spec() -> bool {
        true
    }

    open spec fn from_spec(e: IoError) -> Self {
        error_of_io(e)
    }
}

impl From<IoError> for Error {
    fn from(e: IoError) -> (r: Self) {
        match e.kind {
            IoErrorKind::WouldBlock => Error::WouldBlock,
            IoErrorKind::ConnectionReset => Error::ConnectionReset,
            IoErrorKind::BrokenPipe => Error::ConnectionClosed,
            IoErrorKind::UnexpectedEof => Error::ConnectionClosed,
            _ => Error::Io(e),
        }
    }
}

impl Clone for IoError {
    fn clone(&self) -> (r: Self)
        ensures
            r == *self,
    {
        IoError { kind: self.kind, message: self.message.clone() }
    }
}

/// Whether `io` is the I/O failure that reports `e`.
pub open spec fn io_reports(e: Error, io: IoError) -> bool {
    match e {
        Error::Io(inner) => io == inner,
        Error::WouldBlock => io.kind == IoErrorKind::WouldBlock && io.message@ == "would block"@,
        Error::ConnectionReset => io.kind == IoErrorKind::ConnectionReset && io.message@
            == "connection reset"@,
        Error::ConnectionClosed => io.kind == IoErrorKind::BrokenPipe && io.message@
            == "connection closed"@,
        _ => io.kind == IoErrorKind::Other && io.message@ == text_of(e),
    }
}

impl IoError {
    /// The I/O failure that reports an error to a caller that only knows I/O.
    pub fn from_error(e: Error) -> (r: Self)
        ensures
            io_reports(e, r),
    {
        match e {
            Error::Io(io) => io,
            Error::WouldBlock => IoError {
                kind: IoErrorKind::WouldBlock,
                message: String::from_str("would block"),
            },
            Error::ConnectionReset => IoError {
                kind: IoErrorKind::ConnectionReset,
                message: String::from_str("connection reset"),
            },
            Error::ConnectionClosed => IoError {
                kind: IoErrorKind::BrokenPipe,
                message: String::from_str("connection closed"),
            },
            other => IoError { kind: IoErrorKind::Other, message: other.message() },
        }
    }
}

/// An error that can be retried is not fatal.
pub proof fn law_recoverable_errors_are_not_fatal(e: Error)
    ensures
        e is WouldBlock || e is BufferFull ==> !fatal(e),
{
}

/// A blocked, reset or closed connection that is reported as an I/O failure
/// and read back is the same error again.
pub proof fn law_io_round_trip(e: Error, io: IoError)
    requires
        e is WouldBlock || e is ConnectionReset || e is ConnectionClosed,
        io_reports(e, io),
    ensures
        error_of_io(io) == e,
{
}

} // verus!
