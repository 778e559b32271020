//! What errors are called in metrics, and what they say.
use crate::error;
use crate::error::{CloseReason, Error, IoError};
use crate::text;
use vstd::prelude::*;

verus! {

/// Errors of the protocol and of the data: their labels and what they say.
pub proof fn law_labels_of_protocol_errors(e: Error)
    ensures
        e is InvalidFrame ==> error::metric_of(e) == "invalid_frame"@,
        e is InvalidUtf8 ==> error::metric_of(e) == "invalid_utf8"@,
        e is Protocol ==> error::metric_of(e) == "protocol_error"@,
        e is MessageTooLarge ==> error::metric_of(e) == "message_too_large"@,
        e is FrameTooLarge ==> error::metric_of(e) == "frame_too_large"@,
        e is InvalidState ==> error::metric_of(e) == "invalid_state"@,
        e is InvalidCloseCode ==> error::metric_of(e) == "invalid_close_code"@,
        e is Capacity ==> error::metric_of(e) == "capacity_exceeded"@,
        e is BufferFull ==> error::metric_of(e) == "buffer_full"@,
        e is Compression ==> error::metric_of(e) == "compression_error"@,
        e is InvalidHttp ==> error::metric_of(e) == "invalid_http"@,
        e is HandshakeFailed ==> error::metric_of(e) == "handshake_failed"@,
{
}

/// Errors of the connection and of the transport: their labels.
pub proof fn law_labels_of_connection_errors(e: Error)
    ensures
        e is Io ==> error::metric_of(e) == "io_error"@,
        e is WouldBlock ==> error::metric_of(e) == "would_block"@,
        e is ConnectionClosed ==> error::metric_of(e) == "connection_closed"@,
        e is ConnectionReset ==> error::metric_of(e) == "connection_reset"@,
        e is Closed ==> error::metric_of(e) == "closed"@,
        e is HeartbeatTimeout ==> error::metric_of(e) == "heartbeat_timeout"@,
        e is IdleTimeout ==> error::metric_of(e) == "idle_timeout"@,
        e is StreamReset ==> error::metric_of(e) == "stream_reset"@,
        e is Http2 ==> error::metric_of(e) == "http2_error"@,
        e is Http3 ==> error::metric_of(e) == "http3_error"@,
        e is Quic ==> error::metric_of(e) == "quic_error"@,
        e is QuicWrite ==> error::metric_of(e) == "quic_write_error"@,
        e is ExtendedConnectNotSupported ==> error::metric_of(e)
            == "extended_connect_not_supported"@,
{
}

/// What errors say that carry a message: what they are, and the message.
pub proof fn law_texts_with_messages(e: Error)
    ensures
        e matches Error::Io(io) ==> error::text_of(e) == "I/O error: "@ + io.message@,
        e matches Error::InvalidFrame(m) ==> error::text_of(e) == "Invalid frame: "@ + m@,
        e matches Error::Protocol(m) ==> error::text_of(e) == "Protocol error: "@ + m@,
        e matches Error::InvalidHttp(m) ==> error::text_of(e) == "Invalid HTTP: "@ + m@,
        e matches Error::HandshakeFailed(m) ==> error::text_of(e) == "Handshake failed: "@ + m@,
        e matches Error::InvalidState(m) ==> error::text_of(e) == "Invalid state: "@ + m@,
        e matches Error::Capacity(m) ==> error::text_of(e) == "Capacity exceeded: "@ + m@,
        e matches Error::Compression(m) ==> error::text_of(e) == "Compression error: "@ + m@,
        e matches Error::Http2(m) ==> error::text_of(e) == "HTTP/2 error: "@ + m@,
        e matches Error::Http3(m) ==> error::text_of(e) == "HTTP/3 error: "@ + m@,
        e matches Error::Quic(m) ==> error::text_of(e) == "QUIC error: "@ + m@,
        e matches Error::QuicWrite(m) ==> error::text_of(e) == "QUIC write error: "@ + m@,
        e matches Error::InvalidCloseCode(code) ==> error::text_of(e) == "Invalid close code: "@
            + text::decimal(code as nat),
        e matches Error::Closed(Some(reason)) ==> error::text_of(e) == "Connection closed: "@
            + text::decimal(reason.code as nat) + " ("@ + reason.reason@ + ")"@,
{
}

/// What errors say that carry none.
pub proof fn law_texts_without_messages(e: Error)
    ensures
        e is InvalidUtf8 ==> error::text_of(e) == "Invalid UTF-8 in text message"@,
        e is ConnectionClosed ==> error::text_of(e) == "Connection closed"@,
        e == Error::Closed(None::<CloseReason>) ==> error::text_of(e) == "Connection closed"@,
        e is MessageTooLarge ==> error::text_of(e) == "Message too large"@,
        e is FrameTooLarge ==> error::text_of(e) == "Frame too large"@,
        e is BufferFull ==> error::text_of(e) == "Buffer full"@,
        e is WouldBlock ==> error::text_of(e) == "Would block"@,
        e is ConnectionReset ==> error::text_of(e) == "Connection reset by peer"@,
        e is HeartbeatTimeout ==> error::text_of(e) == "WebSocket Pong deadline expired"@,
        e is IdleTimeout ==> error::text_of(e) == "WebSocket inbound idle deadline expired"@,
        e is ExtendedConnectNotSupported ==> error::text_of(e)
            == "Extended CONNECT protocol not supported by server"@,
        e is StreamReset ==> error::text_of(e) == "Stream was reset by peer"@,
{
}

/// The category of an error, by what it is about.
pub proof fn law_kinds_of_errors(e: Error)
    ensures
        e is Io || e is WouldBlock <==> error::kind_of(e) is Io,
        e is InvalidFrame || e is InvalidUtf8 || e is InvalidCloseCode <==> error::kind_of(
            e,
        ) is Validation,
        e is Protocol || e is InvalidState <==> error::kind_of(e) is Protocol,
        e is MessageTooLarge || e is FrameTooLarge || e is BufferFull || e is Capacity
            <==> error::kind_of(e) is Capacity,
        e is InvalidHttp || e is HandshakeFailed || e is ExtendedConnectNotSupported
            <==> error::kind_of(e) is Handshake,
        e is Compression <==> error::kind_of(e) is Compression,
        e is Http2 || e is Http3 || e is Quic || e is QuicWrite <==> error::kind_of(
            e,
        ) is Transport,
        e is ConnectionClosed || e is ConnectionReset || e is Closed || e is HeartbeatTimeout
            || e is IdleTimeout || e is StreamReset <==> error::kind_of(e) is Connection,
{
}

/// How an error is reported to a caller that only knows I/O: an I/O failure as
/// it was, a blocked, reset or closed connection by its kind, and all else with
/// what the error says.
pub proof fn law_reported_failures(e: Error, io: IoError)
    requires
        error::io_reports(e, io),
    ensures
        e matches Error::Io(inner) ==> io == inner,
        e is WouldBlock ==> io.kind is WouldBlock && io.message@ == "would block"@,
        e is ConnectionReset ==> io.kind is ConnectionReset && io.message@ == "connection reset"@,
        e is ConnectionClosed ==> io.kind is BrokenPipe && io.message@ == "connection closed"@,
        !(e is Io) && !(e is WouldBlock) && !(e is ConnectionReset) && !(e is ConnectionClosed)
            ==> io.kind is Other && io.message@ == error::text_of(e),
{
}

} // verus!
