//! WebSocket streams over HTTP/3 (RFC 9220): what a configuration may hold, and
//! the states of a stream.
use crate::config::Http3Config;
use crate::error::{Error, Result};
use crate::http2;
use crate::http2::{RecvBuffer, RecvModel};
use vstd::prelude::*;

verus! {

/// HTTP/3 SETTINGS_ENABLE_CONNECT_PROTOCOL parameter (RFC 9220, Section 5)
///
/// When set to 1, indicates the server supports Extended CONNECT
/// with the `:protocol` pseudo-header for WebSocket bootstrapping.
pub const SETTINGS_ENABLE_CONNECT_PROTOCOL: u64 = 0x08;

/// The `:protocol` pseudo-header value for WebSocket (RFC 9220)
pub const PROTOCOL_WEBSOCKET: &'static str = "websocket";

/// H3_REQUEST_CANCELLED error code for stream reset (RFC 9114, Section 8.1)
///
/// Used when closing a WebSocket connection abnormally, analogous to
/// TCP RST in RFC 6455.
pub const H3_REQUEST_CANCELLED: u64 = 0x10c;

/// The numbers that QUIC can carry are below this one.
pub const VARINT_LIMIT: u64 = 0x4000_0000_0000_0000;

/// `quinn::VarInt::from_u64`: the same number if QUIC can carry it, which is so
/// below 2 to the power of 62.
#[verifier::external_body]
fn varint(x: u64) -> (r: Option<u64>)
    ensures
        r == (if x < VARINT_LIMIT {
            Some(x)
        } else {
            None
        }),
{
    quinn::VarInt::from_u64(x).ok().map(quinn::VarInt::into_inner)
}

/// `quinn::EndpointConfig::max_udp_payload_size`: accepts 1200 to 65527 bytes.
#[verifier::external_body]
fn accepts_udp_payload_size(size: u16) -> (r: bool)
    ensures
        r == (1200 <= size <= 65527),
{
    quinn::EndpointConfig::default().max_udp_payload_size(size).is_ok()
}

/// What an HTTP/3 configuration asks of QUIC.
#[derive(Debug, Clone, Copy, PartialEq, Eq, Structural)]
pub struct QuicTransport {
    /// Idle timeout in milliseconds
    pub max_idle_timeout_ms: u64,
    /// Receive window of a stream
    pub stream_receive_window: u64,
}

/// What is wrong with a configuration of the built-in client or server.
pub open spec fn config_error(config: Http3Config) -> Option<Seq<char>> {
    if config.enable_0rtt {
        Some("HTTP/3 0-RTT is not supported by the built-in client or server"@)
    } else {
        None
    }
}

/// What is wrong with the transport settings of a configuration.
pub open spec fn transport_error(config: Http3Config) -> Option<Seq<char>> {
    if config_error(config) is Some {
        config_error(config)
    } else if config.max_idle_timeout_ms >= VARINT_LIMIT {
        Some("HTTP/3 idle timeout exceeds QUIC limits"@)
    } else if config.initial_stream_window_size >= VARINT_LIMIT {
        Some("HTTP/3 stream window exceeds QUIC limits"@)
    } else {
        None
    }
}

/// Whether a result is this error of HTTP/3.
pub open spec fn fails_with<T>(r: Result<T>, text: Seq<char>) -> bool {
    r matches Err(Error::Http3(message)) && message@ == text
}

/// Check a configuration of the built-in client or server
pub fn validate_config(config: &Http3Config) -> (r: Result<()>)
    ensures
        match config_error(*config) {
            Some(text) => fails_with(r, text),
            None => r is Ok,
        },
{
    if config.enable_0rtt {
        return Err(
            Error::Http3(
                "HTTP/3 0-RTT is not supported by the built-in client or server".to_owned(),
            ),
        );
    }
    Ok(())
}

/// What a configuration asks of QUIC, if QUIC can carry it
pub fn quic_transport_config(config: &Http3Config) -> (r: Result<QuicTransport>)
    ensures
        match transport_error(*config) {
            Some(text) => fails_with(r, text),
            None => r == Ok::<QuicTransport, Error>(
                QuicTransport {
                    max_idle_timeout_ms: config.max_idle_timeout_ms,
                    stream_receive_window: config.initial_stream_window_size,
                },
            ),
        },
{
    if let Err(e) = validate_config(config) {
        return Err(e);
    }
    let max_idle_timeout_ms: u64 = match varint(config.max_idle_timeout_ms) {
        Some(ms) => ms,
        None => {
            return Err(Error::Http3("HTTP/3 idle timeout exceeds QUIC limits".to_owned()));
        },
    };
    let stream_receive_window: u64 = match varint(config.initial_stream_window_size) {
        Some(size) => size,
        None => {
            return Err(Error::Http3("HTTP/3 stream window exceeds QUIC limits".to_owned()));
        },
    };
    Ok(QuicTransport { max_idle_timeout_ms, stream_receive_window })
}

/// The largest UDP payload that a configuration asks for, if QUIC accepts it
pub fn quic_endpoint_config(config: &Http3Config) -> (r: Result<u16>)
    ensures
        1200 <= config.max_udp_payload_size <= 65527 ==> r == Ok::<u16, Error>(
            config.max_udp_payload_size,
        ),
        !(1200 <= config.max_udp_payload_size <= 65527) ==> fails_with(
            r,
            "HTTP/3 maximum UDP payload size must be between 1200 and 65527 bytes"@,
        ),
{
    if !accepts_udp_payload_size(config.max_udp_payload_size) {
        return Err(
            Error::Http3(
                "HTTP/3 maximum UDP payload size must be between 1200 and 65527 bytes".to_owned(),
            ),
        );
    }
    Ok(config.max_udp_payload_size)
}

/// What an endpoint is made with.
#[derive(Debug, Clone, Copy, PartialEq, Eq, Structural)]
pub struct EndpointSettings {
    /// Settings of its connections
    pub transport: QuicTransport,
    /// Largest UDP payload
    pub max_udp_payload_size: u16,
}

/// Why no endpoint can be made of a configuration.
pub open spec fn endpoint_error(config: Http3Config) -> Option<Seq<char>> {
    if transport_error(config) is Some {
        transport_error(config)
    } else if !(1200 <= config.max_udp_payload_size <= 65527) {
        Some("HTTP/3 maximum UDP payload size must be between 1200 and 65527 bytes"@)
    } else {
        None
    }
}

/// The settings that a configuration asks for.
pub open spec fn endpoint_settings(config: Http3Config) -> EndpointSettings {
    EndpointSettings {
        transport: QuicTransport {
            max_idle_timeout_ms: config.max_idle_timeout_ms,
            stream_receive_window: config.initial_stream_window_size,
        },
        max_udp_payload_size: config.max_udp_payload_size,
    }
}

/// What a server's endpoint is made with, if QUIC takes it
pub fn server_endpoint_settings(config: &Http3Config) -> (r: Result<EndpointSettings>)
    ensures
        match endpoint_error(*config) {
            Some(text) => fails_with(r, text),
            None => r == Ok::<EndpointSettings, Error>(endpoint_settings(*config)),
        },
{
    let transport = match quic_transport_config(config) {
        Ok(transport) => transport,
        Err(e) => return Err(e),
    };
    let max_udp_payload_size: u16 = match quic_endpoint_config(config) {
        Ok(size) => size,
        Err(e) => return Err(e),
    };
    Ok(EndpointSettings { transport, max_udp_payload_size })
}

/// What a client's endpoint is made with, if the configuration lets a WebSocket
/// be opened and QUIC takes it
pub fn client_endpoint_settings(config: &Http3Config) -> (r: Result<EndpointSettings>)
    ensures
        !config.enable_connect_protocol ==> r == Err::<EndpointSettings, Error>(
            Error::ExtendedConnectNotSupported,
        ),
        config.enable_connect_protocol ==> match endpoint_error(*config) {
            Some(text) => fails_with(r, text),
            None => r == Ok::<EndpointSettings, Error>(endpoint_settings(*config)),
        },
{
    if !config.enable_connect_protocol {
        return Err(Error::ExtendedConnectNotSupported);
    }
    server_endpoint_settings(config)
}

/// No endpoint accepts data before the handshake is complete.
pub proof fn law_early_data_is_refused(config: Http3Config)
    requires
        config.enable_0rtt,
    ensures
        config_error(config) is Some,
        transport_error(config) is Some,
        endpoint_error(config) is Some,
{
}

/// The receive side of a stream over raw QUIC.
#[derive(Debug)]
pub struct Http3Stream {
    recv_buf: RecvBuffer,
    recv_finished: bool,
}

impl Http3Stream {
    /// What was received and not handed on.
    pub closed spec fn received(&self) -> RecvModel {
        self.recv_buf@
    }

    /// Whether the receive side is finished.
    pub closed spec fn finished(&self) -> bool {
        self.recv_finished
    }

    /// A stream that has received nothing
    pub fn new() -> (r: Self)
        ensures
            r.received() == (RecvModel { unread: Seq::empty(), eof: false }),
            !r.finished(),
    {
        Http3Stream { recv_buf: RecvBuffer::new(), recv_finished: false }
    }

    /// Check if the receive side is finished
    pub fn is_recv_finished(&self) -> (r: bool)
        ensures
            r == self.finished(),
    {
        self.recv_finished
    }

    /// Get the number of bytes that were received and not handed on
    pub fn recv_buf_len(&self) -> (r: usize)
        ensures
            r == self.received().unread.len(),
    {
        self.recv_buf.len()
    }

    /// Hand on what was received: so many bytes, none once the receive side is
    /// finished. `None` means that QUIC has to be read.
    pub fn fill(&mut self, out: &mut [u8]) -> (r: Option<usize>)
        ensures
            final(self).finished() == old(self).finished(),
            old(self).received().unread.len() > 0 ==> ({
                let (given, left) = http2::cut(old(self).received().unread, old(out)@.len());
                &&& r == Some(given.len() as usize)
                &&& final(out)@ == given + old(out)@.skip(given.len() as int)
                &&& final(self).received() == (RecvModel { unread: left, ..old(self).received() })
            }),
            old(self).received().unread.len() == 0 ==> final(self).received()
                == old(self).received() && final(out)@ == old(out)@ && r == if old(self).finished()
                || old(self).received().eof {
                Some(0usize)
            } else {
                None
            },
    {
        match self.recv_buf.fill(out) {
            Some(n) => Some(n),
            None => if self.recv_finished {
                Some(0)
            } else {
                None
            },
        }
    }

    /// The peer has reset the stream
    pub fn reset(&mut self)
        ensures
            final(self).finished(),
            final(self).received() == old(self).received(),
    {
        self.recv_finished = true;
    }
}

// ---------------------------------------------------------------------------
// Writing
// ---------------------------------------------------------------------------

/// What is under way on the send side of a stream.
///
/// DATA and shutdown writes are kept until they complete; beginning either
/// again would start a second write and close the connection.
#[derive(Debug, Clone, Copy, PartialEq, Eq, Structural)]
pub enum SendPhase {
    /// Nothing
    Ready,
    /// DATA that was accepted is being sent
    Writing,
    /// The send side is being finished
    Finishing,
    /// The send side is finished
    Finished,
}

/// What a caller asks of the send side.
#[derive(Debug, Clone, Copy, PartialEq, Eq, Structural)]
pub enum SendCall {
    /// Write some bytes, at least one
    Write,
    /// Wait until what was accepted is sent
    Flush,
    /// Finish the send side
    Shutdown,
}

/// What to do for a caller.
#[derive(Debug, Clone, Copy, PartialEq, Eq, Structural)]
pub enum SendStep {
    /// Accept all bytes: begin to send them and tell so
    Accept,
    /// Begin to finish the send side, and go on as for `Poll`
    Finish,
    /// Wait for what is under way; then call [`SendPhase::on_complete`]
    Poll,
    /// Call [`SendPhase::on_call`] again
    Again,
    /// Tell that it is done
    Done,
    /// Report the error of what was under way
    Fail,
    /// Report that the send side is finished
    Broken,
}

/// What is done for a caller.
pub open spec fn called(phase: SendPhase, call: SendCall) -> (SendPhase, SendStep) {
    match (phase, call) {
        (SendPhase::Ready, SendCall::Write) => (SendPhase::Writing, SendStep::Accept),
        (SendPhase::Ready, SendCall::Flush) => (phase, SendStep::Done),
        (SendPhase::Ready, SendCall::Shutdown) => (SendPhase::Finishing, SendStep::Finish),
        (SendPhase::Finished, SendCall::Write) => (phase, SendStep::Broken),
        (SendPhase::Finished, _) => (phase, SendStep::Done),
        (_, _) => (phase, SendStep::Poll),
    }
}

/// What is done for a caller once what was under way has ended, with or without
/// an error.
pub open spec fn completed(phase: SendPhase, call: SendCall, ok: bool) -> (SendPhase, SendStep) {
    match phase {
        SendPhase::Writing => (
            SendPhase::Ready,
            if !ok {
                SendStep::Fail
            } else if call is Flush {
                SendStep::Done
            } else {
                SendStep::Again
            },
        ),
        SendPhase::Finishing => if !ok {
            (SendPhase::Ready, SendStep::Fail)
        } else {
            (
                SendPhase::Finished,
                if call is Write {
                    SendStep::Broken
                } else {
                    SendStep::Done
                },
            )
        },
        _ => called(phase, call),
    }
}

impl SendPhase {
    /// A caller asks for something
    pub fn on_call(&mut self, call: SendCall) -> (r: SendStep)
        ensures
            (*final(self), r) == called(*old(self), call),
    {
        match *self {
            SendPhase::Ready => match call {
                SendCall::Write => {
                    // Accept owned bytes synchronously. A cancelled caller must never
                    // have its old byte count reported against a different buffer on
                    // the next poll.
                    *self = SendPhase::Writing;
                    SendStep::Accept
                },
                SendCall::Flush => SendStep::Done,
                SendCall::Shutdown => {
                    *self = SendPhase::Finishing;
                    SendStep::Finish
                },
            },
            SendPhase::Finished => match call {
                SendCall::Write => SendStep::Broken,
                _ => SendStep::Done,
            },
            _ => SendStep::Poll,
        }
    }

    /// What was under way has ended
    pub fn on_complete(&mut self, call: SendCall, ok: bool) -> (r: SendStep)
        ensures
            (*final(self), r) == completed(*old(self), call, ok),
    {
        match *self {
            SendPhase::Writing => {
                *self = SendPhase::Ready;
                if !ok {
                    return SendStep::Fail;
                }
                match call {
                    SendCall::Flush => SendStep::Done,
                    _ => SendStep::Again,
                }
            },
            SendPhase::Finishing => {
                if !ok {
                    *self = SendPhase::Ready;
                    return SendStep::Fail;
                }
                *self = SendPhase::Finished;
                match call {
                    SendCall::Write => SendStep::Broken,
                    _ => SendStep::Done,
                }
            },
            _ => self.on_call(call),
        }
    }
}

/// Bytes are accepted only while nothing is under way, so that no caller is told
/// the count of another's bytes.
pub proof fn law_bytes_are_accepted_only_when_ready(phase: SendPhase, call: SendCall, ok: bool)
    ensures
        called(phase, call).1 is Accept <==> phase is Ready && call is Write,
        !(phase is Ready) ==> !(completed(phase, call, ok).1 is Accept),
{
}

/// Finishing begins once: what is under way is never begun again, and a finished
/// send side stays so and takes no bytes.
pub proof fn law_finishing_begins_once(phase: SendPhase, call: SendCall)
    ensures
        called(phase, call).1 is Finish <==> phase is Ready && call is Shutdown,
        phase is Finishing ==> called(phase, call) == (phase, SendStep::Poll),
        called(SendPhase::Finished, call).0 is Finished,
        called(SendPhase::Finished, SendCall::Write).1 is Broken,
        called(SendPhase::Finished, SendCall::Shutdown).1 is Done,
{
}

// ---------------------------------------------------------------------------
// Writes that can be cancelled
// ---------------------------------------------------------------------------

/// Text of the error of a stream whose DATA write was cancelled
pub const CANCELLED_WRITE: &'static str = "HTTP/3 DATA write was cancelled";

/// A DATA write that its caller can abandon.
///
/// Part of the bytes may have left, so that abandoning a write ends the stream
/// in both directions.
#[derive(Debug, Clone, Copy, PartialEq, Eq, Structural)]
pub enum DataWrite {
    /// No write is under way
    Idle,
    /// A write is under way
    Pending,
    /// A write was abandoned
    Cancelled,
}

/// What happens to a DATA write.
#[derive(Debug, Clone, Copy, PartialEq, Eq, Structural)]
pub enum WriteEvent {
    /// The stream is about to be read, flushed or shut down
    Use,
    /// A write begins
    Begin,
    /// The write has ended, with or without an error
    End,
    /// The caller is gone
    Drop,
}

/// What to do of an event.
#[derive(Debug, Clone, Copy, PartialEq, Eq, Structural)]
pub enum WriteVerdict {
    /// Go on
    Proceed,
    /// Stop both directions of the stream
    StopStream,
    /// Refuse with the error of a cancelled write
    Refuse,
}

/// What an event makes of a write, and what is to be done.
pub open spec fn write_event(w: DataWrite, e: WriteEvent) -> (DataWrite, WriteVerdict) {
    match (w, e) {
        (DataWrite::Cancelled, WriteEvent::Use) => (w, WriteVerdict::Refuse),
        (DataWrite::Cancelled, WriteEvent::Begin) => (w, WriteVerdict::Refuse),
        (DataWrite::Cancelled, _) => (w, WriteVerdict::Proceed),
        (_, WriteEvent::Use) => (w, WriteVerdict::Proceed),
        (_, WriteEvent::Begin) => (DataWrite::Pending, WriteVerdict::Proceed),
        (_, WriteEvent::End) => (DataWrite::Idle, WriteVerdict::Proceed),
        (DataWrite::Pending, WriteEvent::Drop) => (DataWrite::Cancelled, WriteVerdict::StopStream),
        (DataWrite::Idle, WriteEvent::Drop) => (w, WriteVerdict::Proceed),
    }
}

impl DataWrite {
    /// Take note of an event
    pub fn on_event(&mut self, event: WriteEvent) -> (r: WriteVerdict)
        ensures
            (*final(self), r) == write_event(*old(self), event),
    {
        match *self {
            DataWrite::Cancelled => match event {
                WriteEvent::Use | WriteEvent::Begin => WriteVerdict::Refuse,
                _ => WriteVerdict::Proceed,
            },
            DataWrite::Pending => match event {
                WriteEvent::End => {
                    *self = DataWrite::Idle;
                    WriteVerdict::Proceed
                },
                WriteEvent::Drop => {
                    *self = DataWrite::Cancelled;
                    WriteVerdict::StopStream
                },
                _ => WriteVerdict::Proceed,
            },
            DataWrite::Idle => {
                if event == WriteEvent::Begin {
                    *self = DataWrite::Pending;
                }
                WriteVerdict::Proceed
            },
        }
    }
}

/// Cancelling a pending DATA write ends the stream: it is stopped once, and all
/// later reads, writes, flushes and shutdowns are refused.
pub proof fn law_cancelled_write_ends_stream(e: WriteEvent)
    ensures
        write_event(DataWrite::Pending, WriteEvent::Drop) == (
            DataWrite::Cancelled,
            WriteVerdict::StopStream,
        ),
        write_event(DataWrite::Cancelled, e).0 is Cancelled,
        !(write_event(DataWrite::Cancelled, e).1 is StopStream),
        e is Use || e is Begin ==> write_event(DataWrite::Cancelled, e).1 is Refuse,
{
}

/// A write that has ended is not cancelled when its caller goes away.
pub proof fn law_completed_write_is_not_cancelled(w: DataWrite)
    requires
        !(w is Cancelled),
    ensures
        ({
            let ended = write_event(w, WriteEvent::End).0;
            write_event(ended, WriteEvent::Drop) == (DataWrite::Idle, WriteVerdict::Proceed)
        }),
{
}

} // verus!
