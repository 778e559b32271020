//! What the mathematical values of strings, fields and messages are.
use crate::buffer::BufferView;
use crate::compression::CompressionContext;
use crate::config;
use crate::config::{Compression, Config};
use crate::deflate;
use crate::driver;
use crate::error::{CloseReason, Error};
use crate::extended_connect;
use crate::extended_connect::{ConnectView, ExtendedConnectRequest};
use crate::handshake;
use crate::handshake::{HandshakeRequest, HandshakeResponse, HandshakeResult};
use crate::protocol;
use crate::protocol::{Message, MessageView, RawMessage};
use crate::strings;
use bytes::Bytes;
use vstd::prelude::*;

verus! {

/// A message is of its own kind, with its own bytes.
pub proof fn law_messages_are_their_kind(b: Bytes, reason: CloseReason)
    ensures
        Message::Text(b)@ == MessageView::Text(b@),
        Message::Binary(b)@ == MessageView::Binary(b@),
        Message::Ping(b)@ == MessageView::Ping(b@),
        Message::Pong(b)@ == MessageView::Pong(b@),
        Message::Close(None)@ == MessageView::Close(None),
        Message::Close(Some(reason))@ == MessageView::Close(Some((reason.code, reason.reason@))),
        RawMessage::Text(b)@ == MessageView::Text(b@),
        RawMessage::Binary(b)@ == MessageView::Binary(b@),
        RawMessage::Ping(b)@ == MessageView::Ping(b@),
        RawMessage::Pong(b)@ == MessageView::Pong(b@),
        RawMessage::Close(None)@ == MessageView::Close(None),
        RawMessage::Close(Some(reason))@ == MessageView::Close(
            Some((reason.code, reason.reason@)),
        ),
{
}

/// The values of a sequence are those of its items, in order.
pub proof fn law_sequences_are_itemwise(
    messages: Seq<Message>,
    raw: Seq<RawMessage>,
    texts: Seq<String>,
    pieces: Seq<&str>,
    fields: Seq<(String, String)>,
    raw_fields: Seq<(String, Vec<u8>)>,
    values: Seq<Vec<u8>>,
    i: int,
)
    ensures
        protocol::message_views(messages).len() == messages.len(),
        0 <= i < messages.len() ==> protocol::message_views(messages)[i] == messages[i]@,
        protocol::raw_message_views(raw).len() == raw.len(),
        0 <= i < raw.len() ==> protocol::raw_message_views(raw)[i] == raw[i]@,
        handshake::string_views(texts).len() == texts.len(),
        0 <= i < texts.len() ==> handshake::string_views(texts)[i] == texts[i]@,
        strings::views(pieces).len() == pieces.len(),
        0 <= i < pieces.len() ==> strings::views(pieces)[i] == pieces[i]@,
        handshake::header_views(fields).len() == fields.len(),
        0 <= i < fields.len() ==> handshake::header_views(fields)[i] == (
            fields[i].0@,
            fields[i].1@,
        ),
        extended_connect::raw_fields(raw_fields).len() == raw_fields.len(),
        0 <= i < raw_fields.len() ==> extended_connect::raw_fields(raw_fields)[i] == (
            raw_fields[i].0@,
            raw_fields[i].1@,
        ),
        extended_connect::value_views(values).len() == values.len(),
        0 <= i < values.len() ==> extended_connect::value_views(values)[i] == values[i]@,
{
}

/// What a request, a response and a result hold is what their fields hold.
pub proof fn law_handshakes_are_fieldwise(
    q: HandshakeRequest,
    s: HandshakeResponse,
    r: HandshakeResult,
    e: Error,
)
    ensures
        q@.path == q.path@,
        q@.key == q.key@,
        q@.version == q.version@,
        q.host matches Some(t) ==> q@.host == Some(t@),
        q.host is None ==> q@.host is None,
        q.protocol matches Some(t) ==> q@.protocol == Some(t@),
        q.protocol is None ==> q@.protocol is None,
        q.extensions matches Some(t) ==> q@.extensions == Some(t@),
        q.extensions is None ==> q@.extensions is None,
        q.origin matches Some(t) ==> q@.origin == Some(t@),
        q.origin is None ==> q@.origin is None,
        s@.status == s.status,
        s.accept matches Some(t) ==> s@.accept == Some(t@),
        s.accept is None ==> s@.accept is None,
        s.protocol matches Some(t) ==> s@.protocol == Some(t@),
        s.protocol is None ==> s@.protocol is None,
        s.extensions matches Some(t) ==> s@.extensions == Some(t@),
        s.extensions is None ==> s@.extensions is None,
        r@.path == r.path@,
        r.protocol matches Some(t) ==> r@.protocol == Some(t@),
        r.protocol is None ==> r@.protocol is None,
        r.extensions matches Some(t) ==> r@.extensions == Some(t@),
        r.extensions is None ==> r@.extensions is None,
        r.leftover matches Some(b) ==> r@.leftover == Some(b@),
        r.leftover is None ==> r@.leftover is None,
        handshake::request_outcome(Ok(q)) == Ok::<handshake::RequestView, Error>(q@),
        handshake::request_outcome(Err(e)) == Err::<handshake::RequestView, Error>(e),
        handshake::response_outcome(Ok(s)) == Ok::<handshake::ResponseView, Error>(s@),
        handshake::response_outcome(Err(e)) == Err::<handshake::ResponseView, Error>(e),
        handshake::result_outcome(Ok(r)) == Ok::<handshake::ResultView, Error>(r@),
        handshake::result_outcome(Err(e)) == Err::<handshake::ResultView, Error>(e),
{
}

/// What an Extended CONNECT request holds is what its fields hold.
pub proof fn law_connect_requests_are_fieldwise(q: ExtendedConnectRequest)
    ensures
        q@.path == q.path@,
        q@.authority == q.authority@,
        q@.scheme == q.scheme@,
        q.protocol matches Some(t) ==> q@.protocol == Some(t@),
        q.protocol is None ==> q@.protocol is None,
        q.subprotocols matches Some(t) ==> q@.subprotocols == Some(t@),
        q.subprotocols is None ==> q@.subprotocols is None,
        q.extensions matches Some(t) ==> q@.extensions == Some(t@),
        q.extensions is None ==> q@.extensions is None,
        q.origin matches Some(t) ==> q@.origin == Some(t@),
        q.origin is None ==> q@.origin is None,
        q.version matches Some(t) ==> q@.version == Some(t@),
        q.version is None ==> q@.version is None,
        extended_connect::connect_view(Some(q)) == Some(q@),
        extended_connect::connect_view(None) is None,
{
}

/// The URL of a request: wss for https and ws for all else, its authority and
/// its path.
pub proof fn law_urls_of_requests(r: ConnectView)
    ensures
        r.scheme == "https"@ ==> extended_connect::url_of(r) == seq!['w', 's', 's', ':', '/', '/']
            + r.authority + r.path,
        r.scheme != "https"@ ==> extended_connect::url_of(r) == seq!['w', 's', ':', '/', '/']
            + r.authority + r.path,
{
    reveal_strlit("wss");
    reveal_strlit("ws");
    reveal_strlit("://");
    assert("wss"@ + "://"@ =~= seq!['w', 's', 's', ':', '/', '/']);
    assert("ws"@ + "://"@ =~= seq!['w', 's', ':', '/', '/']);
}

/// A text can stand in a header field of a response where it is made of plain
/// characters; without a text there is nothing to object to.
pub proof fn law_safe_texts(s: Seq<char>, c: char)
    ensures
        extended_connect::header_safe(None),
        extended_connect::header_safe(Some(Seq::empty())),
        extended_connect::header_safe(Some(s.push(c))) <==> extended_connect::header_safe(Some(s))
            && (c == '\t' || (' ' <= c && c <= '~')),
{
    let t = s.push(c);
    assert(t[s.len() as int] == c);
    assert forall|i: int| 0 <= i < s.len() implies #[trigger] s[i] == t[i] by {}
    if extended_connect::all_safe(t) {
        assert(extended_connect::safe_char(t[s.len() as int]));
        assert forall|i: int| 0 <= i < s.len() implies extended_connect::safe_char(
            #[trigger] s[i],
        ) by {
            assert(extended_connect::safe_char(t[i]));
        }
    }
    if extended_connect::all_safe(s) && extended_connect::safe_char(c) {
        assert forall|i: int| 0 <= i < t.len() implies extended_connect::safe_char(
            #[trigger] t[i],
        ) by {
            if i < s.len() {
                assert(t[i] == s[i]);
            }
        }
    }
}

/// A connection that was just split writes with a new heartbeat, nothing to
/// write and nothing put off.
pub proof fn law_drivers_begin<E>(encoder: E, config: Config)
    ensures
        ({
            let d = driver::new_driver(encoder, config);
            &&& d.encoder == encoder
            &&& d.config == config
            &&& d.write.len() == 0
            &&& d.closing_deadline is None
            &&& !d.local_close_sent
            &&& d.deferred is None
            &&& d.last_synced == 0
            &&& d.heartbeat.auto_ping <==> config.auto_ping && config.ping_interval > 0
            &&& d.heartbeat.ping_interval == config.ping_interval * 1000
            &&& d.heartbeat.idle_timeout == config.idle_timeout * 1000
            &&& d.heartbeat.pong_timeout == config.pong_timeout * 1000
            &&& d.heartbeat.outstanding is None
            &&& !d.heartbeat.stopped
        }),
{
}

/// The default configuration: messages of 64 MiB in frames of 16 MiB, a Ping
/// after 30 seconds whose Pong may take 10, 120 seconds of silence, 5 seconds
/// for closing, 1 MiB that may wait, and no compression.
pub proof fn law_default_configuration(c: Config)
    requires
        config::is_default(c),
    ensures
        c.max_message_size == 64 * 1024 * 1024,
        c.max_frame_size == 16 * 1024 * 1024,
        c.compression is Disabled,
        c.deflate is None,
        c.idle_timeout == 120,
        c.auto_ping,
        c.ping_interval == 30,
        c.pong_timeout == 10,
        c.pong_timeout_close_code == 1001,
        c.pong_timeout_close_reason@ == "Pong reply not received in time"@,
        c.close_timeout == 5,
        c.max_backpressure == 1024 * 1024,
        c.write_buffer_size == 16 * 1024,
        c.write_coalescing,
        c.http2.initial_stream_window_size == 1024 * 1024,
        c.http2.initial_connection_window_size == 2 * 1024 * 1024,
        c.http2.max_concurrent_streams == 100,
        c.http2.enable_connect_protocol,
        c.http3.max_idle_timeout_ms == 30_000,
        c.http3.initial_stream_window_size == 1024 * 1024,
        !c.http3.enable_0rtt,
        c.http3.enable_connect_protocol,
        c.http3.max_udp_payload_size == 1350,
        c.io_uring.registered_buffer_count == 64,
        c.io_uring.registered_buffer_size == 64 * 1024,
        !c.io_uring.sqpoll,
        c.io_uring.sq_entries == 256,
{
}

/// A connection's share in compression: none where the mode is disabled, a place
/// in the pool with a decoder for what the other side sends where it is shared,
/// and streams of its own else, the encoder with its own side's window and the
/// decoder with the other's.
pub proof fn law_shares_in_compression(c: CompressionContext, mode: Compression)
    ensures
        c.is_server_of(mode) || c.is_client_of(mode) ==> (mode is Disabled <==> c is Disabled) && (
        mode is Shared <==> c is Shared),
        c.is_server_of(mode) ==> (c matches CompressionContext::Dedicated(ctx) ==> {
            &&& config::mode_config(mode) == Some(ctx.config)
            &&& ctx.encoder@.window == deflate::bits_of(ctx.config.server_max_window_bits)
            &&& ctx.encoder@.no_context_takeover == ctx.config.server_no_context_takeover
            &&& ctx.decoder@.window == deflate::bits_of(ctx.config.client_max_window_bits)
            &&& ctx.decoder@.no_context_takeover == ctx.config.client_no_context_takeover
        }),
        c.is_client_of(mode) ==> (c matches CompressionContext::Dedicated(ctx) ==> {
            &&& config::mode_config(mode) == Some(ctx.config)
            &&& ctx.encoder@.window == deflate::bits_of(ctx.config.client_max_window_bits)
            &&& ctx.encoder@.no_context_takeover == ctx.config.client_no_context_takeover
            &&& ctx.decoder@.window == deflate::bits_of(ctx.config.server_max_window_bits)
            &&& ctx.decoder@.no_context_takeover == ctx.config.server_no_context_takeover
        }),
        c.is_server_of(mode) ==> (c matches CompressionContext::Shared {
            is_server,
            decoder,
            config,
        } ==> is_server && config::mode_config(mode) == Some(config) && decoder@.window
            == deflate::bits_of(config.client_max_window_bits) && decoder@.no_context_takeover
            == config.client_no_context_takeover),
        c.is_client_of(mode) ==> (c matches CompressionContext::Shared {
            is_server,
            decoder,
            config,
        } ==> !is_server && config::mode_config(mode) == Some(config) && decoder@.window
            == deflate::bits_of(config.server_max_window_bits) && decoder@.no_context_takeover
            == config.server_no_context_takeover),
{
}

} // verus!
