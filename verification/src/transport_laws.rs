//! What upgrades, transports, modes and errors promise, in plain terms.
use crate::axum_integration;
use crate::axum_integration::{UpgradeView, WebSocketUpgradeRejection};
use crate::bench;
use crate::codec;
use crate::compression;
use crate::compression::RingView;
use crate::config;
use crate::config::{Compression, Config, Http3Config};
use crate::connect_laws;
use crate::deflate;
use crate::deflate::DeflateConfig;
use crate::deflate_stream;
use crate::error;
use crate::error::{Error, IoError};
use crate::extended_connect;
use crate::handshake;
use crate::http2;
use crate::http3;
use crate::http3::{DataWrite, SendCall, SendPhase, SendStep, WriteEvent};
use crate::io_uring;
use crate::protocol::MessageView;
use crate::strings;
use crate::text;
use crate::text_laws;
use crate::url_laws;
use vstd::prelude::*;
use vstd::utf8::*;

verus! {

// ---------------------------------------------------------------------------
// Upgrades of requests that another server has read
// ---------------------------------------------------------------------------

/// Whether a text holds a piece, which is in lower case, in whatever case.
pub open spec fn holds_piece(s: Seq<char>, piece: Seq<char>) -> bool {
    exists|at: int|
        {
            &&& 0 <= at
            &&& at + piece.len() <= s.len()
            &&& #[trigger] strings::lowered(s.subrange(at, (at + piece.len()) as int)) == piece
        }
}

proof fn lemma_holds_piece(s: Seq<char>, piece: Seq<char>)
    ensures
        strings::lowered_holds(s, piece) <==> holds_piece(s, piece),
{
    if strings::lowered_holds(s, piece) {
        let at = choose|at: int| #[trigger] strings::stands_at(strings::lowered(s), piece, at);
        let part = s.subrange(at, (at + piece.len()) as int);
        assert(strings::lowered(part) =~= strings::lowered(s).subrange(
            at,
            (at + piece.len()) as int,
        ));
    }
    if holds_piece(s, piece) {
        let at = choose|at: int|
            0 <= at && at + piece.len() <= s.len() && #[trigger] strings::lowered(
                s.subrange(at, (at + piece.len()) as int),
            ) == piece;
        let part = s.subrange(at, (at + piece.len()) as int);
        assert(strings::lowered(part) =~= strings::lowered(s).subrange(
            at,
            (at + piece.len()) as int,
        ));
        assert(strings::stands_at(strings::lowered(s), piece, at));
    }
}

/// Whether the first field of a name says a text that holds a piece.
pub open spec fn field_holds(
    headers: Seq<(Seq<char>, Seq<u8>)>,
    name: Seq<char>,
    piece: Seq<char>,
) -> bool {
    exists|t: Seq<char>| #[trigger]
        connect_laws::says(headers, name, Some(t)) && holds_piece(t, piece)
}

/// An upgrade is accepted exactly where the method is GET, Upgrade and
/// Connection say so, in whatever case, there is a key, the version is 13 and
/// the connection can be upgraded. What is refused is answered with 405 for the
/// method, and with 400 for all else.
pub proof fn law_upgrades_are_accepted(
    method: Seq<char>,
    headers: Seq<(Seq<char>, Seq<u8>)>,
    can_upgrade: bool,
)
    ensures
        axum_integration::upgrade_rejection(method, headers, can_upgrade) is None <==> {
            &&& method == "GET"@
            &&& field_holds(headers, "upgrade"@, "websocket"@)
            &&& field_holds(headers, "connection"@, "upgrade"@)
            &&& !connect_laws::says(headers, "sec-websocket-key"@, None)
            &&& connect_laws::says(headers, "sec-websocket-version"@, Some("13"@))
            &&& can_upgrade
        },
        axum_integration::upgrade_rejection(method, headers, can_upgrade) matches Some(r)
            ==> axum_integration::rejection_status(r) == if method != "GET"@ {
            405u16
        } else {
            400u16
        },
{
    lemma_field(headers, "upgrade"@, "websocket"@);
    lemma_field(headers, "connection"@, "upgrade"@);
    lemma_field(headers, "sec-websocket-key"@, "upgrade"@);
    lemma_field(headers, "sec-websocket-version"@, "upgrade"@);
}

proof fn lemma_field(headers: Seq<(Seq<char>, Seq<u8>)>, name: Seq<char>, piece: Seq<char>)
    ensures
        ({
            let value = extended_connect::field_text(headers, name);
            &&& connect_laws::says(headers, name, value)
            &&& forall|other: Option<Seq<char>>| #[trigger]
                connect_laws::says(headers, name, other) ==> other == value
            &&& field_holds(headers, name, piece) <==> value is Some && strings::lowered_holds(
                value->0,
                piece,
            )
        }),
{
    connect_laws::lemma_field_says(headers, name);
    let value = extended_connect::field_text(headers, name);
    if value is Some {
        lemma_holds_piece(value->0, piece);
        if strings::lowered_holds(value->0, piece) {
            assert(connect_laws::says(headers, name, Some(value->0)) && holds_piece(
                value->0,
                piece,
            ));
        }
    }
    if field_holds(headers, name, piece) {
        let t = choose|t: Seq<char>| #[trigger]
            connect_laws::says(headers, name, Some(t)) && holds_piece(t, piece);
        assert(value == Some(t));
    }
}

/// What an upgrade asks for: what its key and its extensions say, and of the
/// subprotocols the first.
pub proof fn law_upgrades_ask(
    headers: Seq<(Seq<char>, Seq<u8>)>,
    offered: Seq<char>,
    left: Seq<char>,
    first: Seq<char>,
    right: Seq<char>,
    rest: Seq<char>,
)
    requires
        forall|i: int| 0 <= i < left.len() ==> strings::is_space(#[trigger] left[i]),
        forall|i: int| 0 <= i < right.len() ==> strings::is_space(#[trigger] right[i]),
        first.len() > 0 ==> !strings::is_space(first[0]) && !strings::is_space(first.last()),
        !first.contains(','),
        offered == left + first + right || offered == left + first + right + seq![','] + rest,
    ensures
        !connect_laws::says(headers, "sec-websocket-key"@, None) ==> connect_laws::says(
            headers,
            "sec-websocket-key"@,
            Some(axum_integration::upgrade_asked(headers).key),
        ),
        connect_laws::says(
            headers,
            "sec-websocket-extensions"@,
            axum_integration::upgrade_asked(headers).extensions,
        ),
        connect_laws::says(headers, "sec-websocket-protocol"@, None)
            ==> axum_integration::upgrade_asked(headers).protocol is None,
        connect_laws::says(headers, "sec-websocket-protocol"@, Some(offered))
            ==> axum_integration::upgrade_asked(headers).protocol == Some(first),
{
    lemma_field(headers, "sec-websocket-key"@, first);
    lemma_field(headers, "sec-websocket-extensions"@, first);
    lemma_field(headers, "sec-websocket-protocol"@, first);
    let whole = left + first + right;
    connect_laws::law_lists_are_split_at_commas(Seq::empty(), rest, left, first, right);
    assert(!whole.contains(',')) by {
        if whole.contains(',') {
            let i = choose|i: int| 0 <= i < whole.len() && whole[i] == ',';
            if i < left.len() {
                assert(left[i] == ',');
            } else if i < left.len() + first.len() {
                assert(first[i - left.len()] == ',');
                assert(first.contains(','));
            } else {
                assert(right[i - left.len() - first.len()] == ',');
            }
        }
    }
    text_laws::law_splitting_concatenates(whole, ',', rest);
    text_laws::law_trimming_takes_whitespace_off(left, first, right);
    assert(strings::split_on(whole, ',')[0] == whole);
    assert(strings::split_on(whole + seq![','] + rest, ',')[0] == whole);
}

/// The fields with which an upgrade is answered: the proof of the key, the
/// subprotocol where one was asked for, and the extension where compression is
/// settled.
pub proof fn law_upgrade_answers(asked: UpgradeView, c: Config)
    ensures
        ({
            let h = axum_integration::upgrade_headers(asked, c);
            let settled = axum_integration::settled(asked.extensions, c);
            let n = if asked.protocol is Some {
                4int
            } else {
                3int
            };
            &&& h[0] == ("upgrade"@, "websocket"@)
            &&& h[1] == ("connection"@, "Upgrade"@)
            &&& h[2] == (
                "sec-websocket-accept"@,
                handshake::base64_text(
                    handshake::sha1_digest(
                        encode_utf8(asked.key) + encode_utf8(
                            "258EAFA5-E914-47DA-95CA-C5AB0DC85B11"@,
                        ),
                    ),
                ),
            )
            &&& asked.protocol is Some ==> h[3] == ("sec-websocket-protocol"@, asked.protocol->0)
            &&& settled is None ==> h.len() == n
            &&& settled matches Some(s) ==> h.len() == n + 1 && h[n] == (
                "sec-websocket-extensions"@,
                deflate::header_text(s.config, s.server_limit, s.client_limit),
            )
        }),
        c.deflate is Some && asked.extensions is Some ==> axum_integration::settled(
            asked.extensions,
            c,
        ) == deflate::negotiated(asked.extensions->0, c.deflate->0),
        c.deflate is None && c.compression is Disabled ==> axum_integration::settled(
            asked.extensions,
            c,
        ) is None,
        c.deflate is None && !(c.compression is Disabled) && asked.extensions is Some
            ==> axum_integration::settled(asked.extensions, c) == deflate::negotiated(
            asked.extensions->0,
            config::mode_config(c.compression)->0,
        ),
{
}

// ---------------------------------------------------------------------------
// Compression modes and contexts
// ---------------------------------------------------------------------------

/// The bits of a mode's window.
pub open spec fn window_bits(mode: Compression) -> int {
    match mode {
        Compression::Disabled => 0,
        Compression::Window256B => 9,
        Compression::Window1KB => 10,
        Compression::Window2KB => 11,
        Compression::Window4KB => 12,
        Compression::Window8KB => 13,
        Compression::Window16KB => 14,
        Compression::Window32KB => 15,
        Compression::Dedicated => 15,
        Compression::Shared => 15,
    }
}

/// A mode sets both sides alike: a window of as many bytes as it names, though
/// none of fewer than 512; small windows and a shared compressor forget each
/// message. Larger windows compress shorter messages, and harder.
pub proof fn law_modes(mode: Compression, other: Compression)
    ensures
        config::mode_config(mode) is None <==> mode is Disabled,
        config::mode_config(mode) matches Some(c) ==> {
            &&& deflate::bits_of(c.server_max_window_bits) == window_bits(mode)
            &&& c.client_max_window_bits == c.server_max_window_bits
            &&& c.server_no_context_takeover == c.client_no_context_takeover
            &&& mode is Shared ==> c.server_no_context_takeover
            &&& mode is Dedicated ==> !c.server_no_context_takeover
            &&& !(mode is Shared) && !(mode is Dedicated) ==> (c.server_no_context_takeover
                <==> window_bits(mode) < 12)
            &&& c.compression_level <= 9
            &&& 16 <= c.compression_threshold <= 128
        },
        !(mode is Disabled) && !(other is Disabled) && window_bits(mode) <= window_bits(other) ==> {
            let c = config::mode_config(mode)->0;
            let d = config::mode_config(other)->0;
            &&& c.compression_level <= d.compression_level
            &&& window_bits(mode) < window_bits(other) ==> c.compression_threshold
                >= d.compression_threshold
        },
{
}

/// A new encoder has the window and the habits of its own side of the
/// configuration, and the decoder at the other end is made for it.
pub proof fn law_contexts(c: DeflateConfig)
    ensures
        ({
            let s = deflate_stream::server_encoder(c);
            let k = deflate_stream::client_encoder(c);
            &&& s.window == deflate::bits_of(c.server_max_window_bits)
            &&& s.no_context_takeover == c.server_no_context_takeover
            &&& k.window == deflate::bits_of(c.client_max_window_bits)
            &&& k.no_context_takeover == c.client_no_context_takeover
            &&& s.level == c.compression_level && k.level == c.compression_level
            &&& s.threshold == c.compression_threshold && k.threshold == c.compression_threshold
            &&& s.fed.len() == 0 && s.made.len() == 0 && k.fed.len() == 0 && k.made.len() == 0
            &&& deflate_stream::decoder_for(s).window == s.window
            &&& deflate_stream::decoder_for(s).no_context_takeover == s.no_context_takeover
            &&& deflate_stream::decoder_for(s).fed.len() == 0
            &&& deflate_stream::decoder_for(s).made.len() == 0
        }),
{
}

/// An encoder leaves a message alone where it is empty or shorter than the
/// threshold, and then sends it as it is and remembers nothing of it. What is
/// sent compressed is shorter than the message, and a message that is not
/// shortened is sent as it is.
pub proof fn law_short_messages_are_left_alone(
    before: deflate_stream::EncoderView,
    data: Seq<u8>,
    after: deflate_stream::EncoderView,
    r: core::result::Result<Option<Seq<u8>>, Error>,
)
    requires
        deflate_stream::compressed(before, data, after, r),
    ensures
        data.len() == 0 || data.len() < before.threshold ==> r is Ok && r->Ok_0 is None && after
            == before,
        r matches Ok(Some(small)) ==> small.len() < data.len(),
        r matches Ok(None) && data.len() > 0 && data.len() >= before.threshold ==> after.fed.len()
            == 0 && after.made.len() == 0,
        r is Ok ==> after.window == before.window && after.no_context_takeover
            == before.no_context_takeover && after.level == before.level && after.threshold
            == before.threshold,
{
}

/// The end that is taken off each message and put back before it is read.
pub proof fn law_trailer(bytes: Seq<u8>)
    ensures
        codec::trailer() == seq![0u8, 0u8, 255u8, 255u8],
        deflate_stream::stripped(bytes + seq![0u8, 0u8, 255u8, 255u8]) == bytes,
        bytes.len() < 4 ==> deflate_stream::stripped(bytes) == bytes,
{
    let t = seq![0u8, 0u8, 255u8, 255u8];
    assert(codec::trailer() =~= t);
    let w = bytes + t;
    assert(w.skip(w.len() - 4) =~= t);
    assert(w.take(w.len() - 4) =~= bytes);
}

/// A pool has four encoders for each window that its sides use; they take
/// turns, and forget each message.
pub proof fn law_pools_take_turns(
    config: DeflateConfig,
    before: RingView,
    data: Seq<u8>,
    after: RingView,
    r: core::result::Result<Option<Seq<u8>>, Error>,
)
    ensures
        ({
            let p = compression::new_pool(config);
            &&& p.server.encoders.len() == 4
            &&& forall|i: int|
                0 <= i < 4 ==> (#[trigger] p.server.encoders[i]).window == deflate::bits_of(
                    config.server_max_window_bits,
                ) && p.server.encoders[i].no_context_takeover
            &&& config.server_max_window_bits == config.client_max_window_bits <==> p.client is None
            &&& p.client matches Some(ring) ==> ring.encoders.len() == 4 && forall|i: int|
                0 <= i < 4 ==> (#[trigger] ring.encoders[i]).window == deflate::bits_of(
                    config.client_max_window_bits,
                ) && ring.encoders[i].no_context_takeover
            &&& p.ring(true) == p.server
            &&& p.client matches Some(ring) ==> p.ring(false) == ring
            &&& p.client is None ==> p.ring(false) == p.server
        }),
        before.next < usize::MAX && compression::ring_compressed(before, data, after, r) ==> {
            &&& after.turn() == (before.turn() + 1) % 4
            &&& deflate_stream::compressed(
                before.encoders[before.turn()],
                data,
                after.encoders[before.turn()],
                r,
            )
        },
{
}

// ---------------------------------------------------------------------------
// HTTP/2 and HTTP/3
// ---------------------------------------------------------------------------

/// A reader gets as many of the received bytes as it has room for, from the
/// front, and the others stay.
pub proof fn law_readers_get_what_fits(bytes: Seq<u8>, room: nat)
    ensures
        ({
            let (given, left) = http2::cut(bytes, room);
            &&& bytes.len() <= room ==> given == bytes && left.len() == 0
            &&& bytes.len() > room ==> given.len() == room
            &&& given + left == bytes
        }),
{
    let (given, left) = http2::cut(bytes, room);
    assert(given + left =~= bytes);
    if bytes.len() <= room {
        assert(given =~= bytes);
    }
}

/// An endpoint can be made of a configuration exactly where it does not ask for
/// early data, its idle timeout and its window fit into the 62 bits that QUIC
/// has for them, and its UDP payload is of a size that QUIC allows.
pub proof fn law_endpoints(c: Http3Config)
    ensures
        http3::config_error(c) is None <==> !c.enable_0rtt,
        http3::transport_error(c) is None <==> !c.enable_0rtt && c.max_idle_timeout_ms
            < 0x4000_0000_0000_0000 && c.initial_stream_window_size < 0x4000_0000_0000_0000,
        http3::endpoint_error(c) is None <==> !c.enable_0rtt && c.max_idle_timeout_ms
            < 0x4000_0000_0000_0000 && c.initial_stream_window_size < 0x4000_0000_0000_0000 && 1200
            <= c.max_udp_payload_size && c.max_udp_payload_size <= 65527,
        http3::endpoint_settings(c).transport.max_idle_timeout_ms == c.max_idle_timeout_ms,
        http3::endpoint_settings(c).transport.stream_receive_window == c.initial_stream_window_size,
        http3::endpoint_settings(c).max_udp_payload_size == c.max_udp_payload_size,
{
}

/// What a caller of the send side is told: with nothing under way bytes are
/// accepted, a flush is done and a shutdown begins; with something under way
/// every caller waits for it; once finished, only a write fails.
pub proof fn law_send_side(phase: SendPhase, call: SendCall, ok: bool)
    ensures
        phase is Ready && call is Write ==> http3::called(phase, call) == (
            SendPhase::Writing,
            SendStep::Accept,
        ),
        phase is Ready && call is Flush ==> http3::called(phase, call) == (phase, SendStep::Done),
        phase is Ready && call is Shutdown ==> http3::called(phase, call) == (
            SendPhase::Finishing,
            SendStep::Finish,
        ),
        phase is Writing || phase is Finishing ==> http3::called(phase, call) == (
            phase,
            SendStep::Poll,
        ),
        phase is Finished ==> http3::called(phase, call) == (
            phase,
            if call is Write {
                SendStep::Broken
            } else {
                SendStep::Done
            },
        ),
        (phase is Writing || phase is Finishing) && !ok ==> http3::completed(phase, call, ok) == (
            SendPhase::Ready,
            SendStep::Fail,
        ),
        phase is Writing && ok ==> http3::completed(phase, call, ok).0 is Ready,
        phase is Writing && ok && call is Flush ==> http3::completed(phase, call, ok).1 is Done,
        phase is Writing && ok && !(call is Flush) ==> http3::completed(phase, call, ok).1 is Again,
        phase is Finishing && ok ==> http3::completed(phase, call, ok).0 is Finished,
        phase is Finishing && ok && call is Write ==> http3::completed(phase, call, ok).1 is Broken,
        phase is Finishing && ok && !(call is Write) ==> http3::completed(phase, call, ok).1 is Done,
{
}

/// A write that its caller abandons stops the stream, once; until then and
/// after its end the stream goes on.
pub proof fn law_abandoned_writes(w: DataWrite, e: WriteEvent)
    ensures
        http3::write_event(w, e).1 is StopStream <==> w is Pending && e is Drop,
        http3::write_event(w, e).1 is Refuse <==> w is Cancelled && (e is Use || e is Begin),
        http3::write_event(w, e).0 is Cancelled <==> w is Cancelled || (w is Pending && e is Drop),
        !(w is Cancelled) && e is Begin ==> http3::write_event(w, e).0 is Pending,
        !(w is Cancelled) && e is End ==> http3::write_event(w, e).0 is Idle,
        !(w is Cancelled) && e is Use ==> http3::write_event(w, e).0 == w,
        w is Idle && e is Drop ==> http3::write_event(w, e).0 is Idle,
{
}

// ---------------------------------------------------------------------------
// Errors
// ---------------------------------------------------------------------------

/// The connection cannot go on after its own end, a broken protocol, and data
/// that is not valid or too large.
pub proof fn law_fatal_errors(e: Error)
    ensures
        error::fatal(e) <==> (error::kind_of(e) is Connection && !(e is Closed)) || e is Protocol
            || e is InvalidUtf8 || e is InvalidCloseCode || e is FrameTooLarge
            || e is MessageTooLarge,
        error::kind_of(e) is Io || error::kind_of(e) is Transport || error::kind_of(e) is Handshake
            || error::kind_of(e) is Compression ==> !error::fatal(e),
{
}

/// The HTTP status of an error: 413 where something is too large, 503 where
/// there is no room now, 501 where the protocol is missing, 400 where the peer
/// is wrong, and 500 else.
pub proof fn law_statuses_of_errors(e: Error)
    ensures
        error::http_status_of(e) == 413 <==> error::kind_of(e) is Capacity && !(e is BufferFull),
        error::http_status_of(e) == 503 <==> e is BufferFull,
        error::http_status_of(e) == 501 <==> e is ExtendedConnectNotSupported,
        error::http_status_of(e) == 400 <==> error::kind_of(e) is Validation || e is Protocol
            || e is InvalidHttp || e is HandshakeFailed,
        error::http_status_of(e) == 500 <==> error::kind_of(e) is Io || error::kind_of(
            e,
        ) is Transport || error::kind_of(e) is Compression || error::kind_of(e) is Connection
            || e is InvalidState,
{
}

/// What a failure of the transport means: a blocked one can be tried again, a
/// reset and an end are told apart, and all else stays what it is.
pub proof fn law_transport_failures(io: IoError)
    ensures
        error::error_of_io(io) is WouldBlock <==> io.kind is WouldBlock,
        error::error_of_io(io) is ConnectionReset <==> io.kind is ConnectionReset,
        error::error_of_io(io) is ConnectionClosed <==> io.kind is BrokenPipe
            || io.kind is UnexpectedEof,
        !(io.kind is WouldBlock) && !(io.kind is ConnectionReset) && !(io.kind is BrokenPipe)
            && !(io.kind is UnexpectedEof) ==> error::error_of_io(io) == Error::Io(io),
{
}

// ---------------------------------------------------------------------------
// The kernel's version
// ---------------------------------------------------------------------------

/// A kernel is recommended from version 5.10 on.
pub proof fn law_recommended_kernels(major: u32, minor: u32, patch: u32)
    ensures
        io_uring::recommended(Some((major, minor, patch))) <==> major >= 6 || (major == 5 && minor
            >= 10),
        !io_uring::recommended(None),
{
}

/// A text without whitespace.
pub open spec fn no_space(s: Seq<char>) -> bool {
    forall|i: int| 0 <= i < s.len() ==> !strings::is_space(#[trigger] s[i])
}

proof fn lemma_word(s: Seq<char>, rest: Seq<char>)
    requires
        no_space(s),
        rest.len() > 0 ==> strings::is_space(rest[0]),
    ensures
        io_uring::word_len(s + rest) == s.len(),
        (s + rest).take(s.len() as int) == s,
        (s + rest).skip(s.len() as int) == rest,
    decreases s.len(),
{
    let t = s + rest;
    if s.len() > 0 {
        assert(t[0] == s[0]);
        assert(t.drop_first() =~= s.drop_first() + rest);
        assert forall|i: int| 0 <= i < s.drop_first().len() implies !strings::is_space(
            #[trigger] s.drop_first()[i],
        ) by {
            assert(s.drop_first()[i] == s[i + 1]);
        }
        lemma_word(s.drop_first(), rest);
    } else {
        assert(t =~= rest);
    }
    assert(t.take(s.len() as int) =~= s);
    assert(t.skip(s.len() as int) =~= rest);
}

proof fn lemma_digits(d: Seq<char>, rest: Seq<char>)
    requires
        forall|i: int| 0 <= i < d.len() ==> '0' <= #[trigger] d[i] <= '9',
        rest.len() > 0 ==> !('0' <= rest[0] <= '9'),
    ensures
        io_uring::leading_digits(d + rest) == d,
    decreases d.len(),
{
    lemma_digits_len(d, rest);
    assert((d + rest).take(d.len() as int) =~= d);
}

proof fn lemma_digits_len(d: Seq<char>, rest: Seq<char>)
    requires
        forall|i: int| 0 <= i < d.len() ==> '0' <= #[trigger] d[i] <= '9',
        rest.len() > 0 ==> !('0' <= rest[0] <= '9'),
    ensures
        io_uring::digits_len(d + rest) == d.len(),
    decreases d.len(),
{
    let t = d + rest;
    if d.len() > 0 {
        assert(t[0] == d[0]);
        assert(t.drop_first() =~= d.drop_first() + rest);
        assert forall|i: int| 0 <= i < d.drop_first().len() implies '0'
            <= #[trigger] d.drop_first()[i] <= '9' by {
            assert(d.drop_first()[i] == d[i + 1]);
        }
        lemma_digits_len(d.drop_first(), rest);
    } else {
        assert(t =~= rest);
    }
}

/// The version is the third word of the line: three numbers with dots between
/// them, and what is behind the last number does not count.
pub proof fn law_kernel_versions(
    first: Seq<char>,
    second: Seq<char>,
    major: u32,
    minor: u32,
    patch: u32,
    suffix: Seq<char>,
    rest: Seq<char>,
)
    requires
        no_space(first),
        no_space(second),
        no_space(suffix),
        first.len() > 0,
        second.len() > 0,
        !suffix.contains('.'),
        suffix.len() > 0 ==> !('0' <= suffix[0] <= '9'),
        rest.len() > 0 ==> strings::is_space(rest[0]),
    ensures
        io_uring::version_of(
            first + seq![' '] + second + seq![' '] + (text::decimal(major as nat) + seq!['.']
                + text::decimal(minor as nat) + seq!['.'] + (text::decimal(patch as nat) + suffix))
                + rest,
        ) == Some((major, minor, patch)),
{
    let a = text::decimal(major as nat);
    let b = text::decimal(minor as nat);
    let c = text::decimal(patch as nat);
    url_laws::law_decimal_digits_read_back(major as nat);
    url_laws::law_decimal_digits_read_back(minor as nat);
    url_laws::law_decimal_digits_read_back(patch as nat);
    url_laws::law_numbers_are_read(major as nat, u32::MAX as nat, a);
    url_laws::law_numbers_are_read(minor as nat, u32::MAX as nat, b);
    url_laws::law_numbers_are_read(patch as nat, u32::MAX as nat, c);
    let tail = c + suffix;
    let word = a + seq!['.'] + b + seq!['.'] + tail;
    let line = first + seq![' '] + second + seq![' '] + word + rest;
    assert(!tail.contains('.')) by {
        if tail.contains('.') {
            let i = choose|i: int| 0 <= i < tail.len() && tail[i] == '.';
            if i < c.len() {
                assert('0' <= c[i] <= '9');
            } else {
                assert(suffix[i - c.len()] == '.');
                assert(suffix.contains('.'));
            }
        }
    }
    assert(!a.contains('.')) by {
        if a.contains('.') {
            let i = choose|i: int| 0 <= i < a.len() && a[i] == '.';
            assert('0' <= a[i] <= '9');
        }
    }
    assert(!b.contains('.')) by {
        if b.contains('.') {
            let i = choose|i: int| 0 <= i < b.len() && b[i] == '.';
            assert('0' <= b[i] <= '9');
        }
    }
    assert(word =~= a + seq!['.'] + (b + seq!['.'] + tail));
    text_laws::law_splitting_concatenates(a, '.', b + seq!['.'] + tail);
    text_laws::law_splitting_concatenates(b, '.', tail);
    text_laws::law_splitting_concatenates(tail, '.', tail);
    let parts = strings::split_on(word, '.');
    assert(parts =~= seq![a, b, tail]);
    lemma_digits(b, Seq::empty());
    assert(b + Seq::<char>::empty() =~= b);
    lemma_digits(c, suffix);
    assert(no_space(word)) by {
        assert forall|i: int| 0 <= i < word.len() implies !strings::is_space(
            #[trigger] word[i],
        ) by {
            if i < a.len() {
                assert('0' <= a[i] <= '9');
                assert(word[i] == a[i]);
            } else if i > a.len() && i < a.len() + 1 + b.len() {
                assert('0' <= b[i - a.len() - 1] <= '9');
                assert(word[i] == b[i - a.len() - 1]);
            } else if i > a.len() + 1 + b.len() {
                let k = i - a.len() - 2 - b.len();
                assert(word[i] == tail[k]);
                if k < c.len() {
                    assert('0' <= c[k] <= '9');
                } else {
                    assert(tail[k] == suffix[k - c.len()]);
                }
            }
        }
    }
    lemma_third_word(first, second, word, rest);
    assert(line =~= first + seq![' '] + (second + seq![' '] + (word + rest)));
}

proof fn lemma_third_word(first: Seq<char>, second: Seq<char>, word: Seq<char>, rest: Seq<char>)
    requires
        no_space(first),
        no_space(second),
        no_space(word),
        first.len() > 0,
        second.len() > 0,
        word.len() > 0,
        rest.len() > 0 ==> strings::is_space(rest[0]),
    ensures
        io_uring::nth_word(first + seq![' '] + (second + seq![' '] + (word + rest)), 2) == Some(
            word,
        ),
{
    let last = word + rest;
    let mid = second + seq![' '] + last;
    let line = first + seq![' '] + mid;
    assert(line =~= first + (seq![' '] + mid));
    assert(mid =~= second + (seq![' '] + last));
    assert(line[0] == first[0] && !strings::is_space(first[0]));
    assert(mid[0] == second[0] && !strings::is_space(second[0]));
    assert(last[0] == word[0] && !strings::is_space(word[0]));
    lemma_word(first, seq![' '] + mid);
    lemma_word(second, seq![' '] + last);
    lemma_word(word, rest);
    let f = |c: char| strings::is_space(c);
    assert(strings::trim_front(line, f) == line);
    let behind = seq![' '] + mid;
    assert(behind.drop_first() =~= mid);
    assert(strings::is_space(behind[0]));
    assert(strings::trim_front(mid, f) == mid);
    assert(strings::trim_front(behind, f) == mid);
    let behind_second = seq![' '] + last;
    assert(behind_second.drop_first() =~= last);
    assert(strings::is_space(behind_second[0]));
    assert(strings::trim_front(last, f) == last);
    assert(strings::trim_front(behind_second, f) == last);
    assert(io_uring::nth_word(behind_second, 0) == Some(word));
    assert(io_uring::nth_word(behind, 1) == io_uring::nth_word(behind_second, 0));
    assert(io_uring::nth_word(line, 2) == io_uring::nth_word(behind, 1));
}

// ---------------------------------------------------------------------------
// Benchmarks
// ---------------------------------------------------------------------------

/// What is counted of messages is what is counted of the first and of the
/// others, up to a Close: a data message counts as one with its bytes, and
/// control messages do not count.
pub proof fn law_counts_add_up(msg: MessageView, messages: Seq<MessageView>)
    ensures
        ({
            let (n, bytes) = bench::counted(messages);
            let (m, more) = bench::counted(seq![msg] + messages);
            &&& msg is Close ==> m == 0 && more == 0
            &&& msg is Ping || msg is Pong ==> m == n && more == bytes
            &&& msg matches MessageView::Text(b) ==> m == n + 1 && more == bytes + b.len()
            &&& msg matches MessageView::Binary(b) ==> m == n + 1 && more == bytes + b.len()
        }),
        bench::counted(Seq::empty()) == (0nat, 0nat),
{
    assert((seq![msg] + messages).drop_first() =~= messages);
    assert((seq![msg] + messages)[0] == msg);
}

/// A batch is its message over and over.
pub proof fn law_batches_repeat(s: Seq<u8>, n: nat, i: int)
    requires
        0 <= i < n * s.len(),
        s.len() > 0,
    ensures
        bench::repeated(s, n).len() == n * s.len(),
        bench::repeated(s, n)[i] == s[i % s.len() as int],
    decreases n,
{
    lemma_repeated_len(s, n);
    if n == 0 {
        assert(n * s.len() == 0) by (nonlinear_arith)
            requires
                n == 0,
        ;
    } else {
        let m: nat = (n - 1) as nat;
        let before = bench::repeated(s, m);
        lemma_repeated_len(s, m);
        assert(n * s.len() == m * s.len() + s.len()) by (nonlinear_arith)
            requires
                n == m + 1,
        ;
        if i < m * s.len() {
            law_batches_repeat(s, m, i);
        } else {
            let k = i - m * s.len();
            assert(bench::repeated(s, n)[i] == s[k]);
            vstd::arithmetic::div_mod::lemma_mod_multiples_vanish(m as int, k, s.len() as int);
            vstd::arithmetic::div_mod::lemma_small_mod(k as nat, s.len());
            assert(s.len() * m + k == i) by (nonlinear_arith)
                requires
                    k == i - m * s.len(),
            ;
        }
    }
}

proof fn lemma_repeated_len(s: Seq<u8>, n: nat)
    ensures
        bench::repeated(s, n).len() == n * s.len(),
    decreases n,
{
    if n == 0 {
        assert(n * s.len() == 0) by (nonlinear_arith)
            requires
                n == 0,
        ;
    } else {
        let m: nat = (n - 1) as nat;
        lemma_repeated_len(s, m);
        assert(n * s.len() == m * s.len() + s.len()) by (nonlinear_arith)
            requires
                n == m + 1,
        ;
    }
}

/// From which length each mode compresses, and how hard.
pub proof fn law_thresholds_and_levels(mode: Compression)
    ensures
        config::mode_config(mode) matches Some(c) ==> {
            let n = c.compression_threshold;
            let level = c.compression_level;
            &&& mode is Window256B ==> n == 128 && level == 1
            &&& mode is Window1KB ==> n == 64 && level == 1
            &&& mode is Window2KB ==> n == 48 && level == 3
            &&& mode is Window4KB ==> n == 40 && level == 3
            &&& mode is Window8KB ==> n == 32 && level == 5
            &&& mode is Window16KB ==> n == 24 && level == 5
            &&& mode is Window32KB ==> n == 24 && level == 6
            &&& mode is Dedicated || mode is Shared ==> n == 16 && level == 6
        },
{
}

/// A decompressed message keeps within the limit, and is what the stream makes
/// beyond what it has made before. A decoder without context begins each message
/// as if there had been none, and keeps its habits.
pub proof fn law_decompressed_messages(
    before: deflate_stream::DecoderView,
    data: Seq<u8>,
    max: nat,
    after: deflate_stream::DecoderView,
    r: core::result::Result<Seq<u8>, Error>,
)
    requires
        deflate_stream::decompressed(before, data, max, after, r),
    ensures
        after.no_context_takeover == before.no_context_takeover,
        r matches Ok(message) ==> message.len() <= max,
        !before.no_context_takeover ==> (r matches Ok(message) ==> after.made == before.made
            + message && after.window == before.window),
        before.no_context_takeover ==> (r matches Ok(message) ==> after.made == message),
        r matches Ok(message) ==> codec::inflated(
            15,
            (if before.no_context_takeover {
                data
            } else {
                before.fed + data
            }) + seq![0u8, 0u8, 255u8, 255u8],
        ) matches Some((text, _)) && text == after.made,
        r matches Err(e) ==> e is MessageTooLarge || e is Compression,
{
    law_trailer(data);
    assert(Seq::<u8>::empty() + data =~= data);
    if let Ok(message) = r {
        assert(Seq::<u8>::empty() + message =~= message);
    }
}

/// A reset forgets what was said and changes nothing else, but that a decoder
/// then takes any window.
pub proof fn law_resets(e: deflate_stream::EncoderView, d: deflate_stream::DecoderView)
    ensures
        e.cleared().fed.len() == 0,
        e.cleared().made.len() == 0,
        e.cleared().window == e.window,
        e.cleared().no_context_takeover == e.no_context_takeover,
        e.cleared().level == e.level,
        e.cleared().threshold == e.threshold,
        d.cleared().fed.len() == 0,
        d.cleared().made.len() == 0,
        d.cleared().window == 15,
        d.cleared().no_context_takeover == d.no_context_takeover,
{
}

/// A pool of encoders: all of them alike, made for the side and the window that
/// was asked for, and none of them remembers a message.
pub proof fn law_new_rings(c: DeflateConfig, w: deflate::DeflateWindowBits, i: int)
    ensures
        compression::new_ring(c, w).encoders.len() == 4,
        compression::new_ring(c, w).next == 0,
        0 <= i < 4 ==> {
            let e = compression::new_ring(c, w).encoders[i];
            &&& e.window == deflate::bits_of(w)
            &&& e.no_context_takeover
            &&& e.level == c.compression_level
            &&& e.threshold == c.compression_threshold
            &&& e.fed.len() == 0
            &&& e.made.len() == 0
        },
{
}

/// What a refused upgrade is told.
pub proof fn law_rejections_tell_why(r: WebSocketUpgradeRejection)
    ensures
        ({
            let t = axum_integration::rejection_text(r);
            &&& r is MethodNotGet ==> t == "Method must be GET"@
            &&& r is MissingUpgradeHeader ==> t == "Missing Upgrade header"@
            &&& r is InvalidUpgradeHeader ==> t == "Invalid Upgrade header"@
            &&& r is MissingConnectionHeader ==> t == "Missing Connection header"@
            &&& r is InvalidConnectionHeader ==> t == "Invalid Connection header"@
            &&& r is MissingSecWebSocketKey ==> t == "Missing Sec-WebSocket-Key"@
            &&& r is MissingSecWebSocketVersion ==> t == "Missing Sec-WebSocket-Version"@
            &&& r is UnsupportedVersion ==> t == "Unsupported WebSocket version"@
            &&& r is MissingUpgrade ==> t == "Missing upgrade in request extensions"@
        }),
{
}

/// An explicit configuration of compression goes before that of the mode.
pub proof fn law_explicit_compression_wins(c: Config)
    ensures
        c.deflate is Some ==> axum_integration::deflate_policy(c) == c.deflate,
        c.deflate is None ==> (axum_integration::deflate_policy(c) is None
            <==> c.compression is Disabled),
        c.deflate is None ==> axum_integration::deflate_policy(c) == config::mode_config(
            c.compression,
        ),
{
}

/// A numeric argument is read where it stands; one that is missing, or is no
/// number, leaves the default.
pub proof fn law_numeric_arguments(args: Seq<Seq<char>>, at: int, default: usize, n: nat)
    requires
        0 <= at,
    ensures
        at >= args.len() ==> bench::number_or(args, at, default) == default,
        at < args.len() && args[at] == text::decimal(n) && n <= usize::MAX ==> bench::number_or(
            args,
            at,
            default,
        ) == n,
        at < args.len() && args[at].len() == 0 ==> bench::number_or(args, at, default) == default,
{
    url_laws::law_numbers_are_read(n, usize::MAX as nat, text::decimal(n));
    url_laws::law_numbers_are_read(n, usize::MAX as nat, Seq::empty());
    if at < args.len() && args[at].len() == 0 {
        assert(args[at] =~= Seq::<char>::empty());
    }
}

/// How a measuring client takes the answer to its handshake: it waits for the
/// rest, reports a failure, and refuses an accept value that is not that of its
/// key; otherwise it goes on behind the answer.
pub proof fn law_handshake_progress(
    read: error::Result<Option<(handshake::ResponseView, nat)>>,
    key: Seq<char>,
)
    ensures
        ({
            let p = bench::progress(read, key);
            match read {
                Err(e) => p == Err::<Option<nat>, Option<Error>>(Some(e)),
                Ok(None) => p == Ok::<Option<nat>, Option<Error>>(None),
                Ok(Some((response, len))) => {
                    let wrong = response.accept is Some && response.accept
                        != Some(handshake::accept_key(key));
                    &&& wrong ==> p == Err::<Option<nat>, Option<Error>>(None)
                    &&& !wrong ==> p == Ok::<Option<nat>, Option<Error>>(Some(len))
                },
            }
        }),
{
}

} // verus!
