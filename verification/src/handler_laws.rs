//! What handlers and new connections promise, in terms of their own fields.
use crate::compressed_protocol;
use crate::compressed_protocol::{CompressedProtocol, PackedRun, PackedView};
use crate::config::Config;
use crate::deflate_stream;
use crate::deflate_stream::EncoderView;
use crate::error::{Error, Result};
use crate::frame;
use crate::frame::{Decoded, OpCode, ParserView};
use crate::framing::{FrameReader, FrameWriter};
use crate::protocol;
use crate::protocol::{MessageView, Protocol};
use crate::session;
use crate::session::SessionView;
use crate::session_laws;
use vstd::prelude::*;

verus! {

// ---------------------------------------------------------------------------
// Parsers
// ---------------------------------------------------------------------------

/// No byte is lost between a parser and its caller's buffer: what they hold
/// together is what came over the wire, without the frame that was complete. (A
/// parser that holds bytes has accepted the first two.)
pub proof fn law_parsers_lose_nothing(v: ParserView, buf: Seq<u8>)
    requires
        v.held.len() > 0 ==> v.held.len() >= 2 && frame::prefix_error(
            v.held[0],
            v.held[1],
            v.rules(),
        ) is None,
    ensures
        ({
            let w = v.wire(buf);
            let (after, left) = frame::parsed(v, buf);
            &&& after.wire(left) == match frame::decode(w, v.rules()) {
                Decoded::Complete { consumed, .. } => w.skip(consumed as int),
                _ => w,
            }
            &&& after.max_frame_size == v.max_frame_size
            &&& after.expect_masked == v.expect_masked
            &&& after.allow_rsv1 == v.allow_rsv1
        }),
{
    let w = v.wire(buf);
    let (after, left) = frame::parsed(v, buf);
    if frame::decode(w, v.rules()) is Complete {
        assert(after.wire(left) =~= left);
    } else if frame::header_ready(w, v.rules()) {
        let head = frame::head_len(w[1]) as int;
        let held = w.take(head);
        assert(held[1] == w[1]);
        assert(after.held == held);
        if let Some(key) = frame::mask_key(w) {
            assert(frame::mask_key(held) == Some(key)) by {
                let from = 2 + frame::length_width(w[1]) as int;
                assert(held.subrange(from, from + 4) =~= w.subrange(from, from + 4));
            }
            let back = frame::remasked(left, Some(key), after.ready);
            assert forall|i: int| 0 <= i < back.len() implies back[i] == w.skip(head)[i] by {
                let d = w.skip(head)[i];
                let k = key[i % 4];
                assert(left[i] == d ^ k);
                assert((d ^ k) ^ k == d) by (bit_vector);
            }
            assert(back =~= w.skip(head));
        } else {
            assert(frame::mask_key(held) is None);
            assert(frame::remasked(left, None, after.ready) =~= w.skip(head));
        }
        assert(after.wire(left) =~= w);
    } else {
        let k = frame::kept(v, w) as int;
        if v.held.len() > 0 {
            assert(w[0] == v.held[0] && w[1] == v.held[1]);
        }
        assert(0 <= k <= w.len());
        assert(frame::remasked(left, after.key(), 0) =~= left);
        assert(after.wire(left) =~= w);
    }
}

// ---------------------------------------------------------------------------
// Writing
// ---------------------------------------------------------------------------

/// A plain handler writes a message as one frame of its kind with its bytes,
/// and a Close that it sends first begins the closing handshake.
pub proof fn law_plain_handlers_write(
    p: Protocol,
    msg: MessageView,
    before: Seq<u8>,
    after: Protocol,
    out: Seq<u8>,
    r: Result<()>,
)
    requires
        p.has_written(msg, before, after, out, r),
    ensures
        r is Ok,
        msg matches MessageView::Text(b) ==> session_laws::frame_appended(
            p@.role,
            OpCode::Text,
            b,
            before,
            out,
        ),
        msg matches MessageView::Binary(b) ==> session_laws::frame_appended(
            p@.role,
            OpCode::Binary,
            b,
            before,
            out,
        ),
        msg matches MessageView::Ping(b) ==> session_laws::frame_appended(
            p@.role,
            OpCode::Ping,
            b,
            before,
            out,
        ),
        msg matches MessageView::Pong(b) ==> session_laws::frame_appended(
            p@.role,
            OpCode::Pong,
            b,
            before,
            out,
        ),
        msg matches MessageView::Close(reason) ==> session_laws::frame_appended(
            p@.role,
            OpCode::Close,
            frame::close_payload(reason),
            before,
            out,
        ),
        msg is Close && p@.state is Open ==> after@.state is CloseSent,
        !(msg is Close) || !(p@.state is Open) ==> after@.state == p@.state,
        after@.fragment == p@.fragment,
        after@.collected == p@.collected,
        after@.pending_close == p@.pending_close,
{
    let key = choose|key: Option<Seq<u8>>| #[trigger]
        protocol::key_for(p@.role, key) && out == before + protocol::message_bytes(msg, key);
    assert(out == before + frame::frame_bytes(
        protocol::message_opcode(msg),
        protocol::message_payload(msg),
        true,
        key,
        false,
    ));
}

/// The answer of a plain handler repeats the reason of the peer's Close.
pub proof fn law_plain_handlers_repeat_the_reason(
    p: Protocol,
    buf: Seq<u8>,
    reason: Option<(u16, Seq<char>)>,
    key: Option<Seq<u8>>,
    after: Protocol,
    left: Seq<u8>,
    messages: Seq<MessageView>,
    fragment: bool,
    r: Result<()>,
)
    requires
        p@.state is Open,
        p@.checked == 0,
        buf.len() > 0,
        reason matches Some((code, text)) ==> crate::error::valid_close_code(code),
        frame::close_payload(reason).len() <= 125,
        frame::close_payload(reason).len() <= p.frames().rules().max_frame_size,
        key is Some == p.frames().rules().expect_masked,
        key matches Some(k) ==> k.len() == 4,
        p.frames().wire(buf) == frame::frame_bytes(
            OpCode::Close,
            frame::close_payload(reason),
            true,
            key,
            false,
        ),
        p.has_read(buf, after, left, messages, fragment, r),
    ensures
        messages == seq![MessageView::Close(reason)],
        r is Ok,
        after.close_reason() == reason,
        after.endpoint() == p.endpoint(),
        after@.state is CloseReceived,
{
    let payload = frame::close_payload(reason);
    let w = p.frames().wire(buf);
    let rules = p.frames().rules();
    let next = p.next_rules();
    crate::laws::law_close_payload_round_trip(reason);
    frame::law_frame_round_trip(OpCode::Close, payload, true, key, false, rules, Seq::empty());
    assert(w + Seq::<u8>::empty() =~= w);
    assert(w.skip(w.len() as int) =~= Seq::<u8>::empty());
    let h = frame::written_header(OpCode::Close, payload.len(), true, key, false);
    let a = protocol::on_frame(p@, h, payload);
    let tail = protocol::run(a.0, Seq::empty(), next, next);
    assert(frame::decode(Seq::empty(), next) is Incomplete);
    assert(!frame::header_ready(Seq::empty(), next));
    assert(tail.model == a.0);
    assert(seq![MessageView::Close(reason)] + Seq::<MessageView>::empty() =~= seq![
        MessageView::Close(reason),
    ]);
}

/// The answer of a compressed handler repeats the reason of the peer's Close.
pub proof fn law_packed_handlers_repeat_the_reason(
    p: CompressedProtocol,
    buf: Seq<u8>,
    reason: Option<(u16, Seq<char>)>,
    key: Option<Seq<u8>>,
    after: CompressedProtocol,
    left: Seq<u8>,
    messages: Seq<MessageView>,
    fragment: bool,
    r: Result<()>,
)
    requires
        p.wf(),
        after.wf(),
        p@.closing matches Some((state, pending)) && state is Open,
        buf.len() > 0,
        reason matches Some((code, text)) ==> crate::error::valid_close_code(code),
        frame::close_payload(reason).len() <= 125,
        frame::close_payload(reason).len() <= p.receiver().rules().max_frame_size,
        key is Some == p.receiver().rules().expect_masked,
        key matches Some(k) ==> k.len() == 4,
        p.receiver().frames().wire(buf) == frame::frame_bytes(
            OpCode::Close,
            frame::close_payload(reason),
            true,
            key,
            false,
        ),
        p.has_read(buf, after, left, messages, fragment, r),
    ensures
        messages == seq![MessageView::Close(reason)],
        r is Ok,
        after.close_reason() == reason,
        after.endpoint() == p.endpoint(),
{
    p.lemma_receiver();
    after.lemma_receiver();
    let reader = p.receiver();
    let o = choose|o: PackedRun|
        {
            &&& #[trigger] reader.runs_on(buf, o)
            &&& o.model == after.receiver()@
            &&& o.rest == after.receiver().frames().wire(left)
            &&& o.messages == messages
            &&& o.result == r
            &&& fragment == (o.fragments > 0)
        };
    let payload = frame::close_payload(reason);
    let w = reader.frames().wire(buf);
    let rules = reader.rules();
    crate::laws::law_close_payload_round_trip(reason);
    frame::law_frame_round_trip(OpCode::Close, payload, true, key, false, rules, Seq::empty());
    assert(w + Seq::<u8>::empty() =~= w);
    assert(w.skip(w.len() as int) =~= Seq::<u8>::empty());
    let h = frame::written_header(OpCode::Close, payload.len(), true, key, false);
    let rest = w.skip(w.len() as int);
    let (mid, step) = choose|mid: PackedView, step: Result<Option<MessageView>>|
        {
            &&& #[trigger] compressed_protocol::frame_step(reader@, h, payload, mid, step)
            &&& match step {
                Err(e) => o == compressed_protocol::ending(mid, rest, Err(e)),
                Ok(m) => {
                    &&& rest.len() < w.len()
                    &&& compressed_protocol::runs(
                        mid,
                        rest,
                        rules,
                        compressed_protocol::remainder(m, o),
                    )
                    &&& o == compressed_protocol::preceded(m, compressed_protocol::remainder(m, o))
                },
            }
        };
    assert(step == Ok::<Option<MessageView>, Error>(Some(MessageView::Close(reason))));
    assert(frame::decode(rest, rules) is Incomplete);
    let tail = compressed_protocol::remainder(Some(MessageView::Close(reason)), o);
    assert(tail == compressed_protocol::ending(mid, rest, Ok(())));
    assert(messages =~= seq![MessageView::Close(reason)]);
}

/// What a compressed handler writes: a data message goes out as one frame, with
/// RSV1 and what the encoder made of it where that is shorter, and as it is
/// where it is not; control messages go out as they are, and the encoder does
/// not see them.
pub proof fn law_packed_handlers_write(
    encoder: EncoderView,
    msg: MessageView,
    key: Option<Seq<u8>>,
    before: Seq<u8>,
    encoder_after: EncoderView,
    after: Seq<u8>,
    r: Result<()>,
)
    requires
        compressed_protocol::writes(encoder, msg, key, before, encoder_after, after, r),
    ensures
        msg matches MessageView::Ping(b) ==> r is Ok && encoder_after == encoder && after == before
            + frame::frame_bytes(OpCode::Ping, b, true, key, false),
        msg matches MessageView::Pong(b) ==> r is Ok && encoder_after == encoder && after == before
            + frame::frame_bytes(OpCode::Pong, b, true, key, false),
        msg matches MessageView::Close(reason) ==> r is Ok && encoder_after == encoder && after
            == before + frame::frame_bytes(
            OpCode::Close,
            frame::close_payload(reason),
            true,
            key,
            false,
        ),
        msg matches MessageView::Text(b) ==> data_written(
            encoder,
            OpCode::Text,
            b,
            key,
            before,
            encoder_after,
            after,
            r,
        ),
        msg matches MessageView::Binary(b) ==> data_written(
            encoder,
            OpCode::Binary,
            b,
            key,
            before,
            encoder_after,
            after,
            r,
        ),
{
    if msg is Text || msg is Binary {
        let data = protocol::message_payload(msg);
        let packed = choose|packed: core::result::Result<Option<Seq<u8>>, Error>| #[trigger]
            deflate_stream::compressed(encoder, data, encoder_after, packed) && match packed {
                Err(e) => r == Err::<(), Error>(e) && after == before,
                Ok(small) => if crate::buffer::allocatable(
                    before.len() + compressed_protocol::packed_frame(msg, small, key).len(),
                ) {
                    r == Ok::<(), Error>(()) && after == before + compressed_protocol::packed_frame(
                        msg,
                        small,
                        key,
                    )
                } else {
                    r == Err::<(), Error>(Error::BufferFull) && after == before
                },
            };
        assert(deflate_stream::compressed(encoder, data, encoder_after, packed));
    }
}

/// Whether a data message was written as the encoder dealt with it.
pub open spec fn data_written(
    encoder: EncoderView,
    opcode: OpCode,
    data: Seq<u8>,
    key: Option<Seq<u8>>,
    before: Seq<u8>,
    encoder_after: EncoderView,
    after: Seq<u8>,
    r: Result<()>,
) -> bool {
    exists|packed: core::result::Result<Option<Seq<u8>>, Error>|
        {
            &&& #[trigger] deflate_stream::compressed(encoder, data, encoder_after, packed)
            &&& r is Err ==> after == before
            &&& r is Ok ==> packed is Ok
            &&& packed matches Err(e) ==> r == Err::<(), Error>(e)
            &&& packed matches Ok(Some(small)) ==> {
                ||| r is Ok && after == before + frame::frame_bytes(opcode, small, true, key, true)
                ||| r == Err::<(), Error>(Error::BufferFull)
            }
            &&& packed == Ok::<Option<Seq<u8>>, Error>(None) ==> {
                ||| r is Ok && after == before + frame::frame_bytes(opcode, data, true, key, false)
                ||| r == Err::<(), Error>(Error::BufferFull)
            }
        }
}

/// Sending changes nothing of what a compressed handler has received; a Close
/// that it sends first begins the closing handshake.
pub proof fn law_packed_handlers_after_sending(v: PackedView, msg: MessageView)
    ensures
        ({
            let after = compressed_protocol::after_sending(v, msg);
            &&& after.fragment == v.fragment
            &&& after.collected == v.collected
            &&& after.packed == v.packed
            &&& after.decoder == v.decoder
            &&& after.role == v.role
            &&& !(msg is Close) ==> after == v
            &&& v.closing is None ==> after.closing is None
            &&& v.closing matches Some((state, pending)) ==> after.closing matches Some((s, p)) && p
                == pending && (msg is Close && state is Open ==> s is CloseSent) && (!(msg is Close)
                || !(state is Open) ==> s == state)
        }),
{
}

// ---------------------------------------------------------------------------
// Connections
// ---------------------------------------------------------------------------

/// A connection begins open, with what was left over of the handshake as its
/// first input, nothing to write, and the times of its configuration.
pub proof fn law_connections_begin<C>(codec: C, config: Config, leftover: Seq<u8>)
    ensures
        ({
            let s = session::begun(codec, config, leftover);
            &&& s.codec == codec
            &&& s.config == config
            &&& s.read == leftover
            &&& s.write.len() == 0
            &&& s.state is Open
            &&& s.pending.len() == 0
            &&& s.error is None
            &&& s.closing_deadline is None
            &&& !s.batch_has_close
            &&& !s.post_expiry_read
            &&& !s.shutdown_complete
            &&& !s.immediate_shutdown
            &&& s.high_water_mark == 65536
            &&& s.low_water_mark == 16384
            &&& s.heartbeat.auto_ping <==> config.auto_ping && config.ping_interval > 0
            &&& s.heartbeat.ping_interval == config.ping_interval * 1000
            &&& s.heartbeat.idle_timeout == config.idle_timeout * 1000
            &&& s.heartbeat.pong_timeout == config.pong_timeout * 1000
            &&& s.heartbeat.outstanding is None
            &&& !s.heartbeat.stopped
        }),
{
}

/// What both halves of a connection know once it is split: it is open unless it
/// was closed or a Close was sent, and where its input has failed the
/// application can send nothing more.
pub proof fn law_split_connections<C>(s: SessionView<C>)
    ensures
        ({
            let shared = session::shared_of(s);
            &&& s.state is Closed || s.state is CloseSent ==> shared.status is Closed
            &&& (s.state is Open || s.state is ReadErrorPending) && s.error is None
                ==> shared.status is Open
            &&& (s.state is Open || s.state is ReadErrorPending) && s.error is Some
                ==> shared.status is Closing
            &&& shared.last_inbound_ms == 0
            &&& shared.tracks_inbound_activity <==> s.heartbeat.auto_ping || s.heartbeat.idle_timeout
                > 0
        }),
{
}

/// What becomes of a connection whose send half was to end with its Close: where
/// it has, that is noted; where it failed or took too long, the connection has
/// ended and the error tells so.
pub proof fn law_ended_with_close<C>(a: SessionView<C>, r: Option<Result<()>>)
    ensures
        ({
            let (b, result) = session::ended_with_close(a, r);
            &&& r matches Some(Ok(_)) ==> b.shutdown_complete && b.state == a.state && result is Ok
            &&& r matches Some(Err(e)) ==> b.state is Closed && result == Err::<(), Error>(e)
            &&& r is None ==> b.state is Closed && result == Err::<(), Error>(
                Error::ConnectionClosed,
            )
            &&& b.write == a.write
            &&& b.pending == a.pending
        }),
{
}

/// What becomes of a read: its end ends the stream, its error is reported and
/// ends it, and a read that took too long ends it as closed.
pub proof fn law_reads_end<C: FrameWriter>(
    a: SessionView<C>,
    event: session::ReadEvent,
    now: u64,
    nonce: u64,
    b: SessionView<C>,
    action: session::ActionView,
)
    requires
        session::read_ended(a, event, now, nonce, b, action),
    ensures
        event is TimedOut ==> b.state is Closed && action == session::ActionView::Fail(
            Error::ConnectionClosed,
        ),
        event matches session::ReadEvent::Done(r) ==> {
            &&& r matches Ok(n) ==> (n == 0 ==> action is End && b.state is Closed
                && b.heartbeat.stopped) && (n > 0 ==> action is Again && b == a)
            &&& r matches Err(e) ==> action == session::ActionView::Fail(e) && b.state is Closed
        },
        event matches session::ReadEvent::Deadline(d, read) ==> d.time() > now / 1_000_000 ==> {
            &&& read is None ==> action is Again && b == a
            &&& read matches Some(Ok(n)) ==> (n > 0 ==> action is Again && b == a) && (n == 0
                ==> action is End && b.state is Closed)
            &&& read matches Some(Err(e)) ==> action == session::ActionView::Fail(e)
                && b.state is Closed
        },
        b.write == a.write || event is Deadline,
{
}

/// Once the send half has ended, or did not in time, the connection is closed,
/// and what was to follow does: the message is handed on, or the error reported.
pub proof fn law_send_half_ends<C>(
    a: SessionView<C>,
    after: session::AfterFinishView,
    complete: bool,
)
    ensures
        ({
            let (b, action) = session::send_half_ended(a, after, complete);
            &&& b.state is Closed
            &&& b.shutdown_complete == complete
            &&& after matches session::AfterFinishView::Deliver(msg) ==> action
                == session::ActionView::Deliver(msg)
            &&& after matches session::AfterFinishView::Fail(e) ==> action
                == session::ActionView::Fail(e)
            &&& b.write == a.write
            &&& b.read == a.read
        }),
{
}

} // verus!
