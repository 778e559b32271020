//! WebSocket protocol handlers with per-message compression (RFC 7692).
//!
//! A frame with RSV1 begins a compressed message. [`on_packed_frame`] says
//! what a received frame does, given what the decoder makes of the message
//! that it completes; [`runs`] says what may come of a stretch of received
//! bytes.
use crate::buffer;
use crate::buffer::BufferView;
use crate::deflate::{DeflateConfig, DeflateDecoder, DeflateEncoder};
use crate::deflate_stream;
use crate::deflate_stream::{DecoderView, EncoderView};
use crate::error::{CloseReason, Error, Result};
use crate::frame;
use crate::frame::{encode_frame, encode_frame_with_rsv, Frame, FrameParser, FrameRules};
use crate::frame::{HeaderView, OpCode};
use crate::protocol;
use crate::protocol::{next_mask, parse_close_payload, write_message, Message, MessageView};
use crate::protocol::{Role, State};
use crate::utf8;
use crate::utf8::{validate_utf8, Utf8Stream};
use crate::{MEDIUM_MESSAGE_THRESHOLD, SMALL_MESSAGE_THRESHOLD};
use bytes::{Bytes, BytesMut};
use vstd::prelude::*;
use vstd::utf8::*;

verus! {

/// What a compressed handler knows, apart from the bytes of an incomplete frame.
#[verifier::ext_equal]
pub struct PackedView {
    /// Endpoint role.
    pub role: Role,
    /// Where the closing handshake stands and the reason that the peer gave,
    /// for a handler that follows the handshake.
    pub closing: Option<(State, Option<(u16, Seq<char>)>)>,
    /// The kind of the fragmented message being received, if there is one.
    pub fragment: Option<OpCode>,
    /// The payloads of its fragments so far.
    pub collected: Seq<u8>,
    /// Whether it is compressed.
    pub packed: bool,
    /// Largest message.
    pub max_message_size: nat,
    /// The decoder of compressed messages.
    pub decoder: DecoderView,
}

/// A received Close frame.
pub open spec fn on_packed_close(v: PackedView, payload: Seq<u8>) -> (
    PackedView,
    Result<Option<MessageView>>,
) {
    match protocol::close_reason_of(payload) {
        Err(e) => (v, Err(e)),
        Ok(reason) => (
            PackedView {
                closing: match v.closing {
                    Some((state, pending)) => Some(
                        (
                            protocol::after_close_received(state),
                            if state is Open {
                                reason
                            } else {
                                pending
                            },
                        ),
                    ),
                    None => None,
                },
                ..v
            },
            Ok(Some(MessageView::Close(reason))),
        ),
    }
}

/// A complete data message.
pub open spec fn packed_message(opcode: OpCode, data: Seq<u8>) -> Result<Option<MessageView>> {
    if opcode is Text {
        if valid_utf8(data) {
            Ok(Some(MessageView::Text(data)))
        } else {
            Err(Error::InvalidUtf8)
        }
    } else if opcode is Binary {
        Ok(Some(MessageView::Binary(data)))
    } else {
        Err(Error::Protocol("invalid fragment opcode"))
    }
}

/// The first frame of a fragmented message. A handler that follows the closing
/// handshake validates plain text from the first frame on.
pub open spec fn on_packed_first(v: PackedView, opcode: OpCode, rsv1: bool, payload: Seq<u8>) -> (
    PackedView,
    Result<Option<MessageView>>,
) {
    let begun = PackedView { packed: rsv1, ..v };
    if payload.len() > v.max_message_size {
        (begun, Err(Error::MessageTooLarge))
    } else if v.closing is Some && opcode is Text && !rsv1 && !utf8::utf8_prefix(payload) {
        (begun, Err(Error::InvalidUtf8))
    } else {
        (PackedView { fragment: Some(opcode), collected: payload, ..begun }, Ok(None))
    }
}

/// The compressed message that a frame completes, if it completes one.
pub open spec fn to_inflate(v: PackedView, h: HeaderView, payload: Seq<u8>) -> Option<Seq<u8>> {
    match h.opcode {
        OpCode::Text | OpCode::Binary => if v.fragment is None && h.fin && h.rsv1 {
            Some(payload)
        } else {
            None
        },
        OpCode::Continuation => if v.fragment is Some && h.fin && v.packed && v.collected.len()
            + payload.len() <= v.max_message_size {
            Some(v.collected + payload)
        } else {
            None
        },
        _ => None,
    }
}

/// What a received frame does, where `plain` is what the decoder makes of the
/// compressed message that the frame completes.
pub open spec fn on_packed_frame(
    v: PackedView,
    h: HeaderView,
    payload: Seq<u8>,
    plain: core::result::Result<Seq<u8>, Error>,
) -> (PackedView, Result<Option<MessageView>>) {
    match h.opcode {
        OpCode::Ping => (v, Ok(Some(MessageView::Ping(payload)))),
        OpCode::Pong => (v, Ok(Some(MessageView::Pong(payload)))),
        OpCode::Close => on_packed_close(v, payload),
        OpCode::Text | OpCode::Binary => if v.fragment is Some {
            (v, Err(Error::Protocol("expected continuation frame")))
        } else if !h.fin {
            on_packed_first(v, h.opcode, h.rsv1, payload)
        } else if !h.rsv1 {
            (
                v,
                if payload.len() > v.max_message_size {
                    Err(Error::MessageTooLarge)
                } else {
                    packed_message(h.opcode, payload)
                },
            )
        } else {
            (
                v,
                match plain {
                    Ok(data) => packed_message(h.opcode, data),
                    Err(e) => Err(e),
                },
            )
        },
        OpCode::Continuation => {
            let all = v.collected + payload;
            if v.fragment is None {
                (v, Err(Error::Protocol("unexpected continuation frame")))
            } else if all.len() > v.max_message_size {
                (v, Err(Error::MessageTooLarge))
            } else if !h.fin {
                (PackedView { collected: all, ..v }, Ok(None))
            } else {
                (
                    PackedView { fragment: None, collected: Seq::empty(), packed: false, ..v },
                    if !v.packed {
                        packed_message(v.fragment->0, all)
                    } else {
                        match plain {
                            Ok(data) => packed_message(v.fragment->0, data),
                            Err(e) => Err(e),
                        }
                    },
                )
            }
        },
    }
}

/// Whether a frame may lead from `v` to `after` with outcome `r`.
pub open spec fn frame_step(
    v: PackedView,
    h: HeaderView,
    payload: Seq<u8>,
    after: PackedView,
    r: Result<Option<MessageView>>,
) -> bool {
    if to_inflate(v, h, payload) is None {
        (after, r) == on_packed_frame(v, h, payload, Ok(Seq::empty()))
    } else {
        exists|plain: core::result::Result<Seq<u8>, Error>| #[trigger]
            inflated_step(v, h, payload, plain, after, r)
    }
}

/// Whether a frame may lead from `v` to `after` with outcome `r`, where the
/// decoder makes `plain` of the compressed message that the frame completes.
pub open spec fn inflated_step(
    v: PackedView,
    h: HeaderView,
    payload: Seq<u8>,
    plain: core::result::Result<Seq<u8>, Error>,
    after: PackedView,
    r: Result<Option<MessageView>>,
) -> bool {
    &&& deflate_stream::decompressed(
        v.decoder,
        to_inflate(v, h, payload)->0,
        v.max_message_size,
        after.decoder,
        plain,
    )
    &&& (PackedView { decoder: v.decoder, ..after }, r) == on_packed_frame(v, h, payload, plain)
}

/// What may come of a stretch of received bytes.
#[verifier::ext_equal]
pub struct PackedRun {
    /// What the handler knows afterwards.
    pub model: PackedView,
    /// The bytes on the wire that are not part of a complete frame.
    pub rest: Seq<u8>,
    /// The messages received, in order.
    pub messages: Seq<MessageView>,
    /// How many fragments were accepted that complete no message.
    pub fragments: nat,
    /// How the stretch ended.
    pub result: Result<()>,
}

/// The outcome `tail` with a message, or an accepted fragment, before it.
pub open spec fn preceded(msg: Option<MessageView>, tail: PackedRun) -> PackedRun {
    PackedRun {
        messages: protocol::optional(msg) + tail.messages,
        fragments: lone_fragments(msg) + tail.fragments,
        ..tail
    }
}

/// How many fragments that complete no message a frame with this outcome is.
pub open spec fn lone_fragments(msg: Option<MessageView>) -> nat {
    if msg is None {
        1
    } else {
        0
    }
}

/// What is left of the outcome `o` behind a message, or an accepted fragment.
pub open spec fn remainder(msg: Option<MessageView>, o: PackedRun) -> PackedRun {
    PackedRun {
        messages: o.messages.skip(protocol::optional(msg).len() as int),
        fragments: (o.fragments - lone_fragments(msg)) as nat,
        ..o
    }
}

/// Whether `o` may come of the bytes `w` from the start of a frame.
pub open spec fn runs(v: PackedView, w: Seq<u8>, rules: FrameRules, o: PackedRun) -> bool
    decreases w.len(),
{
    match frame::decode(w, rules) {
        frame::Decoded::Invalid(e) => o == ending(v, w, Err(e)),
        frame::Decoded::Incomplete => o == ending(v, w, Ok(())),
        frame::Decoded::Complete { header, payload, consumed } => {
            let rest = w.skip(consumed as int);
            exists|mid: PackedView, r: Result<Option<MessageView>>|
                {
                    &&& #[trigger] frame_step(v, header, payload, mid, r)
                    &&& match r {
                        Err(e) => o == ending(mid, rest, Err(e)),
                        Ok(msg) => {
                            &&& rest.len() < w.len()
                            &&& runs(mid, rest, rules, remainder(msg, o))
                            &&& o == preceded(msg, remainder(msg, o))
                        },
                    }
                }
        },
    }
}

/// The outcome of a stretch that ends here.
pub open spec fn ending(model: PackedView, rest: Seq<u8>, result: Result<()>) -> PackedRun {
    PackedRun { model, rest, messages: Seq::empty(), fragments: 0, result }
}

/// Reader half of a split compressed protocol
///
/// It takes Close frames as they come, without following the closing handshake.
pub struct CompressedReaderProtocol {
    role: Role,
    parser: FrameParser,
    fragment_buf: BytesMut,
    fragment_opcode: Option<OpCode>,
    max_message_size: usize,
    decoder: DeflateDecoder,
    fragment_compressed: bool,
    closing: Option<Closing>,
}

struct Closing {
    state: State,
    pending_close: Option<CloseReason>,
}

/// The outcome of a frame as a mathematical value.
pub open spec fn outcome(r: Result<Option<Message>>) -> Result<Option<MessageView>> {
    protocol::outcome_view(r)
}

impl CompressedReaderProtocol {
    /// What the handler knows, apart from the bytes of an incomplete frame.
    pub closed spec fn view(&self) -> PackedView {
        PackedView {
            role: self.role,
            closing: match self.closing {
                Some(c) => Some((c.state, protocol::reason_view(c.pending_close))),
                None => None,
            },
            fragment: self.fragment_opcode,
            collected: self.fragment_buf@,
            packed: self.fragment_compressed,
            max_message_size: self.max_message_size as nat,
            decoder: self.decoder@,
        }
    }

    /// The frame parser, which holds the header bytes of an incomplete frame.
    pub closed spec fn frames(&self) -> FrameParser {
        self.parser
    }

    /// The parts agree with each other.
    pub closed spec fn wf(&self) -> bool {
        self.parser.wf()
    }

    /// What the parser demands of frames: those of the peer may be compressed.
    pub open spec fn rules(&self) -> FrameRules {
        packed_rules(self.frames())
    }

    /// Whether `buf` can be the caller's buffer: it still holds the payload
    /// bytes that earlier calls left in it, and there is room to decompress
    /// everything received.
    pub open spec fn accepts(&self, buf: Seq<u8>) -> bool {
        &&& buf.len() > 0 ==> self.frames().ready() <= buf.len()
        &&& room_to_inflate(self@.collected.len() + buf.len())
    }

    /// Check if `len` bytes can be handed over, those left by earlier calls among them
    pub fn can_accept(&self, len: usize) -> (r: bool)
        ensures
            forall|buf: Seq<u8>| buf.len() == len ==> r == #[trigger] self.accepts(buf),
    {
        let limit: usize = (isize::MAX as usize - 1024) / 4;
        (len == 0 || self.parser.ready_len() <= len) && self.fragment_buf.len() <= limit && len
            <= limit - self.fragment_buf.len()
    }

    /// Whether `o` may come of the bytes in `buf`, after those received before.
    pub open spec fn runs_on(&self, buf: Seq<u8>, o: PackedRun) -> bool {
        if buf.len() == 0 {
            o == ending(self@, self.frames().wire(buf), Ok(()))
        } else {
            runs(self@, self.frames().wire(buf), self.rules(), o)
        }
    }
}

/// What a parser with compression demands of frames.
pub open spec fn packed_rules(frames: FrameParser) -> FrameRules {
    FrameRules {
        max_frame_size: frames.limits().0,
        expect_masked: frames.limits().1,
        allow_rsv1: true,
    }
}

/// Whether a first buffer for a decompressed message of `len` bytes can exist.
pub open spec fn room_to_inflate(len: nat) -> bool {
    4 * len + 1024 <= isize::MAX
}

/// A new reader's knowledge.
pub open spec fn new_packed_view(
    role: Role,
    max_message_size: nat,
    decoder: DecoderView,
) -> PackedView {
    PackedView {
        role,
        closing: None,
        fragment: None,
        collected: Seq::empty(),
        packed: false,
        max_message_size,
        decoder,
    }
}

/// The encoder of an endpoint of a new connection.
pub open spec fn own_encoder(role: Role, config: DeflateConfig) -> EncoderView {
    if role is Server {
        deflate_stream::server_encoder(config)
    } else {
        deflate_stream::client_encoder(config)
    }
}

/// The encoder at the other end of a new connection.
pub open spec fn peer_encoder(role: Role, config: DeflateConfig) -> EncoderView {
    if role is Server {
        deflate_stream::client_encoder(config)
    } else {
        deflate_stream::server_encoder(config)
    }
}

/// What a new handler that follows the closing handshake knows.
pub open spec fn new_handler(
    role: Role,
    max_message_size: nat,
    config: DeflateConfig,
) -> PackedView {
    PackedView {
        closing: Some((State::Open, None)),
        ..new_packed_view(
            role,
            max_message_size,
            deflate_stream::decoder_for(peer_encoder(role, config)),
        )
    }
}

/// A complete data message.
fn finish_message(opcode: OpCode, data: Bytes) -> (r: Result<Option<Message>>)
    ensures
        outcome(r) == packed_message(opcode, data@),
{
    match opcode {
        OpCode::Text => {
            if !validate_utf8(&data) {
                return Err(Error::InvalidUtf8);
            }
            Ok(Some(Message::Text(data)))
        },
        OpCode::Binary => Ok(Some(Message::Binary(data))),
        _ => Err(Error::Protocol("invalid fragment opcode")),
    }
}

impl CompressedReaderProtocol {
    /// Create a new reader protocol for server role
    pub fn server(max_frame_size: usize, max_message_size: usize, config: &DeflateConfig) -> (r:
        Self)
        ensures
            r.wf(),
            r@ == new_packed_view(
                Role::Server,
                max_message_size as nat,
                deflate_stream::decoder_for(deflate_stream::client_encoder(*config)),
            ),
            r.frames().at_start(),
            r.frames().limits() == (max_frame_size as nat, true, false),
    {
        CompressedReaderProtocol {
            role: Role::Server,
            parser: FrameParser::new(max_frame_size, true),
            fragment_buf: BytesMut::new(),
            fragment_opcode: None,
            max_message_size,
            decoder: DeflateDecoder::new(
                config.client_max_window_bits,
                config.client_no_context_takeover,
            ),
            fragment_compressed: false,
            closing: None,
        }
    }

    /// Create a new reader protocol for client role
    pub fn client(max_frame_size: usize, max_message_size: usize, config: &DeflateConfig) -> (r:
        Self)
        ensures
            r.wf(),
            r@ == new_packed_view(
                Role::Client,
                max_message_size as nat,
                deflate_stream::decoder_for(deflate_stream::server_encoder(*config)),
            ),
            r.frames().at_start(),
            r.frames().limits() == (max_frame_size as nat, false, false),
    {
        CompressedReaderProtocol {
            role: Role::Client,
            parser: FrameParser::new(max_frame_size, false),
            fragment_buf: BytesMut::new(),
            fragment_opcode: None,
            max_message_size,
            decoder: DeflateDecoder::new(
                config.server_max_window_bits,
                config.server_no_context_takeover,
            ),
            fragment_compressed: false,
            closing: None,
        }
    }

    /// Handle close frame
    fn handle_close(&mut self, payload: &[u8]) -> (r: Result<Option<Message>>)
        ensures
            (final(self)@, outcome(r)) == on_packed_close(old(self)@, payload@),
            final(self).parser == old(self).parser,
    {
        let reason = match parse_close_payload(payload) {
            Ok(reason) => reason,
            Err(e) => {
                return Err(e);
            },
        };
        if let Some(closing) = &mut self.closing {
            if closing.state == State::Open {
                closing.state = State::CloseReceived;
                closing.pending_close = match &reason {
                    Some(r) => Some(r.clone()),
                    None => None,
                };
            } else if closing.state == State::CloseSent {
                closing.state = State::Closed;
            }
        }
        Ok(Some(Message::Close(reason)))
    }

    /// Start a fragmented message
    fn start_fragment(&mut self, opcode: OpCode, rsv1: bool, payload: Bytes) -> (r: Result<
        Option<Message>,
    >)
        requires
            buffer::allocatable(payload@.len()),
        ensures
            (final(self)@, outcome(r)) == on_packed_first(old(self)@, opcode, rsv1, payload@),
            final(self).parser == old(self).parser,
    {
        self.fragment_compressed = rsv1;
        if payload.len() > self.max_message_size {
            return Err(Error::MessageTooLarge);
        }
        // Plain text fails on its first fragment; compressed text can only be
        // judged when the message is complete.

        if self.closing.is_some() && opcode == OpCode::Text && !rsv1 {
            let mut utf8 = Utf8Stream::new();
            let possible = utf8.push(&payload);
            assert(utf8@ =~= payload@);
            if !possible {
                return Err(Error::InvalidUtf8);
            }
        }
        self.fragment_opcode = Some(opcode);
        self.fragment_buf.clear();
        self.fragment_buf.extend_from_slice(&payload);
        assert(self.fragment_buf@ =~= payload@);
        Ok(None)
    }

    /// Handle a text or binary frame
    fn handle_data(&mut self, frame: Frame) -> (r: Result<Option<Message>>)
        requires
            frame.header.opcode is Text || frame.header.opcode is Binary,
            room_to_inflate(frame.payload@.len()),
        ensures
            frame_step(old(self)@, frame.header@, frame.payload@, final(self)@, outcome(r)),
            final(self).parser == old(self).parser,
    {
        if self.fragment_opcode.is_some() {
            return Err(Error::Protocol("expected continuation frame"));
        }
        let opcode = frame.header.opcode;
        if !frame.header.fin {
            return self.start_fragment(opcode, frame.header.rsv1, frame.payload);
        }
        if !frame.header.rsv1 {
            if frame.payload.len() > self.max_message_size {
                return Err(Error::MessageTooLarge);
            }
            return finish_message(opcode, frame.payload);
        }
        let ghost h = frame.header@;
        let ghost payload = frame.payload@;
        let plain = self.decoder.decompress(&frame.payload, self.max_message_size);
        let ghost p = deflate_stream::unpacked(plain);
        let r = match plain {
            Ok(data) => finish_message(opcode, data),
            Err(e) => Err(e),
        };
        proof {
            let v = old(self)@;
            assert((PackedView { decoder: v.decoder, ..self@ }) =~= v);
            assert(inflated_step(v, h, payload, p, self@, outcome(r)));
        }
        r
    }

    /// Handle continuation frame
    fn handle_continuation(&mut self, frame: Frame) -> (r: Result<Option<Message>>)
        requires
            frame.header.opcode is Continuation,
            room_to_inflate(old(self)@.collected.len() + frame.payload@.len()),
        ensures
            frame_step(old(self)@, frame.header@, frame.payload@, final(self)@, outcome(r)),
            final(self).parser == old(self).parser,
    {
        let opcode = match self.fragment_opcode {
            Some(opcode) => opcode,
            None => {
                return Err(Error::Protocol("unexpected continuation frame"));
            },
        };

        // Check total size
        let new_size: usize = self.fragment_buf.len() + frame.payload.len();
        if new_size > self.max_message_size {
            return Err(Error::MessageTooLarge);
        }
        self.fragment_buf.extend_from_slice(&frame.payload);
        if !frame.header.fin {
            return Ok(None);
        }
        // Complete the fragmented message

        self.fragment_opcode = None;
        let all = self.fragment_buf.split().freeze();
        if !self.fragment_compressed {
            return finish_message(opcode, all);
        }
        self.fragment_compressed = false;
        let plain = self.decoder.decompress(&all, self.max_message_size);
        let ghost p = deflate_stream::unpacked(plain);
        let r = match plain {
            Ok(data) => finish_message(opcode, data),
            Err(e) => Err(e),
        };
        proof {
            let v = old(self)@;
            let after = PackedView { decoder: v.decoder, ..self@ };
            assert(after =~= (PackedView {
                fragment: None,
                collected: Seq::empty(),
                packed: false,
                ..v
            }));
            assert(inflated_step(v, frame.header@, frame.payload@, p, self@, outcome(r)));
        }
        r
    }

    /// Handle a parsed frame with decompression support
    fn handle_frame(&mut self, frame: Frame) -> (r: Result<Option<Message>>)
        requires
            room_to_inflate(old(self)@.collected.len() + frame.payload@.len()),
        ensures
            frame_step(old(self)@, frame.header@, frame.payload@, final(self)@, outcome(r)),
            final(self).parser == old(self).parser,
    {
        match frame.header.opcode {
            OpCode::Continuation => self.handle_continuation(frame),
            OpCode::Text | OpCode::Binary => self.handle_data(frame),
            OpCode::Close => self.handle_close(&frame.payload),
            OpCode::Ping => Ok(Some(Message::Ping(frame.payload))),
            OpCode::Pong => Ok(Some(Message::Pong(frame.payload))),
        }
    }
}

/// The outcome `o` with messages, or an accepted fragment, before it.
spec fn following(messages: Seq<MessageView>, fragments: nat, o: PackedRun) -> PackedRun {
    PackedRun { messages: messages + o.messages, fragments: fragments + o.fragments, ..o }
}

/// A frame adds at most its payload to what is collected.
proof fn lemma_collected_bound(
    v: PackedView,
    h: HeaderView,
    payload: Seq<u8>,
    after: PackedView,
    r: Result<Option<MessageView>>,
)
    requires
        frame_step(v, h, payload, after, r),
    ensures
        after.collected.len() <= v.collected.len() + payload.len(),
{
    if to_inflate(v, h, payload) is Some {
        let plain = choose|plain: core::result::Result<Seq<u8>, Error>| #[trigger]
            inflated_step(v, h, payload, plain, after, r);
        assert(on_packed_frame(v, h, payload, plain).0.collected == after.collected);
    }
}

/// What comes after a frame that completes comes of the whole.
pub proof fn lemma_run_step(
    v: PackedView,
    w: Seq<u8>,
    rules: FrameRules,
    mid: PackedView,
    msg: Option<MessageView>,
    tail: PackedRun,
)
    requires
        frame::decode(w, rules) is Complete,
        frame_step(
            v,
            frame::decode(w, rules)->header,
            frame::decode(w, rules)->payload,
            mid,
            Ok(msg),
        ),
        0 < frame::decode(w, rules)->consumed <= w.len(),
        runs(mid, w.skip(frame::decode(w, rules)->consumed as int), rules, tail),
    ensures
        runs(v, w, rules, preceded(msg, tail)),
{
    let o = preceded(msg, tail);
    assert(remainder(msg, o) =~= tail);
}

impl CompressedReaderProtocol {
    /// Process incoming data and return complete messages
    pub fn process(&mut self, buf: &mut BytesMut) -> (r: Result<Vec<Message>>)
        requires
            old(self).wf(),
            old(self).accepts(old(buf)@),
        ensures
            final(self).wf(),
            final(buf)@.len() > 0 ==> final(self).frames().ready() <= final(buf)@.len(),
            final(self).rules() == old(self).rules(),
            exists|o: PackedRun|
                {
                    &&& #[trigger] old(self).runs_on(old(buf)@, o)
                    &&& o.model == final(self)@
                    &&& o.rest == final(self).frames().wire(final(buf)@)
                    &&& match r {
                        Ok(messages) => o.result is Ok && o.messages == protocol::message_views(
                            messages@,
                        ),
                        Err(e) => o.result == Err::<(), Error>(e),
                    }
                },
    {
        let mut messages: Vec<Message> = Vec::new();
        match self.process_into(buf, &mut messages) {
            Ok(()) => Ok(messages),
            Err(e) => Err(e),
        }
    }

    /// Process incoming data into a reusable message buffer
    ///
    /// After an error it holds the messages that came before.
    pub fn process_into(&mut self, buf: &mut BytesMut, messages: &mut Vec<Message>) -> (r: Result<
        (),
    >)
        requires
            old(self).wf(),
            old(self).accepts(old(buf)@),
        ensures
            final(self).wf(),
            final(buf)@.len() > 0 ==> final(self).frames().ready() <= final(buf)@.len(),
            final(self).rules() == old(self).rules(),
            exists|o: PackedRun|
                {
                    &&& #[trigger] old(self).runs_on(old(buf)@, o)
                    &&& o.model == final(self)@
                    &&& o.rest == final(self).frames().wire(final(buf)@)
                    &&& o.messages == protocol::message_views(final(messages)@)
                    &&& o.result == r
                },
    {
        let mut accepted_fragment: bool = false;
        self.process_into_with_activity(buf, messages, &mut accepted_fragment)
    }

    /// Like [`CompressedReaderProtocol::process_into`], and tells whether a
    /// fragment was accepted that completes no message.
    pub fn process_into_with_activity(
        &mut self,
        buf: &mut BytesMut,
        messages: &mut Vec<Message>,
        accepted_fragment: &mut bool,
    ) -> (r: Result<()>)
        requires
            old(self).wf(),
            old(self).accepts(old(buf)@),
        ensures
            final(self).wf(),
            final(buf)@.len() > 0 ==> final(self).frames().ready() <= final(buf)@.len(),
            final(self).rules() == old(self).rules(),
            exists|o: PackedRun|
                {
                    &&& #[trigger] old(self).runs_on(old(buf)@, o)
                    &&& o.model == final(self)@
                    &&& o.rest == final(self).frames().wire(final(buf)@)
                    &&& o.messages == protocol::message_views(final(messages)@)
                    &&& o.result == r
                    &&& *final(accepted_fragment) == (*old(accepted_fragment) || o.fragments > 0)
                },
    {
        self.parser.set_compression(true);
        messages.clear();
        let ghost start = *self;
        proof {
            self.parser.lemma_rules();
            assert(self@ =~= old(self)@);
            assert(protocol::message_views(messages@) =~= Seq::<MessageView>::empty());
            assert forall|o: PackedRun| #[trigger] self.runs_on(buf@, o) implies old(self).runs_on(
                old(buf)@,
                following(Seq::empty(), 0, o),
            ) by {
                assert(following(Seq::empty(), 0, o) =~= o);
            }
        }
        let mut fragment: bool = false;
        let r = self.drive(buf, messages, &mut fragment, Ghost(start));
        proof {
            let o = choose|o: PackedRun|
                {
                    &&& #[trigger] start.runs_on(old(buf)@, o)
                    &&& o.model == self@
                    &&& o.rest == self.frames().wire(buf@)
                    &&& o.messages == protocol::message_views(messages@)
                    &&& o.result == r
                    &&& fragment == (o.fragments > 0)
                };
            assert(following(Seq::empty(), 0, o) =~= o);
            assert(old(self).runs_on(old(buf)@, o));
        }
        if fragment {
            *accepted_fragment = true;
        }
        r
    }

    #[verifier::rlimit(40)]
    fn drive(
        &mut self,
        buf: &mut BytesMut,
        messages: &mut Vec<Message>,
        fragment: &mut bool,
        Ghost(start): Ghost<CompressedReaderProtocol>,
    ) -> (r: Result<()>)
        requires
            *old(self) == start,
            old(self).wf(),
            old(self).accepts(old(buf)@),
            old(self).frames().limits().2,
            old(messages)@.len() == 0,
            !*old(fragment),
        ensures
            final(self).wf(),
            final(self).frames().limits() == old(self).frames().limits(),
            final(buf)@.len() > 0 ==> final(self).frames().ready() <= final(buf)@.len(),
            exists|o: PackedRun|
                {
                    &&& #[trigger] start.runs_on(old(buf)@, o)
                    &&& o.model == final(self)@
                    &&& o.rest == final(self).frames().wire(final(buf)@)
                    &&& o.messages == protocol::message_views(final(messages)@)
                    &&& o.result == r
                    &&& *final(fragment) == (o.fragments > 0)
                },
    {
        let ghost first = buf@;
        let ghost rules = self.rules();
        let ghost mut count: nat = 0;
        proof {
            assert(protocol::message_views(messages@) =~= Seq::<MessageView>::empty());
            assert forall|o: PackedRun| #[trigger] self.runs_on(buf@, o) implies start.runs_on(
                first,
                following(protocol::message_views(messages@), count, o),
            ) by {
                assert(following(protocol::message_views(messages@), count, o) =~= o);
            }
        }
        while !buf.is_empty()
            invariant
                self.wf(),
                self.accepts(buf@),
                self.frames().limits() == start.frames().limits(),
                *old(self) == start,
                start.frames().limits().2,
                rules == self.rules(),
                first == old(buf)@,
                *fragment == (count > 0),
                forall|o: PackedRun| #[trigger]
                    self.runs_on(buf@, o) ==> start.runs_on(
                        first,
                        following(protocol::message_views(messages@), count, o),
                    ),
            decreases self.frames().wire(buf@).len(),
        {
            let ghost w = self.frames().wire(buf@);
            let ghost before = *self;
            let ghost buf0 = buf@;
            let ghost sofar = protocol::message_views(messages@);
            let ghost count0 = count;
            proof {
                self.parser.lemma_rules();
                self.parser.lemma_wire_holds_buffer(buf@);
            }
            match self.parser.parse(buf) {
                Err(e) => {
                    proof {
                        let o = ending(self@, self.frames().wire(buf@), Err(e));
                        assert(self@ =~= before@);
                        assert(before.runs_on(buf0, o));
                        assert(following(sofar, count0, o).messages =~= sofar);
                        assert(start.runs_on(first, following(sofar, count0, o)));
                    }
                    return Err(e);
                },
                Ok(Some(frame)) => {
                    proof {
                        self.parser.lemma_at_start(buf@);
                        self.parser.lemma_rules();
                    }
                    let ghost h = frame.header@;
                    let ghost payload = frame.payload@;
                    assert(self@ =~= before@);
                    match self.handle_frame(frame) {
                        Err(e) => {
                            proof {
                                let o = ending(self@, self.frames().wire(buf@), Err(e));
                                assert(frame_step(before@, h, payload, o.model, Err(e)));
                                assert(before.runs_on(buf0, o));
                                assert(following(sofar, count0, o).messages =~= sofar);
                                assert(start.runs_on(first, following(sofar, count0, o)));
                                self.parser.lemma_at_start(buf@);
                            }
                            return Err(e);
                        },
                        Ok(msg) => {
                            let ghost m = outcome(Ok(msg))->Ok_0;
                            proof {
                                lemma_collected_bound(before@, h, payload, self@, Ok(m));
                            }
                            match msg {
                                Some(msg) => {
                                    messages.push(msg);
                                },
                                None => {
                                    *fragment = true;
                                },
                            }
                            proof {
                                count = count + lone_fragments(m);
                                assert(protocol::message_views(messages@) =~= sofar
                                    + protocol::optional(m));
                                assert forall|o: PackedRun| #[trigger]
                                    self.runs_on(buf@, o) implies start.runs_on(
                                    first,
                                    following(protocol::message_views(messages@), count, o),
                                ) by {
                                    assert(runs(self@, buf@, rules, o));
                                    lemma_run_step(before@, w, rules, self@, m, o);
                                    assert(before.runs_on(buf0, preceded(m, o)));
                                    assert(following(sofar, count0, preceded(m, o)) =~= following(
                                        protocol::message_views(messages@),
                                        count,
                                        o,
                                    ));
                                }
                            }
                        },
                    }
                },
                Ok(None) => {
                    proof {
                        let o = ending(self@, self.frames().wire(buf@), Ok(()));
                        assert(self@ =~= before@);
                        assert(before.runs_on(buf0, o));
                        assert(following(sofar, count0, o).messages =~= sofar);
                        assert(start.runs_on(first, following(sofar, count0, o)));
                    }
                    return Ok(());
                },
            }
        }
        proof {
            let o = ending(self@, self.frames().wire(buf@), Ok(()));
            assert(self.runs_on(buf@, o));
            let done = following(protocol::message_views(messages@), count, o);
            assert(done.messages =~= protocol::message_views(messages@));
            assert(start.runs_on(first, done));
        }
        Ok(())
    }
}

/// The frame of a message: of its compressed form, where it has one.
pub open spec fn packed_frame(
    msg: MessageView,
    small: Option<Seq<u8>>,
    key: Option<Seq<u8>>,
) -> Seq<u8> {
    match small {
        Some(bytes) => frame::frame_bytes(protocol::message_opcode(msg), bytes, true, key, true),
        None => protocol::message_bytes(msg, key),
    }
}

/// Whether a message is compressed before it is sent: control frames never are.
pub open spec fn compressible(msg: MessageView) -> bool {
    msg is Text || msg is Binary
}

/// Whether an encoder may write a message so that the buffer `before` becomes `after`.
///
/// A data message is compressed first. Where the compressed message no longer
/// fits in the buffer, nothing is written.
pub open spec fn writes(
    encoder: EncoderView,
    msg: MessageView,
    key: Option<Seq<u8>>,
    before: Seq<u8>,
    encoder_after: EncoderView,
    after: Seq<u8>,
    r: Result<()>,
) -> bool {
    if compressible(msg) {
        exists|packed: core::result::Result<Option<Seq<u8>>, Error>|
            {
                &&& #[trigger] deflate_stream::compressed(
                    encoder,
                    protocol::message_payload(msg),
                    encoder_after,
                    packed,
                )
                &&& match packed {
                    Err(e) => r == Err::<(), Error>(e) && after == before,
                    Ok(small) => if buffer::allocatable(
                        before.len() + packed_frame(msg, small, key).len(),
                    ) {
                        r == Ok::<(), Error>(()) && after == before + packed_frame(msg, small, key)
                    } else {
                        r == Err::<(), Error>(Error::BufferFull) && after == before
                    },
                }
            }
    } else {
        &&& encoder_after == encoder
        &&& r == Ok::<(), Error>(())
        &&& after == before + protocol::message_bytes(msg, key)
    }
}

/// Whether there is memory to write a message, and to compress it before.
pub open spec fn room_to_write(buf: Seq<u8>, msg: MessageView, masked: bool) -> bool {
    let len = protocol::message_payload(msg).len();
    &&& buffer::allocatable(buf.len() + frame::frame_len(len, masked))
    &&& buffer::allocatable(len + 64)
}

/// The length of the header of a frame.
fn header_size(len: usize, masked: bool) -> (r: usize)
    ensures
        r == frame::header_len(len as nat, masked),
{
    let width: usize = if len > MEDIUM_MESSAGE_THRESHOLD {
        8
    } else if len > SMALL_MESSAGE_THRESHOLD {
        2
    } else {
        0
    };
    let key: usize = if masked {
        4
    } else {
        0
    };
    2 + width + key
}

/// Writes a data message, compressed where that helps.
fn write_data(
    encoder: &mut DeflateEncoder,
    opcode: OpCode,
    data: &Bytes,
    mask: Option<[u8; 4]>,
    buf: &mut BytesMut,
    Ghost(msg): Ghost<MessageView>,
) -> (r: Result<()>)
    requires
        compressible(msg),
        opcode == protocol::message_opcode(msg),
        data@ == protocol::message_payload(msg),
        room_to_write(old(buf)@, msg, mask is Some),
    ensures
        writes(
            old(encoder)@,
            msg,
            frame::key_view(mask),
            old(buf)@,
            final(encoder)@,
            final(buf)@,
            r,
        ),
{
    let packed = encoder.compress(data);
    let ghost p = deflate_stream::packed(packed);
    proof {
        assert(deflate_stream::compressed(
            old(encoder)@,
            protocol::message_payload(msg),
            encoder@,
            p,
        ));
        frame::lemma_frame_bytes_len(opcode, data@, true, frame::key_view(mask), false);
    }
    match packed {
        Err(e) => Err(e),
        Ok(None) => {
            encode_frame(buf, opcode, data, true, mask);
            Ok(())
        },
        Ok(Some(small)) => {
            proof {
                frame::lemma_frame_bytes_len(opcode, small@, true, frame::key_view(mask), true);
            }
            let header = header_size(small.len(), mask.is_some());
            let room: usize = isize::MAX as usize - buf.len();
            if room < header || room - header < small.len() {
                return Err(Error::BufferFull);
            }
            encode_frame_with_rsv(buf, opcode, &small, true, mask, true);
            Ok(())
        },
    }
}

/// Writer half of a split compressed protocol
pub struct CompressedWriterProtocol {
    role: Role,
    encoder: DeflateEncoder,
}

impl CompressedWriterProtocol {
    /// Endpoint role.
    pub closed spec fn role(&self) -> Role {
        self.role
    }

    /// The state of the encoder.
    pub closed spec fn view(&self) -> EncoderView {
        self.encoder@
    }

    /// Create a new writer protocol for server role
    pub fn server(config: &DeflateConfig) -> (r: Self)
        requires
            config.compression_level <= 9,
        ensures
            r.role() == Role::Server,
            r@ == deflate_stream::server_encoder(*config),
    {
        CompressedWriterProtocol {
            role: Role::Server,
            encoder: DeflateEncoder::new(
                config.server_max_window_bits,
                config.server_no_context_takeover,
                config.compression_level,
                config.compression_threshold,
            ),
        }
    }

    /// Create a new writer protocol for client role
    pub fn client(config: &DeflateConfig) -> (r: Self)
        requires
            config.compression_level <= 9,
        ensures
            r.role() == Role::Client,
            r@ == deflate_stream::client_encoder(*config),
    {
        CompressedWriterProtocol {
            role: Role::Client,
            encoder: DeflateEncoder::new(
                config.client_max_window_bits,
                config.client_no_context_takeover,
                config.compression_level,
                config.compression_threshold,
            ),
        }
    }

    /// Encode a message for sending with compression
    ///
    /// A client masks the frame with a random key.
    pub fn encode_message(&mut self, msg: &Message, buf: &mut BytesMut) -> (r: Result<()>)
        requires
            room_to_write(old(buf)@, msg@, old(self).role() is Client),
        ensures
            final(self).role() == old(self).role(),
            exists|key: Option<Seq<u8>>| #[trigger]
                protocol::key_for(old(self).role(), key) && writes(
                    old(self)@,
                    msg@,
                    key,
                    old(buf)@,
                    final(self)@,
                    final(buf)@,
                    r,
                ),
    {
        let mask = next_mask(self.role);
        self.encode_message_masked(msg, mask, buf)
    }

    /// Encode a message for sending with compression and a given masking key
    pub fn encode_message_masked(
        &mut self,
        msg: &Message,
        mask: Option<[u8; 4]>,
        buf: &mut BytesMut,
    ) -> (r: Result<()>)
        requires
            room_to_write(old(buf)@, msg@, mask is Some),
        ensures
            final(self).role() == old(self).role(),
            writes(
                old(self)@,
                msg@,
                frame::key_view(mask),
                old(buf)@,
                final(self)@,
                final(buf)@,
                r,
            ),
    {
        match msg {
            Message::Text(b) => write_data(
                &mut self.encoder,
                OpCode::Text,
                b,
                mask,
                buf,
                Ghost(msg@),
            ),
            Message::Binary(b) => write_data(
                &mut self.encoder,
                OpCode::Binary,
                b,
                mask,
                buf,
                Ghost(msg@),
            ),
            _ => {
                write_message(msg, mask, buf);
                Ok(())
            },
        }
    }

    /// Encode a pong response for a ping
    pub fn encode_pong(&mut self, ping_data: &[u8], buf: &mut BytesMut)
        requires
            buffer::allocatable(
                old(buf)@.len() + frame::frame_len(ping_data@.len(), old(self).role() is Client),
            ),
        ensures
            *final(self) == *old(self),
            exists|key: Option<Seq<u8>>| #[trigger]
                protocol::key_for(old(self).role(), key) && final(buf)@ == old(buf)@
                    + protocol::message_bytes(MessageView::Pong(ping_data@), key),
    {
        let mask = next_mask(self.role);
        encode_frame(buf, OpCode::Pong, ping_data, true, mask);
        assert(protocol::key_for(self.role(), frame::key_view(mask)) && buf@ == old(buf)@
            + protocol::message_bytes(MessageView::Pong(ping_data@), frame::key_view(mask)));
    }

    /// Encode a close response, without a reason
    pub fn encode_close_response(&mut self, buf: &mut BytesMut)
        requires
            buffer::allocatable(old(buf)@.len() + frame::frame_len(0, old(self).role() is Client)),
        ensures
            *final(self) == *old(self),
            exists|key: Option<Seq<u8>>| #[trigger]
                protocol::key_for(old(self).role(), key) && final(buf)@ == old(buf)@
                    + protocol::message_bytes(MessageView::Close(None), key),
    {
        let mask = next_mask(self.role);
        encode_frame(buf, OpCode::Close, &[], true, mask);
        assert(protocol::key_for(self.role(), frame::key_view(mask)) && buf@ == old(buf)@
            + protocol::message_bytes(MessageView::Close(None), frame::key_view(mask)));
    }
}

/// WebSocket protocol handler with permessage-deflate compression (RFC 7692)
pub struct CompressedProtocol {
    reader: CompressedReaderProtocol,
    encoder: DeflateEncoder,
}

impl CompressedProtocol {
    /// What the handler knows of what it receives.
    pub closed spec fn view(&self) -> PackedView {
        self.reader@
    }

    /// The receiving half.
    pub closed spec fn receiver(&self) -> CompressedReaderProtocol {
        self.reader
    }

    /// The state of the encoder.
    pub closed spec fn encoder(&self) -> EncoderView {
        self.encoder@
    }

    /// The parts agree with each other, and the closing handshake is followed.
    pub closed spec fn wf(&self) -> bool {
        &&& self.reader.wf()
        &&& self.reader.closing is Some
    }

    /// The state of the closing handshake.
    pub open spec fn state(&self) -> State {
        (self@.closing->0).0
    }

    /// The receiving half knows what the handler knows.
    pub proof fn lemma_receiver(&self)
        ensures
            self.receiver()@ == self@,
            self.wf() ==> self.receiver().wf() && self@.closing is Some,
    {
    }

    /// Create a new compressed protocol handler for server role
    pub fn server(max_frame_size: usize, max_message_size: usize, config: DeflateConfig) -> (r:
        Self)
        requires
            config.compression_level <= 9,
        ensures
            r.wf(),
            r@ == new_handler(Role::Server, max_message_size as nat, config),
            r.encoder() == own_encoder(Role::Server, config),
            r.receiver().frames().at_start(),
            r.receiver().frames().limits() == (max_frame_size as nat, true, true),
    {
        let mut reader = CompressedReaderProtocol::server(
            max_frame_size,
            max_message_size,
            &config,
        );
        reader.parser.set_compression(true);
        reader.closing = Some(Closing { state: State::Open, pending_close: None });
        let encoder = DeflateEncoder::new(
            config.server_max_window_bits,
            config.server_no_context_takeover,
            config.compression_level,
            config.compression_threshold,
        );
        CompressedProtocol { reader, encoder }
    }

    /// Create a new compressed protocol handler for client role
    pub fn client(max_frame_size: usize, max_message_size: usize, config: DeflateConfig) -> (r:
        Self)
        requires
            config.compression_level <= 9,
        ensures
            r.wf(),
            r@ == new_handler(Role::Client, max_message_size as nat, config),
            r.encoder() == own_encoder(Role::Client, config),
            r.receiver().frames().at_start(),
            r.receiver().frames().limits() == (max_frame_size as nat, false, true),
    {
        let mut reader = CompressedReaderProtocol::client(
            max_frame_size,
            max_message_size,
            &config,
        );
        reader.parser.set_compression(true);
        reader.closing = Some(Closing { state: State::Open, pending_close: None });
        let encoder = DeflateEncoder::new(
            config.client_max_window_bits,
            config.client_no_context_takeover,
            config.compression_level,
            config.compression_threshold,
        );
        CompressedProtocol { reader, encoder }
    }

    /// Check if `len` bytes can be handed over, those left by earlier calls among them
    pub fn can_accept(&self, len: usize) -> (r: bool)
        ensures
            forall|buf: Seq<u8>| buf.len() == len ==> r == #[trigger] self.receiver().accepts(buf),
    {
        self.reader.can_accept(len)
    }

    /// Check if connection is closed
    pub fn is_closed(&self) -> (r: bool)
        requires
            self.wf(),
        ensures
            r == (self.state() is Closed),
    {
        match &self.reader.closing {
            Some(c) => c.state == State::Closed,
            None => false,
        }
    }

    /// Check if we're in the closing handshake
    pub fn is_closing(&self) -> (r: bool)
        requires
            self.wf(),
        ensures
            r == (self.state() is CloseSent || self.state() is CloseReceived),
    {
        match &self.reader.closing {
            Some(c) => c.state == State::CloseSent || c.state == State::CloseReceived,
            None => false,
        }
    }

    /// Process incoming data and return complete messages
    pub fn process(&mut self, buf: &mut BytesMut) -> (r: Result<Vec<Message>>)
        requires
            old(self).wf(),
            old(self).receiver().accepts(old(buf)@),
        ensures
            final(self).wf(),
            final(self).encoder() == old(self).encoder(),
            final(buf)@.len() > 0 ==> final(self).receiver().frames().ready() <= final(buf)@.len(),
            final(self).receiver().rules() == old(self).receiver().rules(),
            exists|o: PackedRun|
                {
                    &&& #[trigger] old(self).receiver().runs_on(old(buf)@, o)
                    &&& o.model == final(self)@
                    &&& o.rest == final(self).receiver().frames().wire(final(buf)@)
                    &&& match r {
                        Ok(messages) => o.result is Ok && o.messages == protocol::message_views(
                            messages@,
                        ),
                        Err(e) => o.result == Err::<(), Error>(e),
                    }
                },
    {
        let mut messages: Vec<Message> = Vec::new();
        match self.process_into(buf, &mut messages) {
            Ok(()) => Ok(messages),
            Err(e) => Err(e),
        }
    }

    /// Process incoming data into a reusable message buffer
    pub fn process_into(&mut self, buf: &mut BytesMut, messages: &mut Vec<Message>) -> (r: Result<
        (),
    >)
        requires
            old(self).wf(),
            old(self).receiver().accepts(old(buf)@),
        ensures
            final(self).wf(),
            final(self).encoder() == old(self).encoder(),
            final(buf)@.len() > 0 ==> final(self).receiver().frames().ready() <= final(buf)@.len(),
            final(self).receiver().rules() == old(self).receiver().rules(),
            exists|o: PackedRun|
                {
                    &&& #[trigger] old(self).receiver().runs_on(old(buf)@, o)
                    &&& o.model == final(self)@
                    &&& o.rest == final(self).receiver().frames().wire(final(buf)@)
                    &&& o.messages == protocol::message_views(final(messages)@)
                    &&& o.result == r
                },
    {
        let mut accepted_fragment: bool = false;
        self.process_into_with_activity(buf, messages, &mut accepted_fragment)
    }

    /// Like [`CompressedProtocol::process_into`], and tells whether a fragment
    /// was accepted that completes no message.
    pub fn process_into_with_activity(
        &mut self,
        buf: &mut BytesMut,
        messages: &mut Vec<Message>,
        accepted_fragment: &mut bool,
    ) -> (r: Result<()>)
        requires
            old(self).wf(),
            old(self).receiver().accepts(old(buf)@),
        ensures
            final(self).wf(),
            final(self).encoder() == old(self).encoder(),
            final(buf)@.len() > 0 ==> final(self).receiver().frames().ready() <= final(buf)@.len(),
            final(self).receiver().rules() == old(self).receiver().rules(),
            exists|o: PackedRun|
                {
                    &&& #[trigger] old(self).receiver().runs_on(old(buf)@, o)
                    &&& o.model == final(self)@
                    &&& o.rest == final(self).receiver().frames().wire(final(buf)@)
                    &&& o.messages == protocol::message_views(final(messages)@)
                    &&& o.result == r
                    &&& *final(accepted_fragment) == (*old(accepted_fragment) || o.fragments > 0)
                },
    {
        let ghost buf0 = buf@;
        let ghost acc0 = *accepted_fragment;
        let r = self.reader.process_into_with_activity(buf, messages, accepted_fragment);
        proof {
            let o = choose|o: PackedRun|
                {
                    &&& #[trigger] old(self).reader.runs_on(buf0, o)
                    &&& o.model == self.reader@
                    &&& o.rest == self.reader.frames().wire(buf@)
                    &&& o.messages == protocol::message_views(messages@)
                    &&& o.result == r
                    &&& *accepted_fragment == (acc0 || o.fragments > 0)
                };
            assert(old(self).receiver().runs_on(buf0, o));
            lemma_closing_kept(old(self).reader, buf0, o);
        }
        r
    }

    /// Encode a message for sending with compression
    pub fn encode_message(&mut self, msg: &Message, buf: &mut BytesMut) -> (r: Result<()>)
        requires
            old(self).wf(),
            room_to_write(old(buf)@, msg@, old(self)@.role is Client),
        ensures
            final(self).wf(),
            final(self).receiver().frames() == old(self).receiver().frames(),
            final(self)@ == after_sending(old(self)@, msg@),
            exists|key: Option<Seq<u8>>| #[trigger]
                protocol::key_for(old(self)@.role, key) && writes(
                    old(self).encoder(),
                    msg@,
                    key,
                    old(buf)@,
                    final(self).encoder(),
                    final(buf)@,
                    r,
                ),
    {
        let mask = next_mask(self.reader.role);
        self.encode_message_masked(msg, mask, buf)
    }

    /// Encode a message for sending with compression and a given masking key
    pub fn encode_message_masked(
        &mut self,
        msg: &Message,
        mask: Option<[u8; 4]>,
        buf: &mut BytesMut,
    ) -> (r: Result<()>)
        requires
            old(self).wf(),
            room_to_write(old(buf)@, msg@, mask is Some),
        ensures
            final(self).wf(),
            final(self).receiver().frames() == old(self).receiver().frames(),
            final(self)@ == after_sending(old(self)@, msg@),
            writes(
                old(self).encoder(),
                msg@,
                frame::key_view(mask),
                old(buf)@,
                final(self).encoder(),
                final(buf)@,
                r,
            ),
    {
        match msg {
            Message::Text(b) => write_data(
                &mut self.encoder,
                OpCode::Text,
                b,
                mask,
                buf,
                Ghost(msg@),
            ),
            Message::Binary(b) => write_data(
                &mut self.encoder,
                OpCode::Binary,
                b,
                mask,
                buf,
                Ghost(msg@),
            ),
            Message::Close(_) => {
                if let Some(closing) = &mut self.reader.closing {
                    if closing.state == State::Open {
                        closing.state = State::CloseSent;
                    }
                }
                write_message(msg, mask, buf);
                Ok(())
            },
            _ => {
                write_message(msg, mask, buf);
                Ok(())
            },
        }
    }

    /// Encode a pong response for a ping
    pub fn encode_pong(&mut self, ping_data: &[u8], buf: &mut BytesMut)
        requires
            buffer::allocatable(
                old(buf)@.len() + frame::frame_len(ping_data@.len(), old(self)@.role is Client),
            ),
        ensures
            *final(self) == *old(self),
            exists|key: Option<Seq<u8>>| #[trigger]
                protocol::key_for(old(self)@.role, key) && final(buf)@ == old(buf)@
                    + protocol::message_bytes(MessageView::Pong(ping_data@), key),
    {
        let mask = next_mask(self.reader.role);
        encode_frame(buf, OpCode::Pong, ping_data, true, mask);
        assert(protocol::key_for(self@.role, frame::key_view(mask)) && buf@ == old(buf)@
            + protocol::message_bytes(MessageView::Pong(ping_data@), frame::key_view(mask)));
    }

    /// Encode a close response
    ///
    /// It repeats the reason of the Close frame that the peer sent.
    pub fn encode_close_response(&mut self, buf: &mut BytesMut)
        requires
            old(self).wf(),
            buffer::allocatable(
                old(buf)@.len() + frame::frame_len(
                    frame::close_payload((old(self)@.closing->0).1).len(),
                    old(self)@.role is Client,
                ),
            ),
        ensures
            final(self).wf(),
            final(self).encoder() == old(self).encoder(),
            final(self).receiver().frames() == old(self).receiver().frames(),
            final(self)@ == (PackedView {
                closing: Some(
                    (
                        protocol::after_close_answered(old(self).state()),
                        (old(self)@.closing->0).1,
                    ),
                ),
                ..old(self)@
            }),
            exists|key: Option<Seq<u8>>| #[trigger]
                protocol::key_for(old(self)@.role, key) && final(buf)@ == old(buf)@
                    + protocol::message_bytes(
                    MessageView::Close((old(self)@.closing->0).1),
                    key,
                ),
    {
        let mask = next_mask(self.reader.role);
        let reason = match &self.reader.closing {
            Some(c) => match &c.pending_close {
                Some(r) => Some(r.clone()),
                None => None,
            },
            None => None,
        };
        let answer = Message::Close(reason);
        assert(answer@ == MessageView::Close((self@.closing->0).1));
        write_message(&answer, mask, buf);
        assert(protocol::key_for(self@.role, frame::key_view(mask)) && buf@ == old(buf)@
            + protocol::message_bytes(
            MessageView::Close((old(self)@.closing->0).1),
            frame::key_view(mask),
        ));
        if let Some(closing) = &mut self.reader.closing {
            if closing.state == State::CloseReceived {
                closing.state = State::Closed;
            }
        }
    }

    /// Split the compressed protocol into separate reader and writer halves
    ///
    /// The reader keeps everything received so far and the limit on frames;
    /// the writer keeps the encoder.
    pub fn split(self, max_message_size: usize) -> (r: (
        CompressedReaderProtocol,
        CompressedWriterProtocol,
    ))
        requires
            self.wf(),
        ensures
            r.0.wf(),
            r.0@ == (PackedView {
                closing: None,
                max_message_size: max_message_size as nat,
                ..self@
            }),
            r.0.frames() == self.receiver().frames(),
            r.1.role() == self@.role,
            r.1@ == self.encoder(),
    {
        let role = self.reader.role;
        let encoder = self.encoder;
        let reader = CompressedReaderProtocol { max_message_size, closing: None, ..self.reader };
        (reader, CompressedWriterProtocol { role, encoder })
    }
}

/// What a handler knows after it has sent a message: a Close frame begins the
/// closing handshake.
pub open spec fn after_sending(v: PackedView, msg: MessageView) -> PackedView {
    PackedView {
        closing: match v.closing {
            Some((state, pending)) => Some(
                (
                    if msg is Close {
                        protocol::after_close_sent(state)
                    } else {
                        state
                    },
                    pending,
                ),
            ),
            None => None,
        },
        ..v
    }
}

/// A handler that follows the closing handshake goes on following it.
proof fn lemma_closing_kept(reader: CompressedReaderProtocol, buf: Seq<u8>, o: PackedRun)
    requires
        reader.runs_on(buf, o),
    ensures
        o.model.closing is Some == (reader@.closing is Some),
{
    if buf.len() > 0 {
        lemma_run_closing(reader@, reader.frames().wire(buf), reader.rules(), o);
    }
}

proof fn lemma_run_closing(v: PackedView, w: Seq<u8>, rules: FrameRules, o: PackedRun)
    requires
        runs(v, w, rules, o),
    ensures
        o.model.closing is Some == (v.closing is Some),
    decreases w.len(),
{
    if let frame::Decoded::Complete { header, payload, consumed } = frame::decode(w, rules) {
        let rest = w.skip(consumed as int);
        let (mid, r) = choose|mid: PackedView, r: Result<Option<MessageView>>|
            {
                &&& #[trigger] frame_step(v, header, payload, mid, r)
                &&& match r {
                    Err(e) => o == ending(mid, rest, Err(e)),
                    Ok(msg) => {
                        &&& rest.len() < w.len()
                        &&& runs(mid, rest, rules, remainder(msg, o))
                        &&& o == preceded(msg, remainder(msg, o))
                    },
                }
            };
        assert(mid.closing is Some == (v.closing is Some)) by {
            if to_inflate(v, header, payload) is Some {
                let plain = choose|plain: core::result::Result<Seq<u8>, Error>| #[trigger]
                    inflated_step(v, header, payload, plain, mid, r);
                assert(on_packed_frame(v, header, payload, plain).0.closing == mid.closing);
            }
        }
        if let Ok(msg) = r {
            lemma_run_closing(mid, rest, rules, remainder(msg, o));
        }
    }
}

} // verus!
