//! WebSocket protocol implementation
//!
//! This module handles the WebSocket protocol state machine, including:
//! - Message fragmentation and reassembly
//! - Control frame handling (ping/pong/close)
//! - State transitions
//!
//! [`on_frame`] says what a received frame does, [`run`] what a stretch of
//! received bytes does.
pub use crate::compressed_protocol::{
    CompressedProtocol, CompressedReaderProtocol, CompressedWriterProtocol,
};
use crate::buffer;
use crate::buffer::BufferView;
use crate::error;
use crate::error::{CloseReason, Error, Result};
use crate::frame;
use crate::frame::{encode_frame, Frame, FrameParser, FrameRules, HeaderView, OpCode};
use crate::mask::generate_mask;
use crate::octets;
use crate::utf8;
use crate::utf8::{validate_utf8, Utf8Stream};
use bytes::{Bytes, BytesMut};
use vstd::prelude::*;
use vstd::string::StringSliceAdditionalSpecFns;
use vstd::utf8::*;

verus! {

/// WebSocket endpoint role
#[derive(Debug, Clone, Copy, PartialEq, Eq, Structural)]
pub enum Role {
    /// Client (must mask frames)
    Client,
    /// Server (must not mask frames)
    Server,
}

/// WebSocket message (complete, possibly assembled from fragments)
///
/// Text messages use `Bytes` internally for zero-copy efficiency.
/// Parsing validates UTF-8; text accessors also check publicly constructed payloads.
#[derive(Debug)]
pub enum Message {
    /// Text message (validated when parsed, stored as Bytes for zero-copy)
    Text(Bytes),
    /// Binary message
    Binary(Bytes),
    /// Ping message
    Ping(Bytes),
    /// Pong message
    Pong(Bytes),
    /// Close message
    Close(Option<CloseReason>),
}

/// WebSocket message without text UTF-8 validation.
///
/// This is intended for protocol adapters and benchmarks that need to echo or
/// route already-framed payloads without interpreting text contents. Use
/// [`Message`] for normal application handling.
#[derive(Debug)]
pub enum RawMessage {
    /// Text message bytes, not UTF-8 validated
    Text(Bytes),
    /// Binary message bytes
    Binary(Bytes),
    /// Ping control frame
    Ping(Bytes),
    /// Pong control frame
    Pong(Bytes),
    /// Close message
    Close(Option<CloseReason>),
}

/// A message as a mathematical value.
pub enum MessageView {
    Text(Seq<u8>),
    Binary(Seq<u8>),
    Ping(Seq<u8>),
    Pong(Seq<u8>),
    Close(Option<(u16, Seq<char>)>),
}

/// A close reason as a mathematical value.
pub open spec fn reason_view(reason: Option<CloseReason>) -> Option<(u16, Seq<char>)> {
    match reason {
        Some(r) => Some((r.code, r.reason@)),
        None => None,
    }
}

/// The opcode under which a message is sent.
pub open spec fn message_opcode(m: MessageView) -> OpCode {
    match m {
        MessageView::Text(_) => OpCode::Text,
        MessageView::Binary(_) => OpCode::Binary,
        MessageView::Ping(_) => OpCode::Ping,
        MessageView::Pong(_) => OpCode::Pong,
        MessageView::Close(_) => OpCode::Close,
    }
}

/// The payload under which a message is sent.
pub open spec fn message_payload(m: MessageView) -> Seq<u8> {
    match m {
        MessageView::Text(b) => b,
        MessageView::Binary(b) => b,
        MessageView::Ping(b) => b,
        MessageView::Pong(b) => b,
        MessageView::Close(reason) => frame::close_payload(reason),
    }
}

/// The bytes that a message carries for the application: none for Close.
pub open spec fn message_data(m: MessageView) -> Seq<u8> {
    match m {
        MessageView::Close(_) => Seq::empty(),
        _ => message_payload(m),
    }
}

impl RawMessage {
    /// The message as a mathematical value.
    pub open spec fn view(&self) -> MessageView {
        match self {
            RawMessage::Text(b) => MessageView::Text(b@),
            RawMessage::Binary(b) => MessageView::Binary(b@),
            RawMessage::Ping(b) => MessageView::Ping(b@),
            RawMessage::Pong(b) => MessageView::Pong(b@),
            RawMessage::Close(r) => MessageView::Close(reason_view(*r)),
        }
    }

    /// Returns the opcode that should be used to encode this message.
    pub fn opcode(&self) -> (r: OpCode)
        ensures
            r == message_opcode(self@),
    {
        match self {
            RawMessage::Text(_) => OpCode::Text,
            RawMessage::Binary(_) => OpCode::Binary,
            RawMessage::Ping(_) => OpCode::Ping,
            RawMessage::Pong(_) => OpCode::Pong,
            RawMessage::Close(_) => OpCode::Close,
        }
    }

    /// Returns the payload bytes for data and ping/pong messages.
    pub fn as_bytes(&self) -> (r: &[u8])
        ensures
            r@ == message_data(self@),
    {
        match self {
            RawMessage::Text(b) | RawMessage::Binary(b) | RawMessage::Ping(b) | RawMessage::Pong(
                b,
            ) => b,
            RawMessage::Close(_) => &[],
        }
    }

    /// Converts this raw message into its payload bytes.
    pub fn into_bytes(self) -> (r: Bytes)
        ensures
            r@ == message_data(self@),
    {
        match self {
            RawMessage::Text(b) | RawMessage::Binary(b) | RawMessage::Ping(b) | RawMessage::Pong(
                b,
            ) => b,
            RawMessage::Close(_) => Bytes::new(),
        }
    }
}

impl Clone for RawMessage {
    fn clone(&self) -> (r: Self)
        ensures
            r@ == self@,
    {
        match self {
            RawMessage::Text(b) => RawMessage::Text(b.clone()),
            RawMessage::Binary(b) => RawMessage::Binary(b.clone()),
            RawMessage::Ping(b) => RawMessage::Ping(b.clone()),
            RawMessage::Pong(b) => RawMessage::Pong(b.clone()),
            RawMessage::Close(Some(r)) => RawMessage::Close(Some(r.clone())),
            RawMessage::Close(None) => RawMessage::Close(None),
        }
    }
}

impl Clone for Message {
    fn clone(&self) -> (r: Self)
        ensures
            r@ == self@,
    {
        match self {
            Message::Text(b) => Message::Text(b.clone()),
            Message::Binary(b) => Message::Binary(b.clone()),
            Message::Ping(b) => Message::Ping(b.clone()),
            Message::Pong(b) => Message::Pong(b.clone()),
            Message::Close(Some(r)) => Message::Close(Some(r.clone())),
            Message::Close(None) => Message::Close(None),
        }
    }
}

impl Message {
    /// The message as a mathematical value.
    pub open spec fn view(&self) -> MessageView {
        match self {
            Message::Text(b) => MessageView::Text(b@),
            Message::Binary(b) => MessageView::Binary(b@),
            Message::Ping(b) => MessageView::Ping(b@),
            Message::Pong(b) => MessageView::Pong(b@),
            Message::Close(r) => MessageView::Close(reason_view(*r)),
        }
    }

    /// Create a text message from a string
    pub fn text<T: Into<String>>(s: T) -> (r: Self)
        ensures
            exists|text: String|
                call_ensures(<T as Into<String>>::into, (s,), text) && r@ == MessageView::Text(
                    encode_utf8(text@),
                ),
    {
        let text: String = s.into();
        let ghost t = text;
        let r = Message::Text(buffer::bytes_from_string(text));
        assert(call_ensures(<T as Into<String>>::into, (s,), t) && r@ == MessageView::Text(
            encode_utf8(t@),
        ));
        r
    }

    /// Create a binary message
    pub fn binary<T: Into<Bytes>>(data: T) -> (r: Self)
        ensures
            r matches Message::Binary(b) && call_ensures(<T as Into<Bytes>>::into, (data,), b),
    {
        Message::Binary(data.into())
    }

    /// Create a ping message
    pub fn ping<T: Into<Bytes>>(data: T) -> (r: Self)
        ensures
            r matches Message::Ping(b) && call_ensures(<T as Into<Bytes>>::into, (data,), b),
    {
        Message::Ping(data.into())
    }

    /// Create a pong message
    pub fn pong<T: Into<Bytes>>(data: T) -> (r: Self)
        ensures
            r matches Message::Pong(b) && call_ensures(<T as Into<Bytes>>::into, (data,), b),
    {
        Message::Pong(data.into())
    }

    /// Check if this is a close message
    pub fn is_close(&self) -> (r: bool)
        ensures
            r == (*self is Close),
    {
        match self {
            Message::Close(_) => true,
            _ => false,
        }
    }

    /// Check if this is a text message
    pub fn is_text(&self) -> (r: bool)
        ensures
            r == (*self is Text),
    {
        match self {
            Message::Text(_) => true,
            _ => false,
        }
    }

    /// Check if this is a binary message
    pub fn is_binary(&self) -> (r: bool)
        ensures
            r == (*self is Binary),
    {
        match self {
            Message::Binary(_) => true,
            _ => false,
        }
    }

    /// Check if this is a ping message
    pub fn is_ping(&self) -> (r: bool)
        ensures
            r == (*self is Ping),
    {
        match self {
            Message::Ping(_) => true,
            _ => false,
        }
    }

    /// Check if this is a pong message
    pub fn is_pong(&self) -> (r: bool)
        ensures
            r == (*self is Pong),
    {
        match self {
            Message::Pong(_) => true,
            _ => false,
        }
    }

    /// Check if this is a control message
    pub fn is_control(&self) -> (r: bool)
        ensures
            r == frame::control(message_opcode(self@)),
    {
        match self {
            Message::Ping(_) | Message::Pong(_) | Message::Close(_) => true,
            _ => false,
        }
    }

    /// Get message as text (returns None for non-text or invalid UTF-8 messages)
    ///
    /// This is zero-copy - it returns a reference to the underlying bytes.
    /// Publicly constructed Text payloads are checked before returning a string.
    pub fn as_text(&self) -> (r: Option<&str>)
        ensures
            match r {
                Some(s) => self@ == MessageView::Text(s.spec_bytes()),
                None => self@ matches MessageView::Text(b) ==> !valid_utf8(b),
            },
    {
        match self {
            Message::Text(b) => utf8::checked_str(b),
            _ => None,
        }
    }

    /// Get message as bytes
    pub fn as_bytes(&self) -> (r: &[u8])
        ensures
            r@ == message_data(self@),
    {
        match self {
            Message::Text(b) => b,
            Message::Binary(b) => b,
            Message::Ping(b) => b,
            Message::Pong(b) => b,
            Message::Close(_) => &[],
        }
    }

    /// Convert to text message (allocates a String)
    ///
    /// Returns None for non-text or invalid UTF-8 messages.
    pub fn into_text(self) -> (r: Option<String>)
        ensures
            match r {
                Some(s) => self@ == MessageView::Text(encode_utf8(s@)),
                None => self@ matches MessageView::Text(b) ==> !valid_utf8(b),
            },
    {
        match self {
            Message::Text(b) => match utf8::checked_str(&b) {
                Some(s) => Some(s.to_owned()),
                None => None,
            },
            _ => None,
        }
    }

    /// Get the underlying Bytes for text messages (zero-copy)
    ///
    /// Returns None for non-text messages.
    pub fn text_bytes(&self) -> (r: Option<&Bytes>)
        ensures
            match r {
                Some(b) => *self == Message::Text(*b),
                None => !(*self is Text),
            },
    {
        match self {
            Message::Text(b) => Some(b),
            _ => None,
        }
    }

    /// Convert to binary data
    pub fn into_bytes(self) -> (r: Bytes)
        ensures
            r@ == message_data(self@),
    {
        match self {
            Message::Text(b) => b,
            Message::Binary(b) => b,
            Message::Ping(b) => b,
            Message::Pong(b) => b,
            Message::Close(_) => Bytes::new(),
        }
    }
}

impl vstd::std_specs::convert::FromSpecImpl<String> for Message {
    open spec fn obeys_from_spec() -> bool {
        false
    }

    open spec fn from_spec(v: String) -> Self {
        arbitrary()
    }
}

impl From<String> for Message {
    fn from(s: String) -> (r: Self)
        ensures
            r@ == MessageView::Text(encode_utf8(s@)),
    {
        Message::Text(buffer::bytes_from_string(s))
    }
}

impl vstd::std_specs::convert::FromSpecImpl<&str> for Message {
    open spec fn obeys_from_spec() -> bool {
        false
    }

    open spec fn from_spec(v: &str) -> Self {
        arbitrary()
    }
}

impl From<&str> for Message {
    fn from(s: &str) -> (r: Self)
        ensures
            r@ == MessageView::Text(s.spec_bytes()),
    {
        Message::Text(Bytes::copy_from_slice(s.as_bytes()))
    }
}

impl vstd::std_specs::convert::FromSpecImpl<Vec<u8>> for Message {
    open spec fn obeys_from_spec() -> bool {
        false
    }

    open spec fn from_spec(v: Vec<u8>) -> Self {
        arbitrary()
    }
}

impl From<Vec<u8>> for Message {
    fn from(v: Vec<u8>) -> (r: Self)
        ensures
            r@ == MessageView::Binary(v@),
    {
        Message::Binary(buffer::bytes_from_vec(v))
    }
}

impl vstd::std_specs::convert::FromSpecImpl<Bytes> for Message {
    open spec fn obeys_from_spec() -> bool {
        true
    }

    open spec fn from_spec(v: Bytes) -> Self {
        Message::Binary(v)
    }
}

impl From<Bytes> for Message {
    fn from(b: Bytes) -> (r: Self)
        ensures
            r == Message::Binary(b),
    {
        Message::Binary(b)
    }
}

impl vstd::std_specs::convert::FromSpecImpl<&[u8]> for Message {
    open spec fn obeys_from_spec() -> bool {
        false
    }

    open spec fn from_spec(v: &[u8]) -> Self {
        arbitrary()
    }
}

impl From<&[u8]> for Message {
    fn from(b: &[u8]) -> (r: Self)
        ensures
            r@ == MessageView::Binary(b@),
    {
        Message::Binary(Bytes::copy_from_slice(b))
    }
}

/// Protocol state
#[derive(Debug, Clone, Copy, PartialEq, Eq, Structural)]
pub enum State {
    /// Normal operation
    Open,
    /// Close frame sent, waiting for response
    CloseSent,
    /// Close frame received, sent response
    CloseReceived,
    /// Connection closed
    Closed,
}

/// What a protocol handler knows, apart from the bytes of an incomplete frame.
pub struct ProtocolView {
    /// Endpoint role.
    pub role: Role,
    /// Where the closing handshake stands.
    pub state: State,
    /// The kind of the fragmented message being received, if there is one.
    pub fragment: Option<OpCode>,
    /// The payloads of its fragments so far.
    pub collected: Seq<u8>,
    /// Largest message that is put together from fragments.
    pub max_message_size: nat,
    /// The reason in the Close frame that the peer sent first.
    pub pending_close: Option<(u16, Seq<char>)>,
    /// The text that the UTF-8 validator has seen.
    pub text: Seq<u8>,
    /// How many payload bytes of the incomplete frame it has seen.
    pub checked: nat,
}

/// What a received Close payload says: a reason, or what is wrong with it.
pub open spec fn close_reason_of(payload: Seq<u8>) -> Result<Option<(u16, Seq<char>)>> {
    if payload.len() == 0 {
        Ok(None)
    } else if payload.len() == 1 {
        Err(Error::Protocol("invalid close frame payload"))
    } else {
        let code = octets::be_value(payload.take(2)) as u16;
        if !error::valid_close_code(code) {
            Err(Error::InvalidCloseCode(code))
        } else if !valid_utf8(payload.skip(2)) {
            Err(Error::InvalidUtf8)
        } else {
            Ok(Some((code, decode_utf8(payload.skip(2)))))
        }
    }
}

/// The state after a Close frame was received.
pub open spec fn after_close_received(state: State) -> State {
    match state {
        State::Open => State::CloseReceived,
        State::CloseSent => State::Closed,
        _ => state,
    }
}

/// A received Close frame.
pub open spec fn on_close(m: ProtocolView, payload: Seq<u8>) -> (
    ProtocolView,
    Result<Option<MessageView>>,
) {
    match close_reason_of(payload) {
        Err(e) => (m, Err(e)),
        Ok(reason) => (
            ProtocolView {
                state: after_close_received(m.state),
                pending_close: if m.state is Open {
                    reason
                } else {
                    m.pending_close
                },
                ..m
            },
            Ok(Some(MessageView::Close(reason))),
        ),
    }
}

/// `payload` without the bytes that the UTF-8 validator has seen already.
pub open spec fn unchecked_part(payload: Seq<u8>, checked: nat) -> Seq<u8> {
    if checked <= payload.len() {
        payload.skip(checked as int)
    } else {
        Seq::empty()
    }
}

/// The first frame of a fragmented message, `checked` bytes of which the
/// validator has seen.
pub open spec fn on_first_fragment(
    m: ProtocolView,
    opcode: OpCode,
    payload: Seq<u8>,
    checked: nat,
) -> (ProtocolView, Result<Option<MessageView>>) {
    let text = if opcode is Text {
        (if checked == 0 {
            Seq::empty()
        } else {
            m.text
        }) + unchecked_part(payload, checked)
    } else {
        m.text
    };
    if payload.len() > m.max_message_size {
        (m, Err(Error::MessageTooLarge))
    } else if opcode is Text && !utf8::utf8_prefix(text) {
        (ProtocolView { text, ..m }, Err(Error::InvalidUtf8))
    } else {
        (ProtocolView { fragment: Some(opcode), collected: payload, text, ..m }, Ok(None))
    }
}

/// A further frame of a fragmented message.
pub open spec fn on_continuation(m: ProtocolView, fin: bool, payload: Seq<u8>, checked: nat) -> (
    ProtocolView,
    Result<Option<MessageView>>,
) {
    let text = if m.fragment == Some(OpCode::Text) {
        m.text + unchecked_part(payload, checked)
    } else {
        m.text
    };
    let all = m.collected + payload;
    if m.fragment is None {
        (m, Err(Error::Protocol("unexpected continuation frame")))
    } else if all.len() > m.max_message_size {
        (m, Err(Error::MessageTooLarge))
    } else if m.fragment == Some(OpCode::Text) && !utf8::utf8_prefix(text) {
        (ProtocolView { text, ..m }, Err(Error::InvalidUtf8))
    } else if !fin {
        (ProtocolView { collected: all, text, ..m }, Ok(None))
    } else {
        (
            ProtocolView { fragment: None, collected: Seq::empty(), text, ..m },
            if m.fragment == Some(OpCode::Text) {
                if valid_utf8(text) {
                    Ok(Some(MessageView::Text(all)))
                } else {
                    Err(Error::InvalidUtf8)
                }
            } else if m.fragment == Some(OpCode::Binary) {
                Ok(Some(MessageView::Binary(all)))
            } else {
                Err(Error::Protocol("invalid fragment opcode"))
            },
        )
    }
}

/// A text message in one frame, `checked` bytes of which the validator has seen.
pub open spec fn on_whole_text(m: ProtocolView, payload: Seq<u8>, checked: nat) -> (
    ProtocolView,
    Result<Option<MessageView>>,
) {
    let text = if checked == 0 {
        m.text
    } else {
        m.text + unchecked_part(payload, checked)
    };
    let valid = if checked == 0 {
        valid_utf8(payload)
    } else {
        valid_utf8(text)
    };
    if payload.len() > m.max_message_size {
        (m, Err(Error::MessageTooLarge))
    } else {
        (
            ProtocolView { text, ..m },
            if valid {
                Ok(Some(MessageView::Text(payload)))
            } else {
                Err(Error::InvalidUtf8)
            },
        )
    }
}

/// What a received frame does: the new knowledge, and the message that it
/// completes or the error that it is.
pub open spec fn on_frame(m: ProtocolView, h: HeaderView, payload: Seq<u8>) -> (
    ProtocolView,
    Result<Option<MessageView>>,
) {
    let next = ProtocolView { checked: 0, ..m };
    match h.opcode {
        OpCode::Ping => (next, Ok(Some(MessageView::Ping(payload)))),
        OpCode::Pong => (next, Ok(Some(MessageView::Pong(payload)))),
        OpCode::Close => on_close(next, payload),
        OpCode::Continuation => on_continuation(next, h.fin, payload, m.checked),
        OpCode::Text => if m.fragment is Some {
            (next, Err(Error::Protocol("expected continuation frame")))
        } else if h.fin {
            on_whole_text(next, payload, m.checked)
        } else {
            on_first_fragment(next, OpCode::Text, payload, m.checked)
        },
        OpCode::Binary => if m.fragment is Some {
            (next, Err(Error::Protocol("expected continuation frame")))
        } else if h.fin {
            (
                next,
                if payload.len() > m.max_message_size {
                    Err(Error::MessageTooLarge)
                } else {
                    Ok(Some(MessageView::Binary(payload)))
                },
            )
        } else {
            on_first_fragment(next, OpCode::Binary, payload, 0)
        },
    }
}

/// What the part of a frame that has arrived does, where `w` are its bytes on
/// the wire: text is validated as it comes.
pub open spec fn on_partial(m: ProtocolView, w: Seq<u8>, rules: FrameRules) -> (
    ProtocolView,
    Result<()>,
) {
    let h = frame::header_of(w);
    let arrived = frame::payload_so_far(w);
    let is_text = (h.opcode is Text && m.fragment is None) || (h.opcode is Continuation
        && m.fragment == Some(OpCode::Text));
    let text = (if m.checked == 0 && h.opcode is Text {
        Seq::empty()
    } else {
        m.text
    }) + unchecked_part(arrived, m.checked);
    if !frame::header_ready(w, rules) || h.rsv1 || !is_text || arrived.len() <= m.checked {
        (m, Ok(()))
    } else if utf8::utf8_prefix(text) {
        (ProtocolView { text, checked: arrived.len(), ..m }, Ok(()))
    } else {
        (ProtocolView { text, ..m }, Err(Error::InvalidUtf8))
    }
}

/// What comes of a stretch of received bytes.
pub struct Run {
    /// What the handler knows afterwards.
    pub model: ProtocolView,
    /// The bytes on the wire that are not part of a complete frame.
    pub rest: Seq<u8>,
    /// The messages received, in order.
    pub messages: Seq<MessageView>,
    /// Whether a fragment was accepted that completes no message.
    pub fragment: bool,
    /// How the stretch ended.
    pub result: Result<()>,
}

/// A message that may be missing, as a sequence.
pub open spec fn optional(msg: Option<MessageView>) -> Seq<MessageView> {
    match msg {
        Some(m) => seq![m],
        None => Seq::empty(),
    }
}

/// What comes of the bytes `w` from the start of a frame. `rules` hold for the
/// first frame, `next` for the others.
pub open spec fn run(m: ProtocolView, w: Seq<u8>, rules: FrameRules, next: FrameRules) -> Run
    decreases w.len(),
{
    match frame::decode(w, rules) {
        frame::Decoded::Invalid(e) => Run {
            model: m,
            rest: w,
            messages: Seq::empty(),
            fragment: false,
            result: Err(e),
        },
        frame::Decoded::Incomplete => Run {
            model: on_partial(m, w, rules).0,
            rest: w,
            messages: Seq::empty(),
            fragment: false,
            result: on_partial(m, w, rules).1,
        },
        frame::Decoded::Complete { header, payload, consumed } => {
            let after = on_frame(m, header, payload);
            match after.1 {
                Err(e) => Run {
                    model: after.0,
                    rest: w.skip(consumed as int),
                    messages: Seq::empty(),
                    fragment: false,
                    result: Err(e),
                },
                Ok(msg) => {
                    let tail = run(after.0, w.skip(consumed as int), next, next);
                    Run {
                        messages: optional(msg) + tail.messages,
                        fragment: msg is None || tail.fragment,
                        ..tail
                    }
                },
            }
        },
    }
}

/// The messages in a vector as mathematical values.
pub open spec fn message_views(s: Seq<Message>) -> Seq<MessageView> {
    s.map_values(|m: Message| m@)
}

/// WebSocket protocol handler
///
/// Handles frame parsing, message assembly, and control frame processing.
pub struct Protocol {
    /// Endpoint role
    role: Role,
    /// Current state
    state: State,
    /// Frame parser
    parser: FrameParser,
    /// Fragment buffer for message reassembly
    fragment_buf: BytesMut,
    /// Opcode of current fragmented message
    fragment_opcode: Option<OpCode>,
    /// Maximum message size
    max_message_size: usize,
    /// Pending close reason (if we received a close frame)
    pending_close: Option<CloseReason>,
    /// Incremental UTF-8 validator for the text message currently being received
    utf8: Utf8Stream,
    /// Payload bytes of the frame currently being received that were already
    /// fed to `utf8` before the frame completed
    partial_checked: usize,
}

impl Protocol {
    /// What the handler knows, apart from the bytes of an incomplete frame.
    pub closed spec fn view(&self) -> ProtocolView {
        ProtocolView {
            role: self.role,
            state: self.state,
            fragment: self.fragment_opcode,
            collected: self.fragment_buf@,
            max_message_size: self.max_message_size as nat,
            pending_close: reason_view(self.pending_close),
            text: self.utf8@,
            checked: self.partial_checked as nat,
        }
    }

    /// The frame parser, which holds the header bytes of an incomplete frame.
    pub closed spec fn frames(&self) -> FrameParser {
        self.parser
    }

    /// The parts agree with each other.
    pub closed spec fn wf(&self) -> bool {
        &&& self.parser.wf()
        &&& self.utf8.wf()
        &&& self.partial_checked <= self.parser.ready()
    }

    /// What the parser demands of the frame after the current one.
    pub open spec fn next_rules(&self) -> FrameRules {
        FrameRules {
            max_frame_size: self.frames().limits().0,
            expect_masked: self.frames().limits().1,
            allow_rsv1: self.frames().limits().2,
        }
    }

    /// What comes of the bytes in `buf`, after those received before.
    pub open spec fn run_on(&self, buf: Seq<u8>) -> Run {
        if buf.len() == 0 {
            Run {
                model: self@,
                rest: self.frames().wire(buf),
                messages: Seq::empty(),
                fragment: false,
                result: Ok(()),
            }
        } else {
            run(self@, self.frames().wire(buf), self.frames().rules(), self.next_rules())
        }
    }

    /// Whether `buf` can be the caller's buffer: it still holds the payload
    /// bytes that earlier calls left in it, and everything received fits in memory.
    pub open spec fn accepts(&self, buf: Seq<u8>) -> bool {
        &&& buf.len() > 0 ==> self.frames().ready() <= buf.len()
        &&& buffer::allocatable(self@.collected.len() + buf.len())
    }

    /// Check if `len` bytes can be handed over, those left by earlier calls among them
    pub fn can_accept(&self, len: usize) -> (r: bool)
        ensures
            forall|buf: Seq<u8>| buf.len() == len ==> r == #[trigger] self.accepts(buf),
    {
        let limit: usize = isize::MAX as usize;
        (len == 0 || self.parser.ready_len() <= len) && self.fragment_buf.len() <= limit && len
            <= limit - self.fragment_buf.len()
    }

    /// Create a new protocol handler
    pub fn new(role: Role, max_frame_size: usize, max_message_size: usize) -> (r: Self)
        ensures
            r.wf(),
            r@ == new_view(role, max_message_size as nat),
            r.frames().at_start(),
            r.frames().limits() == (max_frame_size as nat, role is Server, false),
    {
        Protocol {
            role,
            state: State::Open,
            parser: FrameParser::new(max_frame_size, role == Role::Server),
            fragment_buf: BytesMut::new(),
            fragment_opcode: None,
            max_message_size,
            pending_close: None,
            utf8: Utf8Stream::new(),
            partial_checked: 0,
        }
    }

    /// Check if connection is closed
    pub fn is_closed(&self) -> (r: bool)
        ensures
            r == (self@.state is Closed),
    {
        self.state == State::Closed
    }

    /// Check if we're in the closing handshake
    pub fn is_closing(&self) -> (r: bool)
        ensures
            r == (self@.state is CloseSent || self@.state is CloseReceived),
    {
        self.state == State::CloseSent || self.state == State::CloseReceived
    }

    /// Enable compression support in the frame parser
    pub fn enable_compression(&mut self)
        ensures
            old(self).wf() ==> final(self).wf(),
            final(self)@ == old(self)@,
            final(self).frames().limits() == (
                old(self).frames().limits().0,
                old(self).frames().limits().1,
                true,
            ),
            final(self).frames().at_start() == old(self).frames().at_start(),
            forall|buf: Seq<u8>| #[trigger]
                final(self).frames().wire(buf) == old(self).frames().wire(buf),
    {
        self.parser.set_compression(true);
    }
}

/// What a new handler knows.
pub open spec fn new_view(role: Role, max_message_size: nat) -> ProtocolView {
    ProtocolView {
        role,
        state: State::Open,
        fragment: None,
        collected: Seq::empty(),
        max_message_size,
        pending_close: None,
        text: Seq::empty(),
        checked: 0,
    }
}

/// The outcome of a frame as a mathematical value.
pub open spec fn outcome_view(r: Result<Option<Message>>) -> Result<Option<MessageView>> {
    match r {
        Ok(Some(m)) => Ok(Some(m@)),
        Ok(None) => Ok(None),
        Err(e) => Err(e),
    }
}

/// The part of `payload` from `checked` on.
fn rest_of(payload: &[u8], checked: usize) -> (r: &[u8])
    ensures
        r@ == unchecked_part(payload@, checked as nat),
{
    let from: usize = if checked <= payload.len() {
        checked
    } else {
        payload.len()
    };
    let (_head, tail) = payload.split_at(from);
    assert(tail@ =~= unchecked_part(payload@, checked as nat));
    tail
}

/// Reads the payload of a Close frame.
pub(crate) fn parse_close_payload(payload: &[u8]) -> (r: Result<Option<CloseReason>>)
    ensures
        match r {
            Ok(reason) => close_reason_of(payload@) == Ok::<_, Error>(reason_view(reason)),
            Err(e) => close_reason_of(payload@) == Err::<Option<(u16, Seq<char>)>, _>(e),
        },
{
    if payload.len() >= 2 {
        let (head, text) = payload.split_at(2);
        let code: u16 = octets::u16_from_be(head[0], head[1]);
        proof {
            assert(seq![head@[0], head@[1]] =~= payload@.take(2));
            assert(text@ =~= payload@.skip(2));
        }
        // Validate close code
        if !CloseReason::is_valid_code(code) {
            return Err(Error::InvalidCloseCode(code));
        }
        if !validate_utf8(text) {
            return Err(Error::InvalidUtf8);
        }
        Ok(Some(CloseReason { code, reason: utf8::to_lossy_string(text) }))
    } else if payload.len() == 0 {
        Ok(None)
    } else {
        // Close frame with 1 byte payload is invalid
        Err(Error::Protocol("invalid close frame payload"))
    }
}

impl Protocol {
    /// Handle close frame
    fn handle_close(&mut self, payload: &[u8]) -> (r: Result<Option<Message>>)
        ensures
            (final(self)@, outcome_view(r)) == on_close(old(self)@, payload@),
            final(self).parser == old(self).parser,
            final(self).utf8 == old(self).utf8,
    {
        let reason = match parse_close_payload(payload) {
            Ok(reason) => reason,
            Err(e) => {
                return Err(e);
            },
        };
        if self.state == State::Open {
            self.state = State::CloseReceived;
            self.pending_close = match &reason {
                Some(r) => Some(r.clone()),
                None => None,
            };
        } else if self.state == State::CloseSent {
            self.state = State::Closed;
        }
        Ok(Some(Message::Close(reason)))
    }

    /// Start a fragmented message
    ///
    /// `prevalidated` leading bytes of a text payload were already fed to the
    /// incremental validator while the frame was incomplete.
    fn start_fragment(&mut self, opcode: OpCode, payload: Bytes, prevalidated: usize) -> (r:
        Result<Option<Message>>)
        requires
            old(self).utf8.wf(),
            buffer::allocatable(payload@.len()),
        ensures
            (final(self)@, outcome_view(r)) == on_first_fragment(
                old(self)@,
                opcode,
                payload@,
                prevalidated as nat,
            ),
            final(self).parser == old(self).parser,
            final(self).utf8.wf(),
            r matches Ok(m) ==> m is None,
    {
        if payload.len() > self.max_message_size {
            return Err(Error::MessageTooLarge);
        }
        // Validate the first fragment of a text message incrementally

        if opcode == OpCode::Text {
            if prevalidated == 0 {
                self.utf8.reset();
            }
            if !self.utf8.push(rest_of(&payload, prevalidated)) {
                return Err(Error::InvalidUtf8);
            }
        }
        self.fragment_opcode = Some(opcode);
        self.fragment_buf.clear();
        self.fragment_buf.extend_from_slice(&payload);
        assert(self.fragment_buf@ =~= payload@);
        Ok(None)
    }

    /// Handle text frame
    fn handle_text(&mut self, fin: bool, payload: Bytes, prevalidated: usize) -> (r: Result<
        Option<Message>,
    >)
        requires
            old(self).utf8.wf(),
            old(self)@.fragment is None,
            buffer::allocatable(payload@.len()),
        ensures
            (final(self)@, outcome_view(r)) == (if fin {
                on_whole_text(old(self)@, payload@, prevalidated as nat)
            } else {
                on_first_fragment(old(self)@, OpCode::Text, payload@, prevalidated as nat)
            }),
            final(self).parser == old(self).parser,
            final(self).utf8.wf(),
    {
        if fin {
            // Complete message in one frame
            if payload.len() > self.max_message_size {
                return Err(Error::MessageTooLarge);
            }
            let valid: bool = if prevalidated == 0 {
                validate_utf8(&payload)
            } else {
                let rest = rest_of(&payload, prevalidated);
                let possible = self.utf8.push(rest);
                proof {
                    assert(self.utf8@ + Seq::<u8>::empty() =~= self.utf8@);
                }
                possible && self.utf8.finish()
            };
            if !valid {
                return Err(Error::InvalidUtf8);
            }
            Ok(Some(Message::Text(payload)))
        } else {
            // Start of fragmented message
            self.start_fragment(OpCode::Text, payload, prevalidated)
        }
    }

    /// Handle continuation frame
    fn handle_continuation(&mut self, fin: bool, payload: Bytes, prevalidated: usize) -> (r: Result<
        Option<Message>,
    >)
        requires
            old(self).utf8.wf(),
            buffer::allocatable(old(self)@.collected.len() + payload@.len()),
        ensures
            (final(self)@, outcome_view(r)) == on_continuation(
                old(self)@,
                fin,
                payload@,
                prevalidated as nat,
            ),
            final(self).parser == old(self).parser,
            final(self).utf8.wf(),
    {
        let opcode = match self.fragment_opcode {
            Some(opcode) => opcode,
            None => {
                return Err(Error::Protocol("unexpected continuation frame"));
            },
        };

        // Check total size
        let new_size: usize = self.fragment_buf.len() + payload.len();
        if new_size > self.max_message_size {
            return Err(Error::MessageTooLarge);
        }
        // Text fragments are validated incrementally: only the bytes that were
        // not already checked while the frame was incomplete are scanned, so a
        // message costs one linear pass no matter how many fragments it has.

        if opcode == OpCode::Text {
            if !self.utf8.push(rest_of(&payload, prevalidated)) {
                return Err(Error::InvalidUtf8);
            }
        }
        self.fragment_buf.extend_from_slice(&payload);
        if fin {
            // Complete the fragmented message
            self.complete_fragment(opcode)
        } else {
            Ok(None)
        }
    }

    /// Complete a fragmented message
    fn complete_fragment(&mut self, opcode: OpCode) -> (r: Result<Option<Message>>)
        requires
            old(self).utf8.wf(),
        ensures
            final(self)@ == (ProtocolView {
                fragment: None,
                collected: Seq::empty(),
                ..old(self)@
            }),
            outcome_view(r) == (if opcode is Text {
                if valid_utf8(old(self)@.text) {
                    Ok(Some(MessageView::Text(old(self)@.collected)))
                } else {
                    Err(Error::InvalidUtf8)
                }
            } else if opcode is Binary {
                Ok(Some(MessageView::Binary(old(self)@.collected)))
            } else {
                Err(Error::Protocol("invalid fragment opcode"))
            }),
            final(self).parser == old(self).parser,
            final(self).utf8 == old(self).utf8,
    {
        self.fragment_opcode = None;
        let data = self.fragment_buf.split().freeze();
        match opcode {
            OpCode::Text => {
                // Every fragment was validated as it arrived; only an incomplete
                // trailing sequence can still make the message invalid.
                if !self.utf8.finish() {
                    return Err(Error::InvalidUtf8);
                }
                Ok(Some(Message::Text(data)))
            },
            OpCode::Binary => Ok(Some(Message::Binary(data))),
            _ => Err(Error::Protocol("invalid fragment opcode")),
        }
    }

    /// Handle a single parsed frame
    ///
    /// `prevalidated` is the number of leading payload bytes that were already
    /// UTF-8 validated while the frame was still incomplete.
    fn handle_frame(&mut self, frame: Frame, prevalidated: usize) -> (r: Result<Option<Message>>)
        requires
            old(self).utf8.wf(),
            old(self)@.checked == 0,
            buffer::allocatable(old(self)@.collected.len() + frame.payload@.len()),
        ensures
            (final(self)@, outcome_view(r)) == on_frame(
                ProtocolView { checked: prevalidated as nat, ..old(self)@ },
                frame.header@,
                frame.payload@,
            ),
            final(self).parser == old(self).parser,
            final(self).utf8.wf(),
    {
        let fin = frame.header.fin;
        match frame.header.opcode {
            OpCode::Continuation => self.handle_continuation(fin, frame.payload, prevalidated),
            OpCode::Text => {
                if self.fragment_opcode.is_some() {
                    return Err(Error::Protocol("expected continuation frame"));
                }
                self.handle_text(fin, frame.payload, prevalidated)
            },
            OpCode::Binary => {
                if self.fragment_opcode.is_some() {
                    return Err(Error::Protocol("expected continuation frame"));
                }
                if fin {
                    if frame.payload.len() > self.max_message_size {
                        return Err(Error::MessageTooLarge);
                    }
                    Ok(Some(Message::Binary(frame.payload)))
                } else {
                    self.start_fragment(OpCode::Binary, frame.payload, 0)
                }
            },
            OpCode::Close => self.handle_close(&frame.payload),
            OpCode::Ping => Ok(Some(Message::Ping(frame.payload))),
            OpCode::Pong => Ok(Some(Message::Pong(frame.payload))),
        }
    }

    /// Validate the already-received prefix of an incomplete text frame.
    ///
    /// Called when the parser needs more data. This makes invalid UTF-8 fail as
    /// soon as it arrives and keeps text validation to a single linear pass
    /// however the message is chopped.
    fn prevalidate_partial_text(
        &mut self,
        buf: &BytesMut,
        Ghost(w): Ghost<Seq<u8>>,
        Ghost(rules): Ghost<FrameRules>,
    ) -> (r: Result<()>)
        requires
            old(self).wf(),
            if frame::header_ready(w, rules) {
                &&& frame::pending_matches(old(self).parser.pending(), w, old(self).parser.ready())
                &&& old(self).parser.ready() == buf@.len()
                &&& buf@ == frame::payload_so_far(w)
            } else {
                old(self).parser.pending() is None
            },
        ensures
            (final(self)@, r) == on_partial(old(self)@, w, rules),
            final(self).parser == old(self).parser,
            final(self).wf(),
    {
        let pending = match self.parser.pending_payload() {
            Some(pending) => pending,
            None => {
                return Ok(());
            },
        };
        if pending.rsv1 || pending.ready <= self.partial_checked {
            return Ok(());
        }
        let is_text: bool = match pending.opcode {
            OpCode::Text => self.fragment_opcode.is_none(),
            OpCode::Continuation => match self.fragment_opcode {
                Some(opcode) => opcode == OpCode::Text,
                None => false,
            },
            _ => false,
        };
        if !is_text {
            return Ok(());
        }
        if self.partial_checked == 0 && pending.opcode == OpCode::Text {
            self.utf8.reset();
        }
        let fresh = rest_of(buf, self.partial_checked);
        if !self.utf8.push(fresh) {
            return Err(Error::InvalidUtf8);
        }
        self.partial_checked = pending.ready;
        Ok(())
    }
}

impl Protocol {
    /// Process incoming data and return complete messages
    ///
    /// This may return multiple messages if the buffer contains multiple frames.
    /// Control frames are processed inline and may be interspersed with data frames.
    pub fn process(&mut self, buf: &mut BytesMut) -> (r: Result<Vec<Message>>)
        requires
            old(self).wf(),
            old(self).accepts(old(buf)@),
        ensures
            final(self).wf(),
            final(self)@ == old(self).run_on(old(buf)@).model,
            final(self).frames().wire(final(buf)@) == old(self).run_on(old(buf)@).rest,
            final(self).frames().limits() == old(self).frames().limits(),
            final(buf)@.len() > 0 ==> final(self).frames().ready() <= final(buf)@.len(),
            match r {
                Ok(messages) => {
                    &&& old(self).run_on(old(buf)@).result is Ok
                    &&& message_views(messages@) == old(self).run_on(old(buf)@).messages
                },
                Err(e) => old(self).run_on(old(buf)@).result == Err::<(), Error>(e),
            },
    {
        let mut messages: Vec<Message> = Vec::new();
        match self.process_into(buf, &mut messages) {
            Ok(()) => Ok(messages),
            Err(e) => Err(e),
        }
    }

    /// Process incoming data into a reusable message buffer
    ///
    /// This variant allows reusing a `Vec<Message>` across calls to avoid
    /// allocations. After an error it holds the messages that came before.
    pub fn process_into(&mut self, buf: &mut BytesMut, messages: &mut Vec<Message>) -> (r: Result<
        (),
    >)
        requires
            old(self).wf(),
            old(self).accepts(old(buf)@),
        ensures
            final(self).wf(),
            final(self)@ == old(self).run_on(old(buf)@).model,
            final(self).frames().wire(final(buf)@) == old(self).run_on(old(buf)@).rest,
            final(self).frames().limits() == old(self).frames().limits(),
            final(buf)@.len() > 0 ==> final(self).frames().ready() <= final(buf)@.len(),
            message_views(final(messages)@) == old(self).run_on(old(buf)@).messages,
            r == old(self).run_on(old(buf)@).result,
    {
        let mut accepted_fragment: bool = false;
        self.process_into_with_activity(buf, messages, &mut accepted_fragment)
    }

    /// Like [`Protocol::process_into`], and tells whether a fragment was
    /// accepted that completes no message.
    #[verifier::rlimit(60)]
    pub fn process_into_with_activity(
        &mut self,
        buf: &mut BytesMut,
        messages: &mut Vec<Message>,
        accepted_fragment: &mut bool,
    ) -> (r: Result<()>)
        requires
            old(self).wf(),
            old(self).accepts(old(buf)@),
        ensures
            final(self).wf(),
            final(self)@ == old(self).run_on(old(buf)@).model,
            final(self).frames().wire(final(buf)@) == old(self).run_on(old(buf)@).rest,
            final(self).frames().limits() == old(self).frames().limits(),
            final(buf)@.len() > 0 ==> final(self).frames().ready() <= final(buf)@.len(),
            message_views(final(messages)@) == old(self).run_on(old(buf)@).messages,
            *final(accepted_fragment) == (*old(accepted_fragment) || old(self).run_on(
                old(buf)@,
            ).fragment),
            r == old(self).run_on(old(buf)@).result,
    {
        messages.clear();
        let ghost whole = self.run_on(buf@);
        let ghost next = self.next_rules();
        let ghost limits = self.frames().limits();
        proof {
            assert(message_views(messages@) =~= Seq::<MessageView>::empty());
            assert(message_views(messages@) + self.run_on(buf@).messages
                =~= self.run_on(buf@).messages);
        }
        while !buf.is_empty()
            invariant
                self.wf(),
                self.accepts(buf@),
                self.frames().limits() == limits,
                limits == old(self).frames().limits(),
                whole == old(self).run_on(old(buf)@),
                next == self.next_rules(),
                message_views(messages@) + self.run_on(buf@).messages == whole.messages,
                (*accepted_fragment || self.run_on(buf@).fragment) == (*old(accepted_fragment)
                    || whole.fragment),
                self.run_on(buf@).model == whole.model,
                self.run_on(buf@).rest == whole.rest,
                self.run_on(buf@).result == whole.result,
            decreases self.frames().wire(buf@).len(),
        {
            let ghost w = self.frames().wire(buf@);
            let ghost rules = self.frames().rules();
            let ghost before = self@;
            let ghost held_back = self.frames().ready();
            proof {
                lemma_wire_len(self.parser, buf@);
            }
            match self.parser.parse(buf) {
                Err(e) => {
                    return Err(e);
                },
                Ok(Some(frame)) => {
                    proof {
                        self.parser.lemma_at_start(buf@);
                        frame_payload_len(w, rules);
                    }
                    let prevalidated: usize = self.partial_checked;
                    self.partial_checked = 0;
                    let ghost header = frame.header@;
                    let ghost payload = frame.payload@;
                    assert(before == (ProtocolView { checked: prevalidated as nat, ..self@ }));
                    let ghost sofar = message_views(messages@);
                    match self.handle_frame(frame, prevalidated) {
                        Err(e) => {
                            return Err(e);
                        },
                        Ok(Some(msg)) => {
                            messages.push(msg);
                            proof {
                                assert(message_views(messages@) =~= sofar + seq![msg@]);
                            }
                        },
                        Ok(None) => {
                            *accepted_fragment = true;
                        },
                    }
                    proof {
                        lemma_collected_bound(before, header, payload);
                        let tail = run(self@, buf@, next, next);
                        if buf@.len() == 0 {
                            reveal_with_fuel(run, 2);
                        }
                        assert(tail == self.run_on(buf@));
                        assert(message_views(messages@) + tail.messages =~= whole.messages);
                    }
                },
                Ok(None) => {
                    let r = self.prevalidate_partial_text(buf, Ghost(w), Ghost(rules));
                    proof {
                        assert(message_views(messages@) + Seq::<MessageView>::empty()
                            =~= message_views(messages@));
                    }
                    return r;
                },
            }
        }
        proof {
            assert(message_views(messages@) + Seq::<MessageView>::empty() =~= message_views(
                messages@,
            ));
        }
        Ok(())
    }
}

/// The buffer is a part of what the parser sees.
proof fn lemma_wire_len(parser: FrameParser, buf: Seq<u8>)
    requires
        parser.wf(),
    ensures
        parser.wire(buf).len() >= buf.len(),
{
    parser.lemma_wire_holds_buffer(buf);
}

/// A frame that was read is no longer than what it was read from.
proof fn frame_payload_len(w: Seq<u8>, rules: FrameRules)
    requires
        frame::decode(w, rules) is Complete,
    ensures
        frame::decode(w, rules)->payload.len() + 2 <= frame::decode(w, rules)->consumed,
        frame::decode(w, rules)->consumed <= w.len(),
{
}

/// A frame adds at most its payload to what is collected.
proof fn lemma_collected_bound(m: ProtocolView, h: HeaderView, payload: Seq<u8>)
    ensures
        on_frame(m, h, payload).0.collected.len() <= m.collected.len() + payload.len(),
{
}

/// What a received frame does where text is not validated.
pub open spec fn on_raw_frame(m: ProtocolView, h: HeaderView, payload: Seq<u8>) -> (
    ProtocolView,
    Result<Option<MessageView>>,
) {
    let next = ProtocolView { checked: 0, ..m };
    match h.opcode {
        OpCode::Ping => (next, Ok(Some(MessageView::Ping(payload)))),
        OpCode::Pong => (next, Ok(Some(MessageView::Pong(payload)))),
        OpCode::Close => on_close(next, payload),
        OpCode::Continuation => {
            let all = m.collected + payload;
            if m.fragment is None {
                (next, Err(Error::Protocol("unexpected continuation frame")))
            } else if all.len() > m.max_message_size {
                (next, Err(Error::MessageTooLarge))
            } else if !h.fin {
                (ProtocolView { collected: all, ..next }, Ok(None))
            } else {
                (
                    ProtocolView { fragment: None, collected: Seq::empty(), ..next },
                    if m.fragment == Some(OpCode::Text) {
                        Ok(Some(MessageView::Text(all)))
                    } else if m.fragment == Some(OpCode::Binary) {
                        Ok(Some(MessageView::Binary(all)))
                    } else {
                        Err(Error::Protocol("invalid fragment opcode"))
                    },
                )
            }
        },
        OpCode::Text | OpCode::Binary => if m.fragment is Some {
            (next, Err(Error::Protocol("expected continuation frame")))
        } else if payload.len() > m.max_message_size {
            (next, Err(Error::MessageTooLarge))
        } else if h.fin {
            (
                next,
                Ok(
                    Some(
                        if h.opcode is Text {
                            MessageView::Text(payload)
                        } else {
                            MessageView::Binary(payload)
                        },
                    ),
                ),
            )
        } else {
            (ProtocolView { fragment: Some(h.opcode), collected: payload, ..next }, Ok(None))
        },
    }
}

/// What comes of the bytes `w` from the start of a frame where text is not validated.
pub open spec fn run_raw(m: ProtocolView, w: Seq<u8>, rules: FrameRules, next: FrameRules) -> Run
    decreases w.len(),
{
    match frame::decode(w, rules) {
        frame::Decoded::Invalid(e) => Run {
            model: m,
            rest: w,
            messages: Seq::empty(),
            fragment: false,
            result: Err(e),
        },
        frame::Decoded::Incomplete => Run {
            model: m,
            rest: w,
            messages: Seq::empty(),
            fragment: false,
            result: Ok(()),
        },
        frame::Decoded::Complete { header, payload, consumed } => {
            let after = on_raw_frame(m, header, payload);
            match after.1 {
                Err(e) => Run {
                    model: after.0,
                    rest: w.skip(consumed as int),
                    messages: Seq::empty(),
                    fragment: false,
                    result: Err(e),
                },
                Ok(msg) => {
                    let tail = run_raw(after.0, w.skip(consumed as int), next, next);
                    Run {
                        messages: optional(msg) + tail.messages,
                        fragment: msg is None || tail.fragment,
                        ..tail
                    }
                },
            }
        },
    }
}

/// The raw messages in a vector as mathematical values.
pub open spec fn raw_message_views(s: Seq<RawMessage>) -> Seq<MessageView> {
    s.map_values(|m: RawMessage| m@)
}

/// The outcome of a frame as a mathematical value.
pub open spec fn raw_outcome_view(r: Result<Option<RawMessage>>) -> Result<Option<MessageView>> {
    match r {
        Ok(Some(m)) => Ok(Some(m@)),
        Ok(None) => Ok(None),
        Err(e) => Err(e),
    }
}

impl Protocol {
    /// What comes of the bytes in `buf` where text is not validated.
    pub open spec fn run_raw_on(&self, buf: Seq<u8>) -> Run {
        if buf.len() == 0 {
            self.run_on(buf)
        } else {
            run_raw(self@, self.frames().wire(buf), self.frames().rules(), self.next_rules())
        }
    }

    /// Process incoming data and return complete raw messages.
    ///
    /// Unlike [`Protocol::process`], this path does not validate text payloads
    /// as UTF-8. It is useful for low-level adapters that only need to proxy or
    /// echo frames and want to avoid extra payload scans.
    pub fn process_raw(&mut self, buf: &mut BytesMut) -> (r: Result<Vec<RawMessage>>)
        requires
            old(self).wf(),
            old(self).accepts(old(buf)@),
        ensures
            final(self).wf(),
            final(self)@ == old(self).run_raw_on(old(buf)@).model,
            final(self).frames().wire(final(buf)@) == old(self).run_raw_on(old(buf)@).rest,
            final(self).frames().limits() == old(self).frames().limits(),
            final(buf)@.len() > 0 ==> final(self).frames().ready() <= final(buf)@.len(),
            match r {
                Ok(messages) => {
                    &&& old(self).run_raw_on(old(buf)@).result is Ok
                    &&& raw_message_views(messages@) == old(self).run_raw_on(old(buf)@).messages
                },
                Err(e) => old(self).run_raw_on(old(buf)@).result == Err::<(), Error>(e),
            },
    {
        let mut messages: Vec<RawMessage> = Vec::new();
        match self.process_raw_into(buf, &mut messages) {
            Ok(()) => Ok(messages),
            Err(e) => Err(e),
        }
    }

    /// Process incoming data into a reusable raw message buffer.
    #[verifier::rlimit(60)]
    pub fn process_raw_into(
        &mut self,
        buf: &mut BytesMut,
        messages: &mut Vec<RawMessage>,
    ) -> (r: Result<()>)
        requires
            old(self).wf(),
            old(self).accepts(old(buf)@),
        ensures
            final(self).wf(),
            final(self)@ == old(self).run_raw_on(old(buf)@).model,
            final(self).frames().wire(final(buf)@) == old(self).run_raw_on(old(buf)@).rest,
            final(self).frames().limits() == old(self).frames().limits(),
            final(buf)@.len() > 0 ==> final(self).frames().ready() <= final(buf)@.len(),
            raw_message_views(final(messages)@) == old(self).run_raw_on(old(buf)@).messages,
            r == old(self).run_raw_on(old(buf)@).result,
    {
        messages.clear();
        let ghost whole = self.run_raw_on(buf@);
        let ghost next = self.next_rules();
        let ghost limits = self.frames().limits();
        proof {
            assert(raw_message_views(messages@) =~= Seq::<MessageView>::empty());
            assert(raw_message_views(messages@) + self.run_raw_on(buf@).messages
                =~= self.run_raw_on(buf@).messages);
        }
        while !buf.is_empty()
            invariant
                self.wf(),
                self.accepts(buf@),
                self.frames().limits() == limits,
                limits == old(self).frames().limits(),
                whole == old(self).run_raw_on(old(buf)@),
                next == self.next_rules(),
                raw_message_views(messages@) + self.run_raw_on(buf@).messages == whole.messages,
                self.run_raw_on(buf@).model == whole.model,
                self.run_raw_on(buf@).rest == whole.rest,
                self.run_raw_on(buf@).result == whole.result,
            decreases self.frames().wire(buf@).len(),
        {
            let ghost w = self.frames().wire(buf@);
            let ghost rules = self.frames().rules();
            let ghost before = self@;
            match self.parser.parse(buf) {
                Err(e) => {
                    return Err(e);
                },
                Ok(Some(frame)) => {
                    proof {
                        self.parser.lemma_at_start(buf@);
                        frame_payload_len(w, rules);
                    }
                    self.partial_checked = 0;
                    let ghost header = frame.header@;
                    let ghost payload = frame.payload@;
                    let ghost sofar = raw_message_views(messages@);
                    match self.handle_raw_frame(frame) {
                        Err(e) => {
                            return Err(e);
                        },
                        Ok(Some(msg)) => {
                            messages.push(msg);
                            proof {
                                assert(raw_message_views(messages@) =~= sofar + seq![msg@]);
                            }
                        },
                        Ok(None) => {},
                    }
                    proof {
                        let tail = run_raw(self@, buf@, next, next);
                        if buf@.len() == 0 {
                            reveal_with_fuel(run_raw, 2);
                        }
                        assert(tail == self.run_raw_on(buf@));
                        assert(raw_message_views(messages@) + tail.messages =~= whole.messages);
                    }
                },
                Ok(None) => {
                    proof {
                        assert(raw_message_views(messages@) + Seq::<MessageView>::empty()
                            =~= raw_message_views(messages@));
                    }
                    return Ok(());
                },
            }
        }
        proof {
            assert(raw_message_views(messages@) + Seq::<MessageView>::empty()
                =~= raw_message_views(messages@));
        }
        Ok(())
    }

    /// Handle a single parsed frame without text validation.
    fn handle_raw_frame(&mut self, frame: Frame) -> (r: Result<Option<RawMessage>>)
        requires
            buffer::allocatable(old(self)@.collected.len() + frame.payload@.len()),
            old(self)@.checked == 0,
        ensures
            (final(self)@, raw_outcome_view(r)) == on_raw_frame(
                old(self)@,
                frame.header@,
                frame.payload@,
            ),
            final(self)@.collected.len() <= old(self)@.collected.len() + frame.payload@.len(),
            final(self).parser == old(self).parser,
            final(self).utf8 == old(self).utf8,
    {
        match frame.header.opcode {
            OpCode::Continuation => self.handle_raw_continuation(frame.header.fin, frame.payload),
            OpCode::Text | OpCode::Binary => self.handle_raw_data(frame),
            OpCode::Close => match self.handle_close(&frame.payload) {
                Ok(Some(Message::Close(reason))) => Ok(Some(RawMessage::Close(reason))),
                Ok(_) => Ok(None),
                Err(e) => Err(e),
            },
            OpCode::Ping => Ok(Some(RawMessage::Ping(frame.payload))),
            OpCode::Pong => Ok(Some(RawMessage::Pong(frame.payload))),
        }
    }

    /// Handle a text or binary frame for raw processing.
    fn handle_raw_data(&mut self, frame: Frame) -> (r: Result<Option<RawMessage>>)
        requires
            frame.header.opcode is Text || frame.header.opcode is Binary,
            buffer::allocatable(frame.payload@.len()),
            old(self)@.checked == 0,
        ensures
            (final(self)@, raw_outcome_view(r)) == on_raw_frame(
                old(self)@,
                frame.header@,
                frame.payload@,
            ),
            final(self)@.collected.len() <= old(self)@.collected.len() + frame.payload@.len(),
            final(self).parser == old(self).parser,
            final(self).utf8 == old(self).utf8,
    {
        if self.fragment_opcode.is_some() {
            return Err(Error::Protocol("expected continuation frame"));
        }
        if frame.payload.len() > self.max_message_size {
            return Err(Error::MessageTooLarge);
        }
        let opcode = frame.header.opcode;
        if frame.header.fin {
            return Ok(
                Some(
                    if opcode == OpCode::Text {
                        RawMessage::Text(frame.payload)
                    } else {
                        RawMessage::Binary(frame.payload)
                    },
                ),
            );
        }
        self.fragment_opcode = Some(opcode);
        self.fragment_buf.clear();
        self.fragment_buf.extend_from_slice(&frame.payload);
        assert(self.fragment_buf@ =~= frame.payload@);
        Ok(None)
    }

    /// Handle continuation frame without UTF-8 validation.
    fn handle_raw_continuation(&mut self, fin: bool, payload: Bytes) -> (r: Result<
        Option<RawMessage>,
    >)
        requires
            buffer::allocatable(old(self)@.collected.len() + payload@.len()),
            old(self)@.checked == 0,
        ensures
            forall|h: HeaderView|
                h.opcode is Continuation && h.fin == fin ==> (
                    final(self)@,
                    raw_outcome_view(r),
                ) == #[trigger] on_raw_frame(old(self)@, h, payload@),
            final(self)@.collected.len() <= old(self)@.collected.len() + payload@.len(),
            final(self).parser == old(self).parser,
            final(self).utf8 == old(self).utf8,
    {
        let opcode = match self.fragment_opcode {
            Some(opcode) => opcode,
            None => {
                return Err(Error::Protocol("unexpected continuation frame"));
            },
        };
        let new_size: usize = self.fragment_buf.len() + payload.len();
        if new_size > self.max_message_size {
            return Err(Error::MessageTooLarge);
        }
        self.fragment_buf.extend_from_slice(&payload);
        if !fin {
            return Ok(None);
        }
        self.fragment_opcode = None;
        let data = self.fragment_buf.split().freeze();
        match opcode {
            OpCode::Text => Ok(Some(RawMessage::Text(data))),
            OpCode::Binary => Ok(Some(RawMessage::Binary(data))),
            _ => Err(Error::Protocol("invalid fragment opcode")),
        }
    }
}

/// The state after a Close frame was sent by the application.
pub open spec fn after_close_sent(state: State) -> State {
    if state is Open {
        State::CloseSent
    } else {
        state
    }
}

/// The state after the peer's Close frame was answered.
pub open spec fn after_close_answered(state: State) -> State {
    if state is CloseReceived {
        State::Closed
    } else {
        state
    }
}

/// A masking key that an endpoint may use: four bytes for a client, none for a server.
pub open spec fn key_for(role: Role, key: Option<Seq<u8>>) -> bool {
    &&& key is Some == (role is Client)
    &&& key matches Some(k) ==> k.len() == 4
}

/// The bytes of a message on the wire.
pub open spec fn message_bytes(m: MessageView, key: Option<Seq<u8>>) -> Seq<u8> {
    frame::frame_bytes(message_opcode(m), message_payload(m), true, key, false)
}

/// The masking key for the next frame of an endpoint.
pub(crate) fn next_mask(role: Role) -> (r: Option<[u8; 4]>)
    ensures
        key_for(role, frame::key_view(r)),
{
    if role == Role::Client {
        Some(generate_mask())
    } else {
        None
    }
}

/// Appends a message to a buffer as one frame.
pub(crate) fn write_message(msg: &Message, mask: Option<[u8; 4]>, buf: &mut BytesMut)
    requires
        buffer::allocatable(
            old(buf)@.len() + frame::frame_len(message_payload(msg@).len(), mask is Some),
        ),
    ensures
        final(buf)@ == old(buf)@ + message_bytes(msg@, frame::key_view(mask)),
{
    match msg {
        Message::Text(b) => encode_frame(buf, OpCode::Text, b, true, mask),
        Message::Binary(b) => encode_frame(buf, OpCode::Binary, b, true, mask),
        Message::Ping(b) => encode_frame(buf, OpCode::Ping, b, true, mask),
        Message::Pong(b) => encode_frame(buf, OpCode::Pong, b, true, mask),
        Message::Close(None) => encode_frame(buf, OpCode::Close, &[], true, mask),
        Message::Close(Some(reason)) => {
            proof {
                octets::lemma_be_bytes_len(reason.code as nat, 2);
            }
            let mut payload = BytesMut::with_capacity(2 + reason.reason.as_str().as_bytes().len());
            payload.extend_from_slice(&octets::u16_to_be(reason.code));
            payload.extend_from_slice(reason.reason.as_str().as_bytes());
            assert(payload@ =~= frame::close_payload(Some((reason.code, reason.reason@))));
            encode_frame(buf, OpCode::Close, &payload, true, mask)
        },
    }
}

impl Protocol {
    /// Encode a message for sending
    ///
    /// A client masks the frame with a random key.
    pub fn encode_message(&mut self, msg: &Message, buf: &mut BytesMut) -> (r: Result<()>)
        requires
            buffer::allocatable(
                old(buf)@.len() + frame::frame_len(
                    message_payload(msg@).len(),
                    old(self)@.role is Client,
                ),
            ),
        ensures
            r == Ok::<(), Error>(()),
            old(self).wf() ==> final(self).wf(),
            final(self).frames() == old(self).frames(),
            final(self)@ == (ProtocolView {
                state: if msg@ is Close {
                    after_close_sent(old(self)@.state)
                } else {
                    old(self)@.state
                },
                ..old(self)@
            }),
            exists|key: Option<Seq<u8>>| #[trigger]
                key_for(old(self)@.role, key) && final(buf)@ == old(buf)@ + message_bytes(msg@, key),
    {
        let mask = next_mask(self.role);
        self.encode_message_masked(msg, mask, buf);
        Ok(())
    }

    /// Encode a message for sending with a given masking key
    pub fn encode_message_masked(
        &mut self,
        msg: &Message,
        mask: Option<[u8; 4]>,
        buf: &mut BytesMut,
    )
        requires
            buffer::allocatable(
                old(buf)@.len() + frame::frame_len(message_payload(msg@).len(), mask is Some),
            ),
        ensures
            old(self).wf() ==> final(self).wf(),
            final(self).frames() == old(self).frames(),
            final(self)@ == (ProtocolView {
                state: if msg@ is Close {
                    after_close_sent(old(self)@.state)
                } else {
                    old(self)@.state
                },
                ..old(self)@
            }),
            final(buf)@ == old(buf)@ + message_bytes(msg@, frame::key_view(mask)),
    {
        if msg.is_close() && self.state == State::Open {
            self.state = State::CloseSent;
        }
        write_message(msg, mask, buf);
    }

    /// Encode a pong response for a ping
    pub fn encode_pong(&mut self, ping_data: &[u8], buf: &mut BytesMut)
        requires
            buffer::allocatable(
                old(buf)@.len() + frame::frame_len(ping_data@.len(), old(self)@.role is Client),
            ),
        ensures
            *final(self) == *old(self),
            exists|key: Option<Seq<u8>>| #[trigger]
                key_for(old(self)@.role, key) && final(buf)@ == old(buf)@ + message_bytes(
                    MessageView::Pong(ping_data@),
                    key,
                ),
    {
        let mask = next_mask(self.role);
        encode_frame(buf, OpCode::Pong, ping_data, true, mask);
        assert(key_for(self@.role, frame::key_view(mask)) && buf@ == old(buf)@ + message_bytes(
            MessageView::Pong(ping_data@),
            frame::key_view(mask),
        ));
    }

    /// Encode a close response
    ///
    /// It repeats the reason of the Close frame that the peer sent.
    pub fn encode_close_response(&mut self, buf: &mut BytesMut)
        requires
            buffer::allocatable(
                old(buf)@.len() + frame::frame_len(
                    frame::close_payload(old(self)@.pending_close).len(),
                    old(self)@.role is Client,
                ),
            ),
        ensures
            old(self).wf() ==> final(self).wf(),
            final(self).frames() == old(self).frames(),
            final(self)@ == (ProtocolView {
                state: after_close_answered(old(self)@.state),
                ..old(self)@
            }),
            exists|key: Option<Seq<u8>>| #[trigger]
                key_for(old(self)@.role, key) && final(buf)@ == old(buf)@ + message_bytes(
                    MessageView::Close(old(self)@.pending_close),
                    key,
                ),
    {
        let mask = next_mask(self.role);
        let reason = match &self.pending_close {
            Some(r) => Some(r.clone()),
            None => None,
        };
        let answer = Message::Close(reason);
        assert(answer@ == MessageView::Close(self@.pending_close));
        write_message(&answer, mask, buf);
        assert(key_for(self@.role, frame::key_view(mask)) && buf@ == old(buf)@ + message_bytes(
            MessageView::Close(self@.pending_close),
            frame::key_view(mask),
        ));
        if self.state == State::CloseReceived {
            self.state = State::Closed;
        }
    }

    /// Splits the handler into a reader, which keeps everything received so
    /// far, and a writer that starts afresh.
    pub fn split(self, max_frame_size: usize, max_message_size: usize) -> (r: (Protocol, Protocol))
        requires
            self.wf(),
        ensures
            r.0.wf(),
            r.0@ == (ProtocolView { max_message_size: max_message_size as nat, ..self@ }),
            r.0.frames() == self.frames(),
            r.1.wf(),
            r.1@ == new_view(self@.role, max_message_size as nat),
            r.1.frames().at_start(),
            r.1.frames().limits() == (max_frame_size as nat, self@.role is Server, false),
    {
        let writer = Protocol::new(self.role, max_frame_size, max_message_size);
        let reader = Protocol { max_message_size, ..self };
        (reader, writer)
    }
}

} // verus!
