//! WebSocket frame parsing and serialization (RFC 6455, section 5)
//!
//! A frame on the wire is a header of 2 to 14 bytes and its payload. The spec
//! function [`decode`] says what the bytes at the start of a frame stand for;
//! [`FrameParser`] computes it however the bytes are cut into reads.
use crate::buffer;
use crate::buffer::BufferView;
use crate::error::{CloseReason, Error, Result};
use crate::octets;
use crate::simd;
use crate::simd::{apply_mask, apply_mask_offset};
use crate::utf8;
use crate::{MEDIUM_MESSAGE_THRESHOLD, SMALL_MESSAGE_THRESHOLD};
use bytes::{Bytes, BytesMut};
use vstd::prelude::*;
use vstd::string::StringSliceAdditionalSpecFns;
use vstd::utf8::*;

verus! {

/// WebSocket opcode
#[derive(Debug, Clone, Copy, PartialEq, Eq, Structural)]
pub enum OpCode {
    /// Continuation frame
    Continuation,
    /// Text frame
    Text,
    /// Binary frame
    Binary,
    /// Connection close
    Close,
    /// Ping
    Ping,
    /// Pong
    Pong,
}

/// The number of an opcode on the wire.
pub open spec fn opcode_value(op: OpCode) -> u8 {
    match op {
        OpCode::Continuation => 0x0,
        OpCode::Text => 0x1,
        OpCode::Binary => 0x2,
        OpCode::Close => 0x8,
        OpCode::Ping => 0x9,
        OpCode::Pong => 0xA,
    }
}

/// The opcode with a given number, where there is one.
pub open spec fn opcode_of(byte: u8) -> Option<OpCode> {
    if byte == 0x0 {
        Some(OpCode::Continuation)
    } else if byte == 0x1 {
        Some(OpCode::Text)
    } else if byte == 0x2 {
        Some(OpCode::Binary)
    } else if byte == 0x8 {
        Some(OpCode::Close)
    } else if byte == 0x9 {
        Some(OpCode::Ping)
    } else if byte == 0xA {
        Some(OpCode::Pong)
    } else {
        None
    }
}

/// Close, Ping and Pong are control opcodes.
pub open spec fn control(op: OpCode) -> bool {
    op is Close || op is Ping || op is Pong
}

impl OpCode {
    /// Parse opcode from byte
    pub fn from_u8(byte: u8) -> (r: Option<Self>)
        ensures
            r == opcode_of(byte),
    {
        match byte {
            0x0 => Some(OpCode::Continuation),
            0x1 => Some(OpCode::Text),
            0x2 => Some(OpCode::Binary),
            0x8 => Some(OpCode::Close),
            0x9 => Some(OpCode::Ping),
            0xA => Some(OpCode::Pong),
            _ => None,
        }
    }

    /// The number of this opcode on the wire
    pub fn to_u8(&self) -> (r: u8)
        ensures
            r == opcode_value(*self),
            opcode_of(r) == Some(*self),
    {
        match self {
            OpCode::Continuation => 0x0,
            OpCode::Text => 0x1,
            OpCode::Binary => 0x2,
            OpCode::Close => 0x8,
            OpCode::Ping => 0x9,
            OpCode::Pong => 0xA,
        }
    }

    /// Check if this is a control frame
    pub fn is_control(&self) -> (r: bool)
        ensures
            r == control(*self),
    {
        self.to_u8() >= 0x8
    }

    /// Check if this is a data frame
    pub fn is_data(&self) -> (r: bool)
        ensures
            r == !control(*self),
    {
        self.to_u8() <= 0x2
    }
}

/// A parsed WebSocket frame header
#[derive(Debug, Clone, Copy)]
pub struct FrameHeader {
    /// Final fragment flag
    pub fin: bool,
    /// RSV1 (used for compression)
    pub rsv1: bool,
    /// RSV2 (reserved)
    pub rsv2: bool,
    /// RSV3 (reserved)
    pub rsv3: bool,
    /// Frame opcode
    pub opcode: OpCode,
    /// Mask flag (must be true for client->server)
    pub masked: bool,
    /// Payload length
    pub payload_len: u64,
    /// Masking key (if masked)
    pub mask: Option<[u8; 4]>,
}

/// A frame header as a mathematical value.
pub struct HeaderView {
    pub fin: bool,
    pub rsv1: bool,
    pub rsv2: bool,
    pub rsv3: bool,
    pub opcode: OpCode,
    pub masked: bool,
    pub payload_len: nat,
    pub mask: Option<Seq<u8>>,
}

/// A masking key as a sequence.
pub open spec fn key_view(mask: Option<[u8; 4]>) -> Option<Seq<u8>> {
    match mask {
        Some(key) => Some(key@),
        None => None,
    }
}

/// The width of the extended length field that a payload length needs.
pub open spec fn width_for(payload_len: nat) -> nat {
    if payload_len > 65535 {
        8
    } else if payload_len > 125 {
        2
    } else {
        0
    }
}

/// The first byte of a header: FIN, RSV1 to RSV3 and the opcode.
pub open spec fn first_byte(fin: bool, rsv1: bool, rsv2: bool, rsv3: bool, opcode: OpCode) -> u8 {
    opcode_value(opcode) | (if fin {
        0x80u8
    } else {
        0
    }) | (if rsv1 {
        0x40u8
    } else {
        0
    }) | (if rsv2 {
        0x20u8
    } else {
        0
    }) | (if rsv3 {
        0x10u8
    } else {
        0
    })
}

/// The second byte of a header: the mask flag and the seven bits of the length.
pub open spec fn second_byte(masked: bool, payload_len: nat) -> u8 {
    (if masked {
        0x80u8
    } else {
        0
    }) | (if payload_len > 65535 {
        127u8
    } else if payload_len > 125 {
        126u8
    } else {
        payload_len as u8
    })
}

/// The bytes of a header on the wire.
pub open spec fn header_bytes(h: HeaderView) -> Seq<u8> {
    seq![
        first_byte(h.fin, h.rsv1, h.rsv2, h.rsv3, h.opcode),
        second_byte(h.masked, h.payload_len),
    ] + octets::be_bytes(h.payload_len, width_for(h.payload_len)) + (match h.mask {
        Some(key) => key,
        None => Seq::empty(),
    })
}

impl FrameHeader {
    /// The header as a mathematical value.
    pub open spec fn view(&self) -> HeaderView {
        HeaderView {
            fin: self.fin,
            rsv1: self.rsv1,
            rsv2: self.rsv2,
            rsv3: self.rsv3,
            opcode: self.opcode,
            masked: self.masked,
            payload_len: self.payload_len as nat,
            mask: key_view(self.mask),
        }
    }

    /// Get the total header size in bytes
    pub fn header_size(&self) -> (r: usize)
        ensures
            r == 2 + width_for(self.payload_len as nat) + if self.masked {
                4int
            } else {
                0
            },
    {
        let mut size: usize = 2;  // Base header

        // Extended payload length
        if self.payload_len > MEDIUM_MESSAGE_THRESHOLD as u64 {
            size = size + 8;
        } else if self.payload_len > SMALL_MESSAGE_THRESHOLD as u64 {
            size = size + 2;
        }
        // Mask

        if self.masked {
            size = size + 4;
        }
        size
    }

    /// Encode the frame header into a buffer
    pub fn encode(&self, buf: &mut BytesMut)
        requires
            buffer::allocatable(old(buf)@.len() + header_bytes(self@).len()),
        ensures
            final(buf)@ == old(buf)@ + header_bytes(self@),
    {
        // First byte: FIN, RSV1-3, opcode
        let mut b0: u8 = self.opcode.to_u8();
        b0 = b0 | (if self.fin {
            0x80u8
        } else {
            0
        });
        b0 = b0 | (if self.rsv1 {
            0x40u8
        } else {
            0
        });
        b0 = b0 | (if self.rsv2 {
            0x20u8
        } else {
            0
        });
        b0 = b0 | (if self.rsv3 {
            0x10u8
        } else {
            0
        });

        // Second byte: mask flag, payload length
        let mask_bit: u8 = if self.masked {
            0x80
        } else {
            0
        };
        proof {
            octets::lemma_be_bytes_len(self.payload_len as nat, width_for(self.payload_len as nat));
        }
        if self.payload_len <= SMALL_MESSAGE_THRESHOLD as u64 {
            buf.extend_from_slice(&[b0, mask_bit | self.payload_len as u8]);
        } else if self.payload_len <= MEDIUM_MESSAGE_THRESHOLD as u64 {
            buf.extend_from_slice(&[b0, mask_bit | 126]);
            buf.extend_from_slice(&octets::u16_to_be(self.payload_len as u16));
        } else {
            buf.extend_from_slice(&[b0, mask_bit | 127]);
            buf.extend_from_slice(&octets::u64_to_be(self.payload_len));
        }

        // Masking key
        if let Some(mask) = self.mask {
            buf.extend_from_slice(&mask);
        }
        assert(buf@ =~= old(buf)@ + header_bytes(self@));
    }
}

/// A complete WebSocket frame
#[derive(Debug)]
pub struct Frame {
    /// Frame header
    pub header: FrameHeader,
    /// Frame payload (already unmasked)
    pub payload: Bytes,
}

impl Clone for Frame {
    fn clone(&self) -> (r: Self)
        ensures
            r.header == self.header,
            r.payload@ == self.payload@,
    {
        Frame { header: self.header, payload: self.payload.clone() }
    }
}

/// The header of an unmasked frame without reserved bits.
pub open spec fn plain_header(opcode: OpCode, payload_len: nat, fin: bool) -> HeaderView {
    HeaderView {
        fin,
        rsv1: false,
        rsv2: false,
        rsv3: false,
        opcode,
        masked: false,
        payload_len,
        mask: None,
    }
}

impl Frame {
    /// Create a new frame
    pub fn new(opcode: OpCode, payload: Bytes, fin: bool) -> (r: Self)
        ensures
            r.header@ == plain_header(opcode, payload@.len(), fin),
            r.payload == payload,
    {
        Frame {
            header: FrameHeader {
                fin,
                rsv1: false,
                rsv2: false,
                rsv3: false,
                opcode,
                masked: false,
                payload_len: payload.len() as u64,
                mask: None,
            },
            payload,
        }
    }

    /// Create a text frame
    pub fn text<T: Into<Bytes>>(data: T) -> (r: Self)
        ensures
            call_ensures(<T as Into<Bytes>>::into, (data,), r.payload),
            r.header@ == plain_header(OpCode::Text, r.payload@.len(), true),
    {
        Frame::new(OpCode::Text, data.into(), true)
    }

    /// Create a binary frame
    pub fn binary<T: Into<Bytes>>(data: T) -> (r: Self)
        ensures
            call_ensures(<T as Into<Bytes>>::into, (data,), r.payload),
            r.header@ == plain_header(OpCode::Binary, r.payload@.len(), true),
    {
        Frame::new(OpCode::Binary, data.into(), true)
    }

    /// Create a ping frame
    pub fn ping<T: Into<Bytes>>(data: T) -> (r: Self)
        ensures
            call_ensures(<T as Into<Bytes>>::into, (data,), r.payload),
            r.header@ == plain_header(OpCode::Ping, r.payload@.len(), true),
    {
        Frame::new(OpCode::Ping, data.into(), true)
    }

    /// Create a pong frame
    pub fn pong<T: Into<Bytes>>(data: T) -> (r: Self)
        ensures
            call_ensures(<T as Into<Bytes>>::into, (data,), r.payload),
            r.header@ == plain_header(OpCode::Pong, r.payload@.len(), true),
    {
        Frame::new(OpCode::Pong, data.into(), true)
    }

    /// Create a close frame
    pub fn close(code: u16, reason: &str) -> (r: Self)
        requires
            buffer::allocatable(2 + reason.spec_bytes().len()),
        ensures
            r.payload@ == close_payload(Some((code, reason@))),
            r.header@ == plain_header(OpCode::Close, r.payload@.len(), true),
    {
        let mut payload = BytesMut::with_capacity(2 + reason.as_bytes().len());
        payload.extend_from_slice(&octets::u16_to_be(code));
        payload.extend_from_slice(reason.as_bytes());
        assert(payload@ =~= close_payload(Some((code, reason@))));
        Frame::new(OpCode::Close, payload.freeze(), true)
    }

    /// Create an empty close frame
    pub fn close_empty() -> (r: Self)
        ensures
            r.payload@ == close_payload(None),
            r.header@ == plain_header(OpCode::Close, 0, true),
    {
        Frame::new(OpCode::Close, Bytes::new(), true)
    }

    /// Check if this is a control frame
    pub fn is_control(&self) -> (r: bool)
        ensures
            r == control(self.header.opcode),
    {
        self.header.opcode.is_control()
    }

    /// Check if this is the final fragment
    pub fn is_final(&self) -> (r: bool)
        ensures
            r == self.header.fin,
    {
        self.header.fin
    }

    /// Get the payload as a string (for text frames)
    pub fn as_text(&self) -> (r: Result<&str>)
        ensures
            match r {
                Ok(s) => valid_utf8(self.payload@) && s.spec_bytes() == self.payload@,
                Err(e) => !valid_utf8(self.payload@) && e == Error::InvalidUtf8,
            },
    {
        match utf8::checked_str(&self.payload) {
            Some(s) => Ok(s),
            None => Err(Error::InvalidUtf8),
        }
    }

    /// Parse close frame payload
    pub fn parse_close(&self) -> (r: Option<CloseReason>)
        ensures
            match r {
                Some(c) => {
                    &&& self.payload@.len() >= 2
                    &&& c.code == octets::be_value(self.payload@.take(2))
                    &&& c.reason@ == utf8::lossy(self.payload@.skip(2))
                },
                None => self.payload@.len() < 2,
            },
    {
        if self.payload.len() < 2 {
            return None;
        }
        let (head, rest) = self.payload.split_at(2);
        let code: u16 = octets::u16_from_be(head[0], head[1]);
        proof {
            assert(seq![head@[0], head@[1]] =~= self.payload@.take(2));
            assert(rest@ =~= self.payload@.skip(2));
        }
        Some(CloseReason { code, reason: utf8::to_lossy_string(rest) })
    }
}

/// The payload of a Close frame: nothing, or a code and a reason.
pub open spec fn close_payload(reason: Option<(u16, Seq<char>)>) -> Seq<u8> {
    match reason {
        None => Seq::empty(),
        Some((code, text)) => octets::be_bytes(code as nat, 2) + encode_utf8(text),
    }
}

/// What a receiver demands of the frames it reads.
pub struct FrameRules {
    /// Largest payload accepted.
    pub max_frame_size: nat,
    /// Whether frames must be masked (they come from a client) or must not be.
    pub expect_masked: bool,
    /// Whether RSV1 may be set (compression was negotiated).
    pub allow_rsv1: bool,
}

/// What the bytes from the start of a frame stand for.
pub enum Decoded {
    /// The frame is not complete, and nothing is wrong with it yet.
    Incomplete,
    /// The frame is refused.
    Invalid(Error),
    /// A whole frame: its header, its unmasked payload and its length on the wire.
    Complete { header: HeaderView, payload: Seq<u8>, consumed: nat },
}

/// What is wrong with the first two bytes of a frame, if anything.
pub open spec fn prefix_error(b0: u8, b1: u8, rules: FrameRules) -> Option<Error> {
    if b0 & 0x40 != 0 && !rules.allow_rsv1 {
        Some(Error::Protocol("RSV1 must be 0 (compression not negotiated)"))
    } else if b0 & 0x20 != 0 || b0 & 0x10 != 0 {
        Some(Error::Protocol("RSV2 and RSV3 must be 0"))
    } else if opcode_of(b0 & 0x0F) is None {
        Some(Error::InvalidFrame("invalid opcode"))
    } else if control(opcode_of(b0 & 0x0F)->0) && b0 & 0x80 == 0 {
        Some(Error::Protocol("control frame must not be fragmented"))
    } else if rules.expect_masked && b1 & 0x80 == 0 {
        Some(Error::Protocol("client frames must be masked"))
    } else if !rules.expect_masked && b1 & 0x80 != 0 {
        Some(Error::Protocol("server frames must not be masked"))
    } else {
        None
    }
}

/// The width of the extended length field that the second byte announces.
pub open spec fn length_width(b1: u8) -> nat {
    if b1 & 0x7F == 126 {
        2
    } else if b1 & 0x7F == 127 {
        8
    } else {
        0
    }
}

/// The payload length that a header declares.
pub open spec fn declared_len(w: Seq<u8>) -> nat {
    if length_width(w[1]) == 0 {
        (w[1] & 0x7F) as nat
    } else {
        octets::be_value(w.subrange(2, 2 + length_width(w[1]) as int))
    }
}

/// What is wrong with the declared length, if anything.
pub open spec fn length_error(w: Seq<u8>, rules: FrameRules) -> Option<Error> {
    let width = length_width(w[1]);
    let len = declared_len(w);
    if (width == 2 && len < 126) || (width == 8 && len <= 0xFFFF) {
        Some(Error::Protocol("payload length not minimal"))
    } else if width == 8 && len >= 0x8000_0000_0000_0000 {
        Some(Error::Protocol("payload length MSB must be 0"))
    } else if control(opcode_of(w[0] & 0x0F)->0) && len > 125 {
        Some(Error::Protocol("control frame too large"))
    } else if len > rules.max_frame_size {
        Some(Error::FrameTooLarge)
    } else {
        None
    }
}

/// The length of a whole header, by its second byte.
pub open spec fn head_len(b1: u8) -> nat {
    2 + length_width(b1) + if b1 & 0x80 != 0 {
        4nat
    } else {
        0
    }
}

/// The masking key of a whole header.
pub open spec fn mask_key(w: Seq<u8>) -> Option<Seq<u8>> {
    if w[1] & 0x80 != 0 {
        Some(w.subrange(2 + length_width(w[1]) as int, 6 + length_width(w[1]) as int))
    } else {
        None
    }
}

/// The header that the bytes at the start of a frame hold, once they are all there.
pub open spec fn header_of(w: Seq<u8>) -> HeaderView {
    HeaderView {
        fin: w[0] & 0x80 != 0,
        rsv1: w[0] & 0x40 != 0,
        rsv2: w[0] & 0x20 != 0,
        rsv3: w[0] & 0x10 != 0,
        opcode: opcode_of(w[0] & 0x0F)->0,
        masked: w[1] & 0x80 != 0,
        payload_len: declared_len(w),
        mask: mask_key(w),
    }
}

/// Payload bytes with the mask, if there is one, taken off.
pub open spec fn unmasked(data: Seq<u8>, key: Option<Seq<u8>>) -> Seq<u8> {
    match key {
        Some(key) => simd::masked(data, key, 0),
        None => data,
    }
}

/// Whether the header at the start of `w` is complete and accepted.
pub open spec fn header_ready(w: Seq<u8>, rules: FrameRules) -> bool {
    &&& w.len() >= 2
    &&& prefix_error(w[0], w[1], rules) is None
    &&& w.len() >= head_len(w[1])
    &&& length_error(w, rules) is None
}

/// The payload bytes that have arrived of the frame at the start of `w`, unmasked.
pub open spec fn payload_so_far(w: Seq<u8>) -> Seq<u8> {
    unmasked(w.skip(head_len(w[1]) as int), mask_key(w))
}

/// What the bytes from the start of a frame stand for.
pub open spec fn decode(w: Seq<u8>, rules: FrameRules) -> Decoded {
    if w.len() < 2 {
        Decoded::Incomplete
    } else if prefix_error(w[0], w[1], rules) is Some {
        Decoded::Invalid(prefix_error(w[0], w[1], rules)->0)
    } else if w.len() < 2 + length_width(w[1]) {
        Decoded::Incomplete
    } else if length_error(w, rules) is Some {
        Decoded::Invalid(length_error(w, rules)->0)
    } else {
        let head = head_len(w[1]);
        let len = declared_len(w);
        if w.len() < head + len {
            Decoded::Incomplete
        } else {
            Decoded::Complete {
                header: header_of(w),
                payload: unmasked(w.subrange(head as int, (head + len) as int), mask_key(w)),
                consumed: head + len,
            }
        }
    }
}

/// Frame parser state machine
#[derive(Debug, Clone, Copy, PartialEq, Eq, Structural)]
enum ParseState {
    /// Waiting for header bytes
    Header,
    /// Waiting for extended payload length (2 bytes)
    ExtendedLen16,
    /// Waiting for extended payload length (8 bytes)
    ExtendedLen64,
    /// Waiting for mask (4 bytes)
    Mask,
    /// Waiting for payload
    Payload,
}

/// High-performance frame parser
///
/// Uses a state machine to handle partial reads. Header bytes are taken out of
/// the caller's buffer as they arrive; payload bytes stay there, unmasked in
/// place, until the frame is complete.
pub struct FrameParser {
    state: ParseState,
    /// Partial header data
    header_buf: [u8; 14],
    header_len: usize,
    /// Parsed header (once complete)
    header: Option<FrameHeader>,
    /// Maximum frame size
    max_frame_size: usize,
    /// Whether to expect masked frames (server mode)
    expect_masked: bool,
    /// Whether RSV1 is allowed (compression enabled)
    allow_rsv1: bool,
    /// Number of payload bytes at the front of the caller's buffer that have
    /// already been unmasked while waiting for the rest of the frame.
    payload_ready: usize,
    /// The bytes of the current frame that were taken out of the caller's buffer.
    held: Ghost<Seq<u8>>,
}

/// Description of a frame whose header has been parsed but whose payload has
/// not fully arrived yet.
///
/// `ready` bytes at the front of the caller's buffer are already unmasked and
/// can be inspected (for example, for incremental UTF-8 validation) before the
/// frame completes.
#[derive(Debug, Clone, Copy, PartialEq, Eq, Structural)]
pub struct PendingPayload {
    /// Frame opcode
    pub opcode: OpCode,
    /// Final fragment flag
    pub fin: bool,
    /// RSV1 (compressed) flag
    pub rsv1: bool,
    /// Payload bytes already available and unmasked at the front of the buffer
    pub ready: usize,
    /// Total payload length of the frame
    pub total: usize,
}

/// `buf` with its first `ready` bytes masked again.
pub open spec fn remasked(buf: Seq<u8>, key: Option<Seq<u8>>, ready: nat) -> Seq<u8> {
    match key {
        Some(key) => Seq::new(
            buf.len(),
            |i: int|
                if i < ready {
                    buf[i] ^ key[i % 4]
                } else {
                    buf[i]
                },
        ),
        None => buf,
    }
}

/// A parser as a mathematical value.
#[verifier::ext_equal]
pub struct ParserView {
    /// The bytes of the current frame that were taken out of the caller's buffer
    pub held: Seq<u8>,
    /// How many bytes at the front of the caller's buffer are unmasked payload
    pub ready: nat,
    /// Largest payload accepted
    pub max_frame_size: nat,
    /// Whether frames must be masked or must not be
    pub expect_masked: bool,
    /// Whether RSV1 may be set
    pub allow_rsv1: bool,
}

impl ParserView {
    /// The mask that was taken off the front of the caller's buffer, once the
    /// header is complete.
    pub open spec fn key(self) -> Option<Seq<u8>> {
        if self.held.len() >= 2 && self.held.len() == head_len(self.held[1]) {
            mask_key(self.held)
        } else {
            None
        }
    }

    /// The bytes of the current frame and what follows it, as they came over
    /// the wire, where `buf` is the caller's buffer.
    pub open spec fn wire(self, buf: Seq<u8>) -> Seq<u8> {
        self.held + remasked(buf, self.key(), self.ready)
    }

    /// What the parser demands of the current frame.
    pub open spec fn rules(self) -> FrameRules {
        FrameRules {
            max_frame_size: self.max_frame_size,
            expect_masked: self.expect_masked,
            allow_rsv1: self.allow_rsv1 || self.held.len() > 0,
        }
    }
}

/// A new parser.
pub open spec fn new_parser(
    max_frame_size: nat,
    expect_masked: bool,
    allow_rsv1: bool,
) -> ParserView {
    ParserView { held: Seq::empty(), ready: 0, max_frame_size, expect_masked, allow_rsv1 }
}

/// How many of the bytes `w` from the start of a frame a parser keeps that has
/// not come to the payload. A frame that it refuses at once stays in the buffer
/// as it is. So does one of which not even two bytes are there. Where an extended
/// length is not all there, a parser that held nothing keeps two bytes first.
/// Otherwise it keeps all that it has looked at.
pub open spec fn kept(v: ParserView, w: Seq<u8>) -> nat {
    let refused = decode(w, v.rules()) is Invalid;
    if v.held.len() == 0 && (refused || w.len() < 2) {
        0
    } else if v.held.len() == 0 && w.len() < 2 + length_width(w[1]) {
        2
    } else if refused {
        2 + length_width(w[1])
    } else {
        w.len()
    }
}

/// What a parse leaves: the parser and the caller's buffer.
pub open spec fn parsed(v: ParserView, buf: Seq<u8>) -> (ParserView, Seq<u8>) {
    let w = v.wire(buf);
    match decode(w, v.rules()) {
        Decoded::Complete { consumed, .. } => (
            ParserView { held: Seq::empty(), ready: 0, ..v },
            w.skip(consumed as int),
        ),
        _ => if header_ready(w, v.rules()) {
            let arrived = payload_so_far(w);
            (
                ParserView {
                    held: w.take(head_len(w[1]) as int),
                    ready: if v.ready >= arrived.len() {
                        v.ready
                    } else {
                        arrived.len()
                    },
                    ..v
                },
                arrived,
            )
        } else {
            let k = kept(v, w) as int;
            (ParserView { held: w.take(k), ready: 0, ..v }, w.skip(k))
        },
    }
}

/// What parses of these buffers, one after the other, find, and what each of
/// them leaves in its buffer.
pub open spec fn parses(v: ParserView, bufs: Seq<Seq<u8>>) -> Seq<(Decoded, Seq<u8>)>
    decreases bufs.len(),
{
    if bufs.len() == 0 {
        Seq::empty()
    } else {
        let (after, left) = parsed(v, bufs[0]);
        seq![(decode(v.wire(bufs[0]), v.rules()), left)] + parses(after, bufs.drop_first())
    }
}

/// A parser for which compression is switched on or off does from then on what
/// one does that was made so: it finds the same and leaves the same, whatever
/// buffers it is given.
pub proof fn law_compression_can_be_switched(
    max_frame_size: nat,
    expect_masked: bool,
    bufs: Seq<Seq<u8>>,
)
    ensures
        parses(
            ParserView { allow_rsv1: true, ..new_parser(max_frame_size, expect_masked, false) },
            bufs,
        ) == parses(new_parser(max_frame_size, expect_masked, true), bufs),
        parses(
            ParserView { allow_rsv1: false, ..new_parser(max_frame_size, expect_masked, true) },
            bufs,
        ) == parses(new_parser(max_frame_size, expect_masked, false), bufs),
{
}

impl FrameParser {
    /// The parser as a mathematical value.
    pub closed spec fn view(&self) -> ParserView {
        ParserView {
            held: self.held@,
            ready: self.payload_ready as nat,
            max_frame_size: self.max_frame_size as nat,
            expect_masked: self.expect_masked,
            allow_rsv1: self.allow_rsv1,
        }
    }

    /// What is known of a parser follows from its value.
    pub proof fn lemma_view(&self)
        requires
            self.wf(),
        ensures
            self.at_start() == (self@.held.len() == 0),
            self.ready() == self@.ready,
            self.limits() == (self@.max_frame_size, self@.expect_masked, self@.allow_rsv1),
            self.rules() == self@.rules(),
            forall|buf: Seq<u8>| #[trigger] self.wire(buf) == self@.wire(buf),
    {
    }

    spec fn mask_in_use(&self) -> Option<Seq<u8>> {
        if self.state is Payload {
            key_view(self.header->0.mask)
        } else {
            None
        }
    }

    /// The bytes of the current frame and what follows it, as they came over
    /// the wire, where `buf` is the caller's buffer.
    pub closed spec fn wire(&self, buf: Seq<u8>) -> Seq<u8> {
        self.held@ + remasked(buf, self.mask_in_use(), self.payload_ready as nat)
    }

    /// What this parser demands of the current frame. RSV1 is judged when the
    /// first two bytes are read, and not again.
    pub closed spec fn rules(&self) -> FrameRules {
        FrameRules {
            max_frame_size: self.max_frame_size as nat,
            expect_masked: self.expect_masked,
            allow_rsv1: self.allow_rsv1 || !(self.state is Header),
        }
    }

    /// The limits that the parser was made with.
    pub closed spec fn limits(&self) -> (nat, bool, bool) {
        (self.max_frame_size as nat, self.expect_masked, self.allow_rsv1)
    }

    /// Whether the parser stands between two frames.
    pub closed spec fn at_start(&self) -> bool {
        self.state is Header
    }

    /// How many bytes at the front of the caller's buffer are unmasked payload.
    pub closed spec fn ready(&self) -> nat {
        self.payload_ready as nat
    }

    /// How many bytes at the front of the caller's buffer are unmasked payload
    pub(crate) fn ready_len(&self) -> (r: usize)
        ensures
            r == self.ready(),
    {
        self.payload_ready
    }

    spec fn later_rules(&self) -> FrameRules {
        FrameRules {
            max_frame_size: self.max_frame_size as nat,
            expect_masked: self.expect_masked,
            allow_rsv1: true,
        }
    }

    spec fn holds_header_bytes(&self) -> bool {
        &&& self.header_len <= 14
        &&& self.held@ == self.header_buf@.take(self.header_len as int)
        &&& self.held@.len() >= 2
        &&& prefix_error(self.held@[0], self.held@[1], self.later_rules()) is None
    }

    /// The state agrees with the bytes taken so far.
    pub closed spec fn wf(&self) -> bool {
        match self.state {
            ParseState::Header => {
                &&& self.held@ == Seq::<u8>::empty()
                &&& self.payload_ready == 0
            },
            ParseState::ExtendedLen16 => {
                &&& self.holds_header_bytes()
                &&& length_width(self.held@[1]) == 2
                &&& self.header_len <= 4
                &&& self.payload_ready == 0
            },
            ParseState::ExtendedLen64 => {
                &&& self.holds_header_bytes()
                &&& length_width(self.held@[1]) == 8
                &&& self.header_len <= 10
                &&& self.payload_ready == 0
            },
            ParseState::Mask => {
                &&& self.holds_header_bytes()
                &&& self.held@[1] & 0x80 != 0
                &&& 2 + length_width(self.held@[1]) <= self.header_len < head_len(self.held@[1])
                &&& length_error(self.held@, self.later_rules()) is None
                &&& self.header is Some
                &&& self.header->0@ == (HeaderView { mask: None, ..header_of(self.held@) })
                &&& self.payload_ready == 0
            },
            ParseState::Payload => {
                &&& header_ready(self.held@, self.later_rules())
                &&& self.held@.len() == head_len(self.held@[1])
                &&& self.header is Some
                &&& self.header->0@ == header_of(self.held@)
                &&& self.payload_ready <= declared_len(self.held@)
            },
        }
    }

    /// The frame that waits for the rest of its payload.
    pub closed spec fn pending(&self) -> Option<PendingPayload> {
        if self.state is Payload && self.header is Some {
            Some(
                PendingPayload {
                    opcode: self.header->0.opcode,
                    fin: self.header->0.fin,
                    rsv1: self.header->0.rsv1,
                    ready: self.payload_ready,
                    total: self.header->0.payload_len as usize,
                },
            )
        } else {
            None
        }
    }

    /// Create a new frame parser
    pub fn new(max_frame_size: usize, expect_masked: bool) -> (r: Self)
        ensures
            r.wf(),
            r.at_start(),
            r@ == new_parser(max_frame_size as nat, expect_masked, false),
            r.limits() == (max_frame_size as nat, expect_masked, false),
            r.pending() is None,
            r.ready() == 0,
    {
        FrameParser {
            state: ParseState::Header,
            header_buf: [0; 14],
            header_len: 0,
            header: None,
            max_frame_size,
            expect_masked,
            allow_rsv1: false,
            payload_ready: 0,
            held: Ghost(Seq::empty()),
        }
    }

    /// Create a new frame parser with compression support
    pub fn with_compression(max_frame_size: usize, expect_masked: bool) -> (r: Self)
        ensures
            r.wf(),
            r.at_start(),
            r@ == new_parser(max_frame_size as nat, expect_masked, true),
            r.limits() == (max_frame_size as nat, expect_masked, true),
            r.pending() is None,
            r.ready() == 0,
    {
        FrameParser {
            state: ParseState::Header,
            header_buf: [0; 14],
            header_len: 0,
            header: None,
            max_frame_size,
            expect_masked,
            allow_rsv1: true,
            payload_ready: 0,
            held: Ghost(Seq::empty()),
        }
    }

    /// What a parser between two frames sees is the caller's buffer itself,
    /// judged by the limits it was made with.
    pub proof fn lemma_at_start(&self, buf: Seq<u8>)
        requires
            self.wf(),
            self.at_start(),
        ensures
            self.wire(buf) == buf,
            self.rules() == (FrameRules {
                max_frame_size: self.limits().0,
                expect_masked: self.limits().1,
                allow_rsv1: self.limits().2,
            }),
    {
        assert(self.wire(buf) =~= buf);
    }

    /// What the parser sees holds the caller's buffer, and before it at most a header.
    pub proof fn lemma_wire_holds_buffer(&self, buf: Seq<u8>)
        requires
            self.wf(),
        ensures
            buf.len() <= self.wire(buf).len() <= buf.len() + 14,
    {
    }

    /// Bytes appended to the caller's buffer are appended to what the parser sees.
    pub proof fn law_wire_extends(&self, buf: Seq<u8>, more: Seq<u8>)
        requires
            self.wf(),
            self.ready() <= buf.len(),
        ensures
            self.wire(buf + more) == self.wire(buf) + more,
    {
        assert(self.wire(buf + more) =~= self.wire(buf) + more);
    }

    /// Describe the frame currently waiting for the rest of its payload.
    ///
    /// Returns `None` unless a header has been fully parsed and the payload is
    /// still incomplete. The first `ready` bytes of the buffer passed to the
    /// last [`FrameParser::parse`] call are the unmasked payload prefix.
    pub fn pending_payload(&self) -> (r: Option<PendingPayload>)
        ensures
            r == self.pending(),
    {
        if self.state != ParseState::Payload {
            return None;
        }
        match &self.header {
            Some(header) => Some(
                PendingPayload {
                    opcode: header.opcode,
                    fin: header.fin,
                    rsv1: header.rsv1,
                    ready: self.payload_ready,
                    total: header.payload_len as usize,
                },
            ),
            None => None,
        }
    }

    /// The rules for the current frame follow from the parser's limits. RSV1
    /// stays allowed once the first two bytes were read.
    pub proof fn lemma_rules(&self)
        ensures
            self.rules() == (FrameRules {
                max_frame_size: self.limits().0,
                expect_masked: self.limits().1,
                allow_rsv1: self.limits().2 || !self.at_start(),
            }),
    {
    }

    /// Enable or disable RSV1 (compression) support
    pub fn set_compression(&mut self, enabled: bool)
        ensures
            old(self).wf() ==> final(self).wf(),
            final(self)@ == (ParserView { allow_rsv1: enabled, ..old(self)@ }),
            final(self).limits() == (old(self).limits().0, old(self).limits().1, enabled),
            final(self).pending() == old(self).pending(),
            final(self).at_start() == old(self).at_start(),
            final(self).ready() == old(self).ready(),
            forall|buf: Seq<u8>| #[trigger] final(self).wire(buf) == old(self).wire(buf),
            !old(self).at_start() ==> final(self).rules() == old(self).rules(),
    {
        self.allow_rsv1 = enabled;
    }

    /// Reset parser state for next frame
    fn reset(&mut self)
        ensures
            final(self).wf(),
            final(self).at_start(),
            final(self).limits() == old(self).limits(),
            final(self).pending() is None,
            final(self).ready() == 0,
            final(self).held@ == Seq::<u8>::empty(),
    {
        self.state = ParseState::Header;
        self.header_len = 0;
        self.header = None;
        self.payload_ready = 0;
        proof {
            self.held@ = Seq::empty();
        }
    }
}

proof fn lemma_remasked_zero(buf: Seq<u8>, key: Option<Seq<u8>>)
    ensures
        remasked(buf, key, 0) == buf,
{
    assert(remasked(buf, key, 0) =~= buf);
}

/// Taking the mask off what was put back on gives the payload that was there.
proof fn lemma_remasked_whole(buf: Seq<u8>, key: Seq<u8>, ready: nat)
    requires
        key.len() == 4,
        buf.len() <= ready,
    ensures
        simd::masked(remasked(buf, Some(key), ready), key, 0) == buf,
{
    assert(remasked(buf, Some(key), ready) =~= simd::masked(buf, key, 0));
    simd::law_mask_is_an_involution(buf, key, 0);
}

/// Unmasking the rest of a payload whose first `ready` bytes are plain already
/// gives the whole payload.
proof fn lemma_finish_unmask(buf: Seq<u8>, key: Seq<u8>, ready: nat)
    requires
        key.len() == 4,
        ready <= buf.len(),
    ensures
        simd::masked(remasked(buf, Some(key), ready), key, 0) == buf.take(ready as int)
            + simd::masked(buf.skip(ready as int), key, ready as int),
{
    let raw = remasked(buf, Some(key), ready);
    let head = buf.take(ready as int);
    let tail = buf.skip(ready as int);
    assert(raw =~= remasked(head, Some(key), ready) + tail);
    simd::law_mask_runs_concatenate(remasked(head, Some(key), ready), tail, key, 0);
    lemma_remasked_whole(head, key, ready);
}

impl FrameParser {
    /// Moves `n` bytes from the front of the buffer to the header bytes.
    fn take_header_bytes(&mut self, buf: &mut BytesMut, n: usize)
        requires
            old(self).header_len + n <= 14,
            old(self).held@ == old(self).header_buf@.take(old(self).header_len as int),
            n <= old(buf)@.len(),
        ensures
            final(self).held@ == old(self).held@ + old(buf)@.take(n as int),
            final(self).header_len == old(self).header_len + n,
            final(self).held@ == final(self).header_buf@.take(final(self).header_len as int),
            final(buf)@ == old(buf)@.skip(n as int),
            final(self).state == old(self).state,
            final(self).header == old(self).header,
            final(self).limits() == old(self).limits(),
            final(self).payload_ready == old(self).payload_ready,
    {
        let start: usize = self.header_len;
        let mut i: usize = 0;
        while i < n
            invariant
                i <= n,
                n <= buf@.len(),
                buf@ == old(buf)@,
                start + n <= 14,
                start == old(self).header_len,
                self.held@ == old(self).held@,
                self.header_len == start,
                self.state == old(self).state,
                self.header == old(self).header,
                self.limits() == old(self).limits(),
                self.payload_ready == old(self).payload_ready,
                forall|j: int|
                    0 <= j < start ==> self.header_buf@[j] == old(self).header_buf@[j],
                forall|j: int| 0 <= j < i ==> self.header_buf@[start + j] == buf@[j],
            decreases n - i,
        {
            self.header_buf[start + i] = buf[i];
            i = i + 1;
        }
        self.header_len = start + n;
        proof {
            self.held@ = old(self).held@ + old(buf)@.take(n as int);
            assert(self.held@ =~= self.header_buf@.take(self.header_len as int));
        }
        buffer::advance(buf, n);
    }

    /// Reads the first bytes of a frame. `Ok(true)` tells that the header is
    /// complete, `Ok(false)` that more bytes are needed.
    #[verifier::rlimit(60)]
    fn header_step(&mut self, buf: &mut BytesMut) -> (r: Result<bool>)
        requires
            old(self).wf(),
            old(self).state is Header,
        ensures
            final(self).wf(),
            final(self).limits() == old(self).limits(),
            final(self).wire(final(buf)@) == old(self).wire(old(buf)@),
            final(self).payload_ready == 0,
            final(buf)@.len() <= old(buf)@.len(),
            match r {
                Err(e) => {
                    &&& decode(old(buf)@, old(self).rules()) == Decoded::Invalid(e)
                    &&& *final(self) == *old(self)
                    &&& final(buf)@ == old(buf)@
                },
                Ok(false) => {
                    &&& decode(old(buf)@, old(self).rules()) is Incomplete
                    &&& !header_ready(old(buf)@, old(self).rules())
                    &&& !(final(self).state is Payload)
                    &&& final(self).held@ == old(buf)@.take(kept(old(self)@, old(buf)@) as int)
                },
                Ok(true) => {
                    &&& final(self).state is Payload
                    &&& header_ready(old(buf)@, old(self).rules())
                    &&& final(self).held@ == old(buf)@.take(head_len(old(buf)@[1]) as int)
                },
            },
    {
        let ghost w = buf@;
        let ghost rules = self.rules();
        proof {
            self.lemma_at_start(w);
        }
        if buf.len() < 2 {
            assert(self.held@ =~= w.take(0));
            return Ok(false);
        }
        let b0: u8 = buf[0];
        let b1: u8 = buf[1];

        // Parse first byte
        let fin = b0 & 0x80 != 0;
        let rsv1 = b0 & 0x40 != 0;
        let rsv2 = b0 & 0x20 != 0;
        let rsv3 = b0 & 0x10 != 0;

        // Check RSV bits (must be 0 unless extension negotiated)
        // RSV1 is allowed when compression is enabled
        if rsv1 && !self.allow_rsv1 {
            return Err(Error::Protocol("RSV1 must be 0 (compression not negotiated)"));
        }
        if rsv2 || rsv3 {
            return Err(Error::Protocol("RSV2 and RSV3 must be 0"));
        }
        let opcode = match OpCode::from_u8(b0 & 0x0F) {
            Some(opcode) => opcode,
            None => {
                return Err(Error::InvalidFrame("invalid opcode"));
            },
        };

        // Control frames must not be fragmented
        if opcode.is_control() && !fin {
            return Err(Error::Protocol("control frame must not be fragmented"));
        }
        // Parse second byte

        let masked = b1 & 0x80 != 0;
        let len_byte: u8 = b1 & 0x7F;

        // Validate masking
        if self.expect_masked && !masked {
            return Err(Error::Protocol("client frames must be masked"));
        }
        if !self.expect_masked && masked {
            return Err(Error::Protocol("server frames must not be masked"));
        }
        assert(prefix_error(w[0], w[1], rules) is None);
        assert(prefix_error(w[0], w[1], self.later_rules()) is None);

        // Determine payload length
        proof {
            assert(b1 & 0x7F <= 127) by (bit_vector);
        }
        let payload_len: u64;
        let header_size: usize;
        if len_byte <= 125 {
            payload_len = len_byte as u64;
            header_size = 2;
        } else if len_byte == 126 {
            if buf.len() < 4 {
                // Need more data for extended length
                self.header_len = 0;
                assert(self.held@ =~= self.header_buf@.take(0));
                self.take_header_bytes(buf, 2);
                self.state = ParseState::ExtendedLen16;
                assert(self.wire(buf@) =~= w);
                return Ok(false);
            }
            payload_len = octets::u16_from_be(buf[2], buf[3]) as u64;
            header_size = 4;
            assert(seq![w[2], w[3]] =~= w.subrange(2, 4));
            // Validate minimum length for 16-bit encoding
            if payload_len < 126 {
                return Err(Error::Protocol("payload length not minimal"));
            }
        } else {
            if buf.len() < 10 {
                self.header_len = 0;
                assert(self.held@ =~= self.header_buf@.take(0));
                self.take_header_bytes(buf, 2);
                self.state = ParseState::ExtendedLen64;
                assert(self.wire(buf@) =~= w);
                return Ok(false);
            }
            payload_len = octets::u64_from_be(&buf[2..10]);
            header_size = 10;
            // Validate minimum length for 64-bit encoding
            if payload_len <= 0xFFFF {
                return Err(Error::Protocol("payload length not minimal"));
            }
            // Validate MSB is 0

            if payload_len >= 0x8000_0000_0000_0000 {
                return Err(Error::Protocol("payload length MSB must be 0"));
            }
        }
        assert(payload_len == declared_len(w));

        // Control frame length check
        if opcode.is_control() && payload_len > 125 {
            return Err(Error::Protocol("control frame too large"));
        }
        // Frame size check

        if payload_len > self.max_frame_size as u64 {
            return Err(Error::FrameTooLarge);
        }
        assert(length_error(w, rules) is None);
        assert(length_error(w, self.later_rules()) is None);

        let header = FrameHeader {
            fin,
            rsv1,
            rsv2,
            rsv3,
            opcode,
            masked,
            payload_len,
            mask: None,
        };

        // Get mask if needed
        let total_header: usize = header_size + if masked {
            4
        } else {
            0
        };
        if buf.len() < total_header {
            // Save partial header and advance buffer
            let have: usize = buf.len();
            self.header_len = 0;
            assert(self.held@ =~= self.header_buf@.take(0));
            self.take_header_bytes(buf, have);
            assert(self.held@ =~= w);
            self.header = Some(header);
            self.state = ParseState::Mask;
            assert(self.wire(buf@) =~= w);
            return Ok(false);
        }
        let mask = if masked {
            Some(
                [
                    buf[header_size],
                    buf[header_size + 1],
                    buf[header_size + 2],
                    buf[header_size + 3],
                ],
            )
        } else {
            None
        };

        // We have the complete header
        buffer::advance(buf, total_header);
        self.header = Some(FrameHeader { mask, ..header });
        self.state = ParseState::Payload;
        proof {
            self.held@ = w.take(total_header as int);
            lemma_header_prefix(w, total_header as int);
            assert(self.header->0@.mask == mask_key(w)) by {
                if masked {
                    assert(mask->0@ =~= mask_key(w)->0);
                }
            }
            lemma_remasked_zero(buf@, self.mask_in_use());
            assert(self.wire(buf@) =~= w);
        }
        Ok(true)
    }
}

/// What a header says depends on the header bytes alone.
pub proof fn lemma_header_prefix(w: Seq<u8>, n: int)
    requires
        w.len() >= 2,
        2 + length_width(w[1]) <= n <= w.len(),
    ensures
        declared_len(w.take(n)) == declared_len(w),
        forall|rules: FrameRules| #[trigger]
            length_error(w.take(n), rules) == length_error(w, rules),
        n >= head_len(w[1]) ==> mask_key(w.take(n)) == mask_key(w),
        n >= head_len(w[1]) ==> header_of(w.take(n)) == header_of(w),
{
    let p = w.take(n);
    assert(p[0] == w[0] && p[1] == w[1]);
    let width = length_width(w[1]) as int;
    assert(p.subrange(2, 2 + width) =~= w.subrange(2, 2 + width));
    if n >= head_len(w[1]) && w[1] & 0x80 != 0 {
        assert(p.subrange(2 + width, 6 + width) =~= w.subrange(2 + width, 6 + width));
    }
}

impl FrameParser {
    /// Builds the header from the saved first two bytes and the length that
    /// follows them.
    fn parse_header_with_len(&self, payload_len: u64) -> (r: Result<FrameHeader>)
        requires
            old_width_ok(self.held@, payload_len as nat),
            self.holds_header_bytes(),
        ensures
            match r {
                Ok(h) => {
                    &&& length_error(self.held@, self.later_rules()) is None
                    &&& h@ == (HeaderView { mask: None, ..header_of(self.held@) })
                },
                Err(e) => length_error(self.held@, self.later_rules()) == Some(e),
            },
    {
        let b0: u8 = self.header_buf[0];
        let b1: u8 = self.header_buf[1];
        assert(b0 == self.held@[0] && b1 == self.held@[1]);
        let opcode = match OpCode::from_u8(b0 & 0x0F) {
            Some(opcode) => opcode,
            None => {
                return Err(Error::InvalidFrame("invalid opcode"));
            },
        };
        if opcode.is_control() && payload_len > 125 {
            return Err(Error::Protocol("control frame too large"));
        }
        if payload_len > self.max_frame_size as u64 {
            return Err(Error::FrameTooLarge);
        }
        Ok(
            FrameHeader {
                fin: b0 & 0x80 != 0,
                rsv1: b0 & 0x40 != 0,
                rsv2: b0 & 0x20 != 0,
                rsv3: b0 & 0x10 != 0,
                opcode,
                masked: b1 & 0x80 != 0,
                payload_len,
                mask: None,
            },
        )
    }

    /// Reads the extended length. `Ok(true)` tells that it is there.
    fn extended_step(&mut self, buf: &mut BytesMut) -> (r: Result<bool>)
        requires
            old(self).wf(),
            old(self).state is ExtendedLen16 || old(self).state is ExtendedLen64,
        ensures
            final(self).wf(),
            final(self).limits() == old(self).limits(),
            final(self).wire(final(buf)@) == old(self).wire(old(buf)@),
            final(self).payload_ready == 0,
            final(buf)@.len() <= old(buf)@.len(),
            match r {
                Err(e) => {
                    let w = old(self).wire(old(buf)@);
                    &&& decode(w, old(self).rules()) == Decoded::Invalid(e)
                    &&& final(self).state == old(self).state
                    &&& final(self).held@ == w.take(2 + length_width(w[1]) as int)
                },
                Ok(false) => {
                    let w = old(self).wire(old(buf)@);
                    &&& decode(w, old(self).rules()) is Incomplete
                    &&& !header_ready(w, old(self).rules())
                    &&& final(self).state == old(self).state
                    &&& final(self).held@ == w
                },
                Ok(true) => {
                    let w = old(self).wire(old(buf)@);
                    &&& final(self).state is Mask || final(self).state is Payload
                    &&& final(self).held@ == w.take(2 + length_width(w[1]) as int)
                },
            },
    {
        let ghost w = self.wire(buf@);
        let ghost rules = self.rules();
        proof {
            assert(rules == self.later_rules());
            assert(w =~= self.held@ + buf@);
            assert(w[0] == self.held@[0] && w[1] == self.held@[1]);
        }
        let wide = self.state == ParseState::ExtendedLen64;
        let target_len: usize = if wide {
            10
        } else {
            4
        };
        let needed: usize = target_len - self.header_len;
        if buf.len() < needed {
            // Copy what we have and advance buffer
            let have: usize = buf.len();
            self.take_header_bytes(buf, have);
            assert(self.wire(buf@) =~= w);
            return Ok(false);
        }
        // Copy remaining length bytes

        self.take_header_bytes(buf, needed);
        proof {
            assert(self.held@ =~= w.take(target_len as int));
            assert(self.wire(buf@) =~= w);
            assert(rules == self.later_rules());
            lemma_header_prefix(w, target_len as int);
        }
        let payload_len: u64;
        if wide {
            payload_len = octets::u64_from_be(&self.header_buf[2..10]);
            assert(self.header_buf@.subrange(2, 10) =~= self.held@.subrange(2, 10));
            if payload_len <= 0xFFFF {
                return Err(Error::Protocol("payload length not minimal"));
            }
            if payload_len >= 0x8000_0000_0000_0000 {
                return Err(Error::Protocol("payload length MSB must be 0"));
            }
        } else {
            payload_len = octets::u16_from_be(self.header_buf[2], self.header_buf[3]) as u64;
            assert(seq![self.header_buf@[2], self.header_buf@[3]] =~= self.held@.subrange(2, 4));
            if payload_len < 126 {
                return Err(Error::Protocol("payload length not minimal"));
            }
        }
        let header = match self.parse_header_with_len(payload_len) {
            Ok(header) => header,
            Err(e) => {
                return Err(e);
            },
        };
        let masked = header.masked;
        self.header = Some(header);
        if masked {
            self.state = ParseState::Mask;
            assert(self.wire(buf@) =~= w);
        } else {
            self.state = ParseState::Payload;
            proof {
                lemma_remasked_zero(buf@, self.mask_in_use());
                assert(self.wire(buf@) =~= w);
            }
        }
        Ok(true)
    }

    /// Reads the masking key. `true` tells that it is there.
    #[verifier::rlimit(60)]
    fn mask_step(&mut self, buf: &mut BytesMut) -> (r: bool)
        requires
            old(self).wf(),
            old(self).state is Mask,
        ensures
            final(self).wf(),
            final(self).limits() == old(self).limits(),
            final(self).wire(final(buf)@) == old(self).wire(old(buf)@),
            final(self).payload_ready == 0,
            final(buf)@.len() <= old(buf)@.len(),
            r ==> {
                let w = old(self).wire(old(buf)@);
                &&& final(self).state is Payload
                &&& final(self).held@ == w.take(head_len(w[1]) as int)
            },
            !r ==> {
                &&& final(self).state is Mask
                &&& final(self).held@ == old(self).wire(old(buf)@)
                &&& decode(old(self).wire(old(buf)@), old(self).rules()) is Incomplete
                &&& !header_ready(old(self).wire(old(buf)@), old(self).rules())
            },
    {
        let ghost w = self.wire(buf@);
        let ghost rules = self.rules();
        proof {
            assert(rules == self.later_rules());
            assert(w =~= self.held@ + buf@);
            assert(w[0] == self.held@[0] && w[1] == self.held@[1]);
            assert(w.take(self.held@.len() as int) =~= self.held@);
            lemma_header_prefix(w, self.held@.len() as int);
        }
        let header: FrameHeader = match self.header {
            Some(header) => header,
            None => {
                return false;
            },
        };
        // Calculate base header size (before mask)
        proof {
            lemma_width_is_minimal(self.held@, rules);
        }
        let header_base: usize = if header.payload_len > MEDIUM_MESSAGE_THRESHOLD as u64 {
            10
        } else if header.payload_len > SMALL_MESSAGE_THRESHOLD as u64 {
            4
        } else {
            2
        };
        // Total header with mask is header_base + 4
        let target_len: usize = header_base + 4;
        let needed: usize = target_len - self.header_len;
        if buf.len() < needed {
            // Copy what we have and advance buffer
            let have: usize = buf.len();
            self.take_header_bytes(buf, have);
            proof {
                assert(self.held@ =~= w);
                assert(self.wire(buf@) =~= w);
            }
            return false;
        }
        // Copy remaining bytes needed to complete the mask

        self.take_header_bytes(buf, needed);
        proof {
            assert(self.held@ =~= w.take(target_len as int));
            lemma_header_prefix(w, target_len as int);
        }
        // Extract mask from header_buf at the correct position
        let mask: [u8; 4] = [
            self.header_buf[header_base],
            self.header_buf[header_base + 1],
            self.header_buf[header_base + 2],
            self.header_buf[header_base + 3],
        ];
        assert(mask@ =~= mask_key(self.held@)->0);
        self.header = Some(FrameHeader { mask: Some(mask), ..header });
        self.state = ParseState::Payload;
        proof {
            lemma_remasked_zero(buf@, self.mask_in_use());
            assert(self.wire(buf@) =~= w);
        }
        true
    }

    /// Takes the payload out once it is all there; else unmasks what arrived.
    #[verifier::rlimit(40)]
    fn payload_step(&mut self, buf: &mut BytesMut) -> (r: Option<Frame>)
        requires
            old(self).wf(),
            old(self).state is Payload,
        ensures
            final(self).wf(),
            final(self).limits() == old(self).limits(),
            match r {
                None => {
                    &&& decode(old(self).wire(old(buf)@), old(self).rules()) is Incomplete
                    &&& header_ready(old(self).wire(old(buf)@), old(self).rules())
                    &&& final(self).wire(final(buf)@) == old(self).wire(old(buf)@)
                    &&& final(self).state is Payload
                    &&& final(self).header == old(self).header
                    &&& final(self).held@ == old(self).held@
                    &&& final(buf)@ == payload_so_far(old(self).wire(old(buf)@))
                    &&& final(buf)@.len() == old(buf)@.len()
                    &&& final(self).payload_ready == if old(self).payload_ready
                        >= final(buf)@.len() {
                        old(self).payload_ready as nat
                    } else {
                        final(buf)@.len()
                    }
                },
                Some(frame) => {
                    let w = old(self).wire(old(buf)@);
                    &&& decode(w, old(self).rules()) matches Decoded::Complete {
                        header,
                        payload,
                        consumed,
                    }
                    &&& frame.header@ == header
                    &&& frame.payload@ == payload
                    &&& final(buf)@ == w.skip(consumed as int)
                    &&& final(buf)@.len() + payload.len() <= old(buf)@.len()
                    &&& final(self).state is Header
                },
            },
    {
        let ghost w = self.wire(buf@);
        let ghost rules = self.rules();
        let ghost held = self.held@;
        let ghost raw = remasked(buf@, self.mask_in_use(), self.payload_ready as nat);
        proof {
            assert(rules == self.later_rules());
            assert(w =~= held + raw);
            assert(w[0] == held[0] && w[1] == held[1]);
            assert(w.take(held.len() as int) =~= held);
            lemma_header_prefix(w, held.len() as int);
            assert(w.skip(held.len() as int) =~= raw);
        }
        let header: FrameHeader = match self.header {
            Some(header) => header,
            None => {
                return None;
            },
        };
        let payload_len: usize = header.payload_len as usize;
        let ready: usize = self.payload_ready;
        if buf.len() < payload_len {
            // Streaming unmask: make the bytes that already arrived
            // readable so callers can validate them before the frame
            // completes (fail-fast UTF-8) and so the final unmask only
            // touches the tail.
            let available: usize = buf.len();
            if available > ready {
                if let Some(mask) = header.mask {
                    {
                        let all: &mut [u8] = &mut *buf;
                        let (_head, tail) = all.split_at_mut(ready);
                        apply_mask_offset(tail, mask, ready);
                    }
                    proof {
                        lemma_finish_unmask(old(buf)@, mask@, ready as nat);
                        assert(buf@ =~= simd::masked(raw, mask@, 0));
                        simd::law_mask_is_an_involution(raw, mask@, 0);
                        assert(remasked(buf@, Some(mask@), available as nat) =~= simd::masked(
                            buf@,
                            mask@,
                            0,
                        ));
                    }
                }
                self.payload_ready = available;
            } else {
                proof {
                    if let Some(mask) = header.mask {
                        lemma_remasked_whole(buf@, mask@, ready as nat);
                    }
                }
            }
            assert(self.wire(buf@) =~= w);
            return None;
        }
        // Extract and unmask the part of the payload that was not
        // already unmasked while streaming.

        let ghost before = buf@;
        let mut payload = buf.split_to(payload_len);
        let ghost taken = payload@;
        proof {
            assert(raw.take(payload_len as int) =~= remasked(
                taken,
                self.mask_in_use(),
                ready as nat,
            ));
            assert(w.subrange(held.len() as int, (held.len() + payload_len) as int) =~= raw.take(
                payload_len as int,
            ));
        }
        if let Some(mask) = header.mask {
            if ready < payload_len {
                {
                    let all: &mut [u8] = &mut *payload;
                    let (_head, tail) = all.split_at_mut(ready);
                    apply_mask_offset(tail, mask, ready);
                }
                proof {
                    lemma_finish_unmask(taken, mask@, ready as nat);
                    assert(payload@ =~= simd::masked(raw.take(payload_len as int), mask@, 0));
                }
            } else {
                proof {
                    lemma_remasked_whole(taken, mask@, ready as nat);
                }
            }
        }
        self.reset();
        proof {
            assert(buf@ =~= w.skip((held.len() + payload_len) as int));
        }
        Some(Frame { header, payload: payload.freeze() })
    }
}

/// Whether a length just read is the one that the saved header bytes declare,
/// and is written in as few bytes as can be.
spec fn old_width_ok(held: Seq<u8>, payload_len: nat) -> bool {
    &&& payload_len == declared_len(held)
    &&& length_width(held[1]) == 2 ==> payload_len >= 126
    &&& length_width(held[1]) == 8 ==> 0xFFFF < payload_len < 0x8000_0000_0000_0000
}

/// An accepted length is written in as few bytes as can be.
proof fn lemma_width_is_minimal(w: Seq<u8>, rules: FrameRules)
    requires
        w.len() >= 2,
        w.len() >= 2 + length_width(w[1]),
        length_error(w, rules) is None,
    ensures
        width_for(declared_len(w)) == length_width(w[1]),
{
    let b1 = w[1];
    assert(b1 & 0x7F <= 127) by (bit_vector);
    if length_width(b1) == 2 {
        octets::lemma_be_value_2(w.subrange(2, 4));
    }
}

/// Whether `w` begins with a whole frame whose length needs no extended field,
/// that is masked as it has to be, and whose first byte holds a known opcode
/// and no reserved bit that is refused. The frame may still be refused for
/// being a fragment of a control message or longer than is accepted.
spec fn small_frame(w: Seq<u8>, rules: FrameRules) -> bool {
    &&& w.len() >= 2
    &&& length_width(w[1]) == 0
    &&& (w[1] & 0x80 != 0) == rules.expect_masked
    &&& w.len() >= head_len(w[1]) + declared_len(w)
    &&& w[0] & 0x40 != 0 ==> rules.allow_rsv1
    &&& w[0] & 0x20 == 0
    &&& w[0] & 0x10 == 0
    &&& opcode_of(w[0] & 0x0F) is Some
}

impl FrameParser {
    /// A parse that left the frame incomplete describes it as `decode` sees it.
    proof fn lemma_pending(&self, buf: Seq<u8>)
        requires
            self.wf(),
            self.state is Payload,
        ensures
            self.pending() is Some,
            self.pending()->0.opcode == header_of(self.wire(buf)).opcode,
            self.pending()->0.fin == header_of(self.wire(buf)).fin,
            self.pending()->0.rsv1 == header_of(self.wire(buf)).rsv1,
            self.pending()->0.ready == self.ready(),
            self.pending()->0.total == declared_len(self.wire(buf)),
    {
        let w = self.wire(buf);
        assert(w.take(self.held@.len() as int) =~= self.held@);
        assert(w[0] == self.held@[0] && w[1] == self.held@[1]);
        lemma_header_prefix(w, self.held@.len() as int);
    }

    /// A parser that waits for the payload holds the header.
    proof fn lemma_held(&self, buf: Seq<u8>)
        requires
            self.wf(),
            self.state is Payload,
        ensures
            self.held@ == self.wire(buf).take(head_len(self.wire(buf)[1]) as int),
    {
        let w = self.wire(buf);
        assert(w[1] == self.held@[1]);
        assert(w.take(self.held@.len() as int) =~= self.held@);
    }

    /// A parse that has not come to the payload leaves what it kept and the rest.
    proof fn lemma_left(&self, v: ParserView, buf: Seq<u8>, left: Seq<u8>)
        requires
            !(self.state is Payload),
            self.wire(left) == v.wire(buf),
            self@ == (ParserView {
                held: v.wire(buf).take(kept(v, v.wire(buf)) as int),
                ready: 0,
                ..v
            }),
            kept(v, v.wire(buf)) <= v.wire(buf).len(),
            !(decode(v.wire(buf), v.rules()) is Complete),
            !header_ready(v.wire(buf), v.rules()),
        ensures
            parsed(v, buf) == (self@, left),
    {
        let w = v.wire(buf);
        let k = kept(v, w) as int;
        assert(w =~= self.held@ + left);
        assert(w.skip(k) =~= left);
    }

    /// A parse that waits for the rest of the payload leaves what arrived of it.
    proof fn lemma_left_payload(&self, v: ParserView, buf: Seq<u8>, left: Seq<u8>)
        requires
            header_ready(v.wire(buf), v.rules()),
            decode(v.wire(buf), v.rules()) is Incomplete,
            self@.held == v.wire(buf).take(head_len(v.wire(buf)[1]) as int),
            left == payload_so_far(v.wire(buf)),
            self@ == (ParserView {
                held: self@.held,
                ready: if v.ready >= left.len() {
                    v.ready
                } else {
                    left.len()
                },
                ..v
            }),
        ensures
            parsed(v, buf) == (self@, left),
    {
    }

    /// Parses a frame with a short payload that is in the buffer as a whole.
    /// `None` leaves the frame to the state machine: it is longer or not all
    /// there, or its reserved bits, its opcode or its masking are refused.
    fn parse_small(&mut self, buf: &mut BytesMut) -> (r: Option<Result<Frame>>)
        requires
            old(self).wf(),
            old(self).state is Header,
        ensures
            *final(self) == *old(self),
            r is Some <==> small_frame(old(buf)@, old(self).rules()),
            match r {
                None => final(buf)@ == old(buf)@,
                Some(Err(e)) => {
                    &&& final(buf)@ == old(buf)@
                    &&& decode(old(buf)@, old(self).rules()) == Decoded::Invalid(e)
                },
                Some(Ok(frame)) => {
                    &&& decode(old(buf)@, old(self).rules()) matches Decoded::Complete {
                        header,
                        payload,
                        consumed,
                    }
                    &&& frame.header@ == header
                    &&& frame.payload@ == payload
                    &&& final(buf)@ == old(buf)@.skip(consumed as int)
                },
            },
    {
        let ghost w = buf@;
        let head: usize = if self.expect_masked {
            6
        } else {
            2
        };
        if buf.len() < head {
            return None;
        }
        let b0: u8 = buf[0];
        let b1: u8 = buf[1];
        let len_byte: u8 = b1 & 0x7F;
        let masked = b1 & 0x80 != 0;
        assert(b1 & 0x7F <= 127) by (bit_vector);

        // Check: small frame, masked as expected, no extended length
        if len_byte > 125 || masked != self.expect_masked {
            return None;
        }
        let payload_len: usize = len_byte as usize;
        if buf.len() < head + payload_len {
            return None;
        }
        let fin = b0 & 0x80 != 0;
        let rsv1 = b0 & 0x40 != 0;
        let rsv2 = b0 & 0x20 != 0;
        let rsv3 = b0 & 0x10 != 0;
        if (rsv1 && !self.allow_rsv1) || rsv2 || rsv3 {
            return None;
        }
        let opcode = match OpCode::from_u8(b0 & 0x0F) {
            Some(opcode) => opcode,
            None => {
                return None;
            },
        };
        // Control frame fragmentation check
        if opcode.is_control() && !fin {
            return Some(Err(Error::Protocol("control frame must not be fragmented")));
        }
        if payload_len > self.max_frame_size {
            return Some(Err(Error::FrameTooLarge));
        }
        // Extract mask

        let mask: Option<[u8; 4]> = if masked {
            Some([buf[2], buf[3], buf[4], buf[5]])
        } else {
            None
        };
        // Extract and unmask payload
        buffer::advance(buf, head);
        let mut payload = buf.split_to(payload_len);
        proof {
            assert(payload@ =~= w.subrange(head as int, (head + payload_len) as int));
            assert(buf@ =~= w.skip((head + payload_len) as int));
            if masked {
                assert(mask->0@ =~= w.subrange(2, 6));
            }
        }
        if let Some(key) = mask {
            apply_mask(&mut payload, key);
        }
        Some(
            Ok(
                Frame {
                    header: FrameHeader {
                        fin,
                        rsv1,
                        rsv2,
                        rsv3,
                        opcode,
                        masked,
                        payload_len: payload_len as u64,
                        mask,
                    },
                    payload: payload.freeze(),
                },
            ),
        )
    }

    /// Parse a frame from the buffer
    ///
    /// Returns:
    /// - Ok(Some(frame)) if a complete frame was parsed
    /// - Ok(None) if more data is needed
    /// - Err(e) if parsing failed
    ///
    /// The result depends on the bytes of the frame alone, not on how many
    /// calls it took to read them.
    pub fn parse(&mut self, buf: &mut BytesMut) -> (r: Result<Option<Frame>>)
        requires
            old(self).wf(),
        ensures
            final(self).wf(),
            final(self).limits() == old(self).limits(),
            (final(self)@, final(buf)@) == parsed(old(self)@, old(buf)@),
            parse_outcome(
                r,
                old(self).wire(old(buf)@),
                old(self).rules(),
                final(self).wire(final(buf)@),
                final(buf)@,
            ),
            r matches Ok(Some(frame)) ==> final(self).at_start() && final(buf)@.len()
                + frame.payload@.len() <= old(buf)@.len(),
            r matches Ok(None) && old(self).ready() > 0 ==> final(buf)@.len() == old(buf)@.len(),
            r is Err ==> final(self).at_start() == old(self).at_start(),
            !final(self).at_start() ==> final(self).rules().allow_rsv1,
            !(r matches Ok(None) && header_ready(old(self).wire(old(buf)@), old(self).rules()))
                ==> final(self).pending() is None && final(self).ready() == 0,
            r is Err || (r matches Ok(None) && !header_ready(
                old(self).wire(old(buf)@),
                old(self).rules(),
            )) ==> old(self).ready() == 0,
            r matches Ok(None) && header_ready(old(self).wire(old(buf)@), old(self).rules()) ==> {
                &&& final(self).ready() == if old(self).ready() >= final(buf)@.len() {
                    old(self).ready()
                } else {
                    final(buf)@.len()
                }
                &&& pending_matches(
                    final(self).pending(),
                    old(self).wire(old(buf)@),
                    final(self).ready(),
                )
            },
    {
        if self.state == ParseState::Header {
            // Fast path for small frames
            proof {
                self.lemma_at_start(buf@);
            }
            match self.parse_small(buf) {
                Some(Ok(frame)) => {
                    proof {
                        self.lemma_at_start(buf@);
                    }
                    return Ok(Some(frame));
                },
                Some(Err(e)) => {
                    return Err(e);
                },
                None => {},
            }
        }
        self.parse_slow(buf)
    }

    /// Slow path for frame parsing - handles all edge cases
    #[verifier::rlimit(60)]
    fn parse_slow(&mut self, buf: &mut BytesMut) -> (r: Result<Option<Frame>>)
        requires
            old(self).wf(),
        ensures
            final(self).wf(),
            final(self).limits() == old(self).limits(),
            (final(self)@, final(buf)@) == parsed(old(self)@, old(buf)@),
            parse_outcome(
                r,
                old(self).wire(old(buf)@),
                old(self).rules(),
                final(self).wire(final(buf)@),
                final(buf)@,
            ),
            r matches Ok(Some(frame)) ==> final(self).at_start() && final(buf)@.len()
                + frame.payload@.len() <= old(buf)@.len(),
            r matches Ok(None) && old(self).ready() > 0 ==> final(buf)@.len() == old(buf)@.len(),
            r is Err ==> final(self).at_start() == old(self).at_start(),
            !final(self).at_start() ==> final(self).rules().allow_rsv1,
            !(r matches Ok(None) && header_ready(old(self).wire(old(buf)@), old(self).rules()))
                ==> final(self).pending() is None && final(self).ready() == 0,
            r is Err || (r matches Ok(None) && !header_ready(
                old(self).wire(old(buf)@),
                old(self).rules(),
            )) ==> old(self).ready() == 0,
            r matches Ok(None) && header_ready(old(self).wire(old(buf)@), old(self).rules()) ==> {
                &&& final(self).ready() == if old(self).ready() >= final(buf)@.len() {
                    old(self).ready()
                } else {
                    final(buf)@.len()
                }
                &&& pending_matches(
                    final(self).pending(),
                    old(self).wire(old(buf)@),
                    final(self).ready(),
                )
            },
    {
        let ghost w = self.wire(buf@);
        let ghost rules = self.rules();
        let ghost v = self@;
        let ghost given = buf@;
        proof {
            self.lemma_view();
        }
        if self.state == ParseState::Header {
            proof {
                self.lemma_at_start(buf@);
            }
            match self.header_step(buf) {
                Ok(true) => {},
                Ok(false) => {
                    proof {
                        self.lemma_left(v, given, buf@);
                    }
                    return Ok(None);
                },
                Err(e) => {
                    proof {
                        assert(self@.held =~= w.take(0));
                        self.lemma_left(v, given, buf@);
                    }
                    return Err(e);
                },
            }
            proof {
                lemma_rules_relax(w, rules, self.rules());
            }
        }
        if self.state == ParseState::ExtendedLen16 || self.state == ParseState::ExtendedLen64 {
            match self.extended_step(buf) {
                Ok(true) => {},
                Ok(false) => {
                    proof {
                        assert(w.take(w.len() as int) =~= w);
                        self.lemma_left(v, given, buf@);
                    }
                    return Ok(None);
                },
                Err(e) => {
                    proof {
                        self.lemma_left(v, given, buf@);
                    }
                    return Err(e);
                },
            }
        }
        if self.state == ParseState::Mask {
            if !self.mask_step(buf) {
                proof {
                    assert(w.take(w.len() as int) =~= w);
                    self.lemma_left(v, given, buf@);
                }
                return Ok(None);
            }
        }
        assert(self.held@ == w.take(head_len(w[1]) as int)) by {
            self.lemma_held(buf@);
        }
        let r = self.payload_step(buf);
        proof {
            if r is None {
                self.lemma_pending(buf@);
                self.lemma_left_payload(v, given, buf@);
            } else {
                self.lemma_at_start(buf@);
                assert(self.held@ =~= Seq::<u8>::empty());
            }
        }
        Ok(r)
    }
}

/// Once the first two bytes are accepted, allowing RSV1 changes nothing.
proof fn lemma_rules_relax(w: Seq<u8>, a: FrameRules, b: FrameRules)
    requires
        w.len() >= 2,
        prefix_error(w[0], w[1], a) is None,
        b == (FrameRules { allow_rsv1: true, ..a }),
    ensures
        decode(w, a) == decode(w, b),
        header_ready(w, a) == header_ready(w, b),
{
}

/// How the result of a parse follows from the bytes on the wire: `w` before
/// the call, `rest` after it, where `buf` is what the buffer holds then.
pub open spec fn parse_outcome(
    r: Result<Option<Frame>>,
    w: Seq<u8>,
    rules: FrameRules,
    rest: Seq<u8>,
    buf: Seq<u8>,
) -> bool {
    match decode(w, rules) {
        Decoded::Invalid(e) => r == Err::<Option<Frame>, Error>(e) && rest == w,
        Decoded::Incomplete => {
            &&& r == Ok::<Option<Frame>, Error>(None)
            &&& rest == w
            &&& header_ready(w, rules) ==> buf == payload_so_far(w)
        },
        Decoded::Complete { header, payload, consumed } => {
            &&& r matches Ok(Some(frame))
            &&& frame.header@ == header
            &&& frame.payload@ == payload
            &&& rest == w.skip(consumed as int)
            &&& buf == rest
        },
    }
}

/// The description of the incomplete frame at the start of `w`.
pub open spec fn pending_matches(p: Option<PendingPayload>, w: Seq<u8>, ready: nat) -> bool {
    &&& p is Some
    &&& p->0.opcode == header_of(w).opcode
    &&& p->0.fin == header_of(w).fin
    &&& p->0.rsv1 == header_of(w).rsv1
    &&& p->0.ready == ready
    &&& p->0.total == declared_len(w)
}

/// The header of a frame that this library writes.
pub open spec fn written_header(
    opcode: OpCode,
    payload_len: nat,
    fin: bool,
    mask: Option<Seq<u8>>,
    rsv1: bool,
) -> HeaderView {
    HeaderView {
        fin,
        rsv1,
        rsv2: false,
        rsv3: false,
        opcode,
        masked: mask is Some,
        payload_len,
        mask,
    }
}

/// The bytes of a frame on the wire: its header and its payload, masked if
/// there is a key.
pub open spec fn frame_bytes(
    opcode: OpCode,
    payload: Seq<u8>,
    fin: bool,
    mask: Option<Seq<u8>>,
    rsv1: bool,
) -> Seq<u8> {
    header_bytes(written_header(opcode, payload.len(), fin, mask, rsv1)) + unmasked(payload, mask)
}

/// The length of the header of a frame that this library writes.
pub open spec fn header_len(payload_len: nat, masked: bool) -> nat {
    2 + width_for(payload_len) + if masked {
        4nat
    } else {
        0
    }
}

/// The length of a frame on the wire.
pub open spec fn frame_len(payload_len: nat, masked: bool) -> nat {
    header_len(payload_len, masked) + payload_len
}

pub proof fn lemma_frame_bytes_len(
    opcode: OpCode,
    payload: Seq<u8>,
    fin: bool,
    mask: Option<Seq<u8>>,
    rsv1: bool,
)
    requires
        mask matches Some(key) ==> key.len() == 4,
    ensures
        frame_bytes(opcode, payload, fin, mask, rsv1).len() == frame_len(
            payload.len(),
            mask is Some,
        ),
        header_bytes(written_header(opcode, payload.len(), fin, mask, rsv1)).len() == header_len(
            payload.len(),
            mask is Some,
        ),
{
    octets::lemma_be_bytes_len(payload.len(), width_for(payload.len()));
}

/// Encode a frame into a buffer
///
/// For masked frames (client mode), the payload is copied and masked.
pub fn encode_frame(
    buf: &mut BytesMut,
    opcode: OpCode,
    payload: &[u8],
    fin: bool,
    mask: Option<[u8; 4]>,
)
    requires
        buffer::allocatable(old(buf)@.len() + frame_len(payload@.len(), mask is Some)),
    ensures
        final(buf)@ == old(buf)@ + frame_bytes(opcode, payload@, fin, key_view(mask), false),
{
    encode_frame_with_rsv(buf, opcode, payload, fin, mask, false)
}

/// Encode only a WebSocket frame header into a buffer.
///
/// This is useful for zero-copy writes where the header and payload are sent
/// with vectored I/O instead of copying the payload into a combined buffer.
pub fn encode_frame_header(
    buf: &mut BytesMut,
    opcode: OpCode,
    payload_len: usize,
    fin: bool,
    mask: Option<[u8; 4]>,
)
    requires
        buffer::allocatable(old(buf)@.len() + header_len(payload_len as nat, mask is Some)),
    ensures
        final(buf)@ == old(buf)@ + header_bytes(
            written_header(opcode, payload_len as nat, fin, key_view(mask), false),
        ),
{
    encode_frame_header_with_rsv(buf, opcode, payload_len, fin, mask, false)
}

/// Encode only a WebSocket frame header with RSV1 bit control.
pub fn encode_frame_header_with_rsv(
    buf: &mut BytesMut,
    opcode: OpCode,
    payload_len: usize,
    fin: bool,
    mask: Option<[u8; 4]>,
    rsv1: bool,
)
    requires
        buffer::allocatable(old(buf)@.len() + header_len(payload_len as nat, mask is Some)),
    ensures
        final(buf)@ == old(buf)@ + header_bytes(
            written_header(opcode, payload_len as nat, fin, key_view(mask), rsv1),
        ),
{
    let header = FrameHeader {
        fin,
        rsv1,
        rsv2: false,
        rsv3: false,
        opcode,
        masked: mask.is_some(),
        payload_len: payload_len as u64,
        mask,
    };
    proof {
        assert(header@ == written_header(opcode, payload_len as nat, fin, key_view(mask), rsv1));
        octets::lemma_be_bytes_len(payload_len as nat, width_for(payload_len as nat));
    }
    header.encode(buf);
}

/// Encode a frame with RSV1 bit control (for compression)
///
/// When `rsv1` is true, sets the RSV1 bit indicating compressed data.
pub fn encode_frame_with_rsv(
    buf: &mut BytesMut,
    opcode: OpCode,
    payload: &[u8],
    fin: bool,
    mask: Option<[u8; 4]>,
    rsv1: bool,
)
    requires
        buffer::allocatable(old(buf)@.len() + frame_len(payload@.len(), mask is Some)),
    ensures
        final(buf)@ == old(buf)@ + frame_bytes(opcode, payload@, fin, key_view(mask), rsv1),
{
    proof {
        lemma_frame_bytes_len(opcode, payload@, fin, key_view(mask), rsv1);
    }
    encode_frame_header_with_rsv(buf, opcode, payload.len(), fin, mask, rsv1);
    let start: usize = buf.len();
    let ghost written = buf@;
    buf.extend_from_slice(payload);
    if let Some(key) = mask {
        let all: &mut [u8] = &mut *buf;
        let (_head, tail) = all.split_at_mut(start);
        apply_mask(tail, key);
    }
    proof {
        assert((written + payload@).subrange(0, start as int) =~= written);
        assert((written + payload@).subrange(start as int, (written + payload@).len() as int)
            =~= payload@);
        assert(buf@ =~= written + unmasked(payload@, key_view(mask)));
        assert(buf@ =~= old(buf)@ + frame_bytes(opcode, payload@, fin, key_view(mask), rsv1));
    }
}

proof fn lemma_first_byte_bits(v: u8, f: u8, r1: u8, r2: u8, r3: u8)
    by (bit_vector)
    requires
        v < 16,
        f == 0 || f == 0x80,
        r1 == 0 || r1 == 0x40,
        r2 == 0 || r2 == 0x20,
        r3 == 0 || r3 == 0x10,
    ensures
        (v | f | r1 | r2 | r3) & 0x0F == v,
        ((v | f | r1 | r2 | r3) & 0x80 != 0) <==> f == 0x80,
        ((v | f | r1 | r2 | r3) & 0x40 != 0) <==> r1 == 0x40,
        ((v | f | r1 | r2 | r3) & 0x20 != 0) <==> r2 == 0x20,
        ((v | f | r1 | r2 | r3) & 0x10 != 0) <==> r3 == 0x10,
{
}

proof fn lemma_second_byte_bits(m: u8, len: u8)
    by (bit_vector)
    requires
        m == 0 || m == 0x80,
        len < 128,
    ensures
        (m | len) & 0x7F == len,
        ((m | len) & 0x80 != 0) <==> m == 0x80,
{
}

/// A frame may be sent to a receiver with the given rules.
pub open spec fn sendable(
    opcode: OpCode,
    payload_len: nat,
    fin: bool,
    masked: bool,
    rsv1: bool,
    rules: FrameRules,
) -> bool {
    &&& masked == rules.expect_masked
    &&& rsv1 ==> rules.allow_rsv1
    &&& control(opcode) ==> fin && payload_len <= 125
    &&& payload_len <= rules.max_frame_size
    &&& payload_len < 0x8000_0000_0000_0000
}

/// A receiver reads a frame that was encoded for it exactly as it was meant,
/// whatever follows it: the same header, the same payload, and no byte of what follows.
#[verifier::rlimit(40)]
pub proof fn law_frame_round_trip(
    opcode: OpCode,
    payload: Seq<u8>,
    fin: bool,
    mask: Option<Seq<u8>>,
    rsv1: bool,
    rules: FrameRules,
    rest: Seq<u8>,
)
    requires
        mask matches Some(key) ==> key.len() == 4,
        sendable(opcode, payload.len(), fin, mask is Some, rsv1, rules),
    ensures
        decode(frame_bytes(opcode, payload, fin, mask, rsv1) + rest, rules) == (Decoded::Complete {
            header: written_header(opcode, payload.len(), fin, mask, rsv1),
            payload,
            consumed: frame_bytes(opcode, payload, fin, mask, rsv1).len(),
        }),
{
    let n = payload.len();
    let width = width_for(n);
    let bytes = frame_bytes(opcode, payload, fin, mask, rsv1);
    let w = bytes + rest;
    lemma_frame_bytes_len(opcode, payload, fin, mask, rsv1);
    octets::lemma_be_bytes_len(n, width);
    let f: u8 = if fin {
        0x80
    } else {
        0
    };
    let r1: u8 = if rsv1 {
        0x40
    } else {
        0
    };
    lemma_first_byte_bits(opcode_value(opcode), f, r1, 0, 0);
    let m: u8 = if mask is Some {
        0x80
    } else {
        0
    };
    let len7: u8 = if n > 65535 {
        127
    } else if n > 125 {
        126
    } else {
        n as u8
    };
    lemma_second_byte_bits(m, len7);
    assert(w[0] == first_byte(fin, rsv1, false, false, opcode));
    assert(w[1] == second_byte(mask is Some, n));
    assert(w[1] & 0x7F == len7);
    assert(length_width(w[1]) == width);
    assert(opcode_of(w[0] & 0x0F) == Some(opcode));
    assert(prefix_error(w[0], w[1], rules) is None);
    if width > 0 {
        assert(w.subrange(2, 2 + width as int) =~= octets::be_bytes(n, width));
        octets::lemma_be_limits();
        octets::lemma_be_value_of_be_bytes(n, width);
    }
    assert(declared_len(w) == n);
    assert(length_error(w, rules) is None);
    let head = head_len(w[1]);
    assert(head + n == bytes.len());
    if mask is Some {
        assert(mask_key(w)->0 =~= mask->0);
        simd::law_mask_is_an_involution(payload, mask->0, 0);
    }
    assert(w.subrange(head as int, (head + n) as int) =~= unmasked(payload, mask));
}

/// More bytes never change the verdict on a frame that is complete or refused.
pub proof fn law_verdicts_are_final(w: Seq<u8>, more: Seq<u8>, rules: FrameRules)
    requires
        !(decode(w, rules) is Incomplete),
    ensures
        decode(w + more, rules) == decode(w, rules),
{
    let all = w + more;
    assert(all[0] == w[0] && all[1] == w[1]);
    assert(all.take(w.len() as int) =~= w);
    if prefix_error(w[0], w[1], rules) is None {
        lemma_header_prefix(all, w.len() as int);
        if decode(w, rules) is Complete {
            let head = head_len(w[1]) as int;
            let len = declared_len(w) as int;
            assert(all.subrange(head, head + len) =~= w.subrange(head, head + len));
        }
    }
}

/// A frame header on its own is the start of the whole frame, and what follows
/// it is the payload.
pub proof fn law_header_is_frame_prefix(
    opcode: OpCode,
    payload: Seq<u8>,
    fin: bool,
    mask: Option<Seq<u8>>,
    rsv1: bool,
)
    ensures
        ({
            let header = header_bytes(written_header(opcode, payload.len(), fin, mask, rsv1));
            let frame = frame_bytes(opcode, payload, fin, mask, rsv1);
            &&& frame.take(header.len() as int) == header
            &&& frame.skip(header.len() as int) == unmasked(payload, mask)
        }),
{
    let header = header_bytes(written_header(opcode, payload.len(), fin, mask, rsv1));
    let frame = frame_bytes(opcode, payload, fin, mask, rsv1);
    assert(frame.take(header.len() as int) =~= header);
    assert(frame.skip(header.len() as int) =~= unmasked(payload, mask));
}

} // verus!
