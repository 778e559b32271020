//! What a connection needs of a protocol handler, whether it compresses or not.
//!
//! A [`FrameReader`] turns received bytes into messages, a [`FrameWriter`]
//! messages into bytes to send. Each handler says with its own specification
//! what its calls do: [`FrameReader::has_read`] and [`FrameWriter::has_written`].
use crate::buffer;
use crate::buffer::BufferView;
use crate::compressed_protocol;
use crate::compressed_protocol::{PackedRun, PackedView};
use crate::error::{Error, Result};
use crate::frame;
use crate::frame::FrameRules;
use crate::octets;
use crate::protocol;
use crate::protocol::{CompressedProtocol, CompressedReaderProtocol, CompressedWriterProtocol};
use crate::protocol::{Message, MessageView, Protocol, ProtocolView, Role};
use bytes::BytesMut;
use vstd::prelude::*;
use vstd::utf8::*;

verus! {

/// The longest payload of a control frame.
pub const MAX_CONTROL_PAYLOAD: usize = 125;

/// Room that is enough for one control frame.
pub const CONTROL_ROOM: usize = 256;

/// A message that does not exceed a control frame, if it is one.
pub open spec fn fits_control(msg: MessageView) -> bool {
    protocol::message_opcode(msg) is Ping || protocol::message_opcode(msg) is Pong
        || protocol::message_opcode(msg) is Close ==> protocol::message_payload(msg).len()
        <= MAX_CONTROL_PAYLOAD
}

/// A reason that a Close frame can carry.
pub open spec fn fits_close(reason: Option<(u16, Seq<char>)>) -> bool {
    frame::close_payload(reason).len() <= MAX_CONTROL_PAYLOAD
}

/// Messages of which none exceeds a control frame that is one.
pub open spec fn all_fit(messages: Seq<MessageView>) -> bool {
    forall|i: int| 0 <= i < messages.len() ==> fits_control(#[trigger] messages[i])
}

/// Whether there is memory to write a payload behind what a buffer holds.
pub open spec fn room_behind(buffered: nat, payload: nat) -> bool {
    &&& buffer::allocatable(buffered + frame::frame_len(payload, true))
    &&& buffer::allocatable(payload + 64)
}

/// Whether there is memory for a control frame behind what a buffer holds.
pub open spec fn control_room(buffered: nat) -> bool {
    buffered + CONTROL_ROOM <= isize::MAX
}

/// A part of a connection that keeps an invariant.
pub trait Framing: Sized {
    /// The parts agree with each other.
    spec fn valid(&self) -> bool;
}

/// Turns received bytes into messages.
pub trait FrameReader: Framing {
    /// Whether `len` bytes can be handed over, those left by earlier calls
    /// among them.
    spec fn takes(&self, len: nat) -> bool;

    /// Whether reading `buf` may lead to `after`, leave `left`, give these
    /// messages, accept a fragment that completes no message, and end so.
    spec fn has_read(
        &self,
        buf: Seq<u8>,
        after: Self,
        left: Seq<u8>,
        messages: Seq<MessageView>,
        fragment: bool,
        r: Result<()>,
    ) -> bool;

    /// Check if `len` bytes can be handed over
    fn can_take(&self, len: usize) -> (r: bool)
        ensures
            r == self.takes(len as nat),
    ;

    /// Process the bytes that `buf` holds
    fn read_frames(
        &mut self,
        buf: &mut BytesMut,
        messages: &mut Vec<Message>,
        accepted_fragment: &mut bool,
    ) -> (r: Result<()>)
        requires
            old(self).valid(),
            old(self).takes(old(buf)@.len()),
            !*old(accepted_fragment),
        ensures
            final(self).valid(),
            old(self).has_read(
                old(buf)@,
                *final(self),
                final(buf)@,
                protocol::message_views(final(messages)@),
                *final(accepted_fragment),
                r,
            ),
            all_fit(protocol::message_views(final(messages)@)),
    ;
}

/// Turns messages into bytes to send.
pub trait FrameWriter: Framing {
    /// The role that decides whether frames are masked.
    spec fn endpoint(&self) -> Role;

    /// The reason that the answer to the peer's Close frame repeats.
    spec fn close_reason(&self) -> Option<(u16, Seq<char>)>;

    /// Whether writing a message may lead to `after`, turn what the buffer
    /// holds from `before` into `out`, and end so.
    spec fn has_written(
        &self,
        msg: MessageView,
        before: Seq<u8>,
        after: Self,
        out: Seq<u8>,
        r: Result<()>,
    ) -> bool;

    /// Whether the answer to the peer's Close frame leads to `after`.
    spec fn has_answered_close(&self, after: Self) -> bool;

    /// Encode a message for sending
    fn write_message(&mut self, msg: &Message, buf: &mut BytesMut) -> (r: Result<()>)
        requires
            old(self).valid(),
            room_behind(old(buf)@.len(), protocol::message_payload(msg@).len()),
        ensures
            final(self).valid(),
            final(self).endpoint() == old(self).endpoint(),
            old(self).has_written(msg@, old(buf)@, *final(self), final(buf)@, r),
            !compressed_protocol::compressible(msg@) ==> r == Ok::<(), Error>(()) && appended(
                old(self).endpoint(),
                msg@,
                old(buf)@,
                final(buf)@,
            ),
    ;

    /// Encode a pong response for a ping
    fn write_pong(&mut self, payload: &[u8], buf: &mut BytesMut)
        requires
            old(self).valid(),
            room_behind(old(buf)@.len(), payload@.len()),
        ensures
            *final(self) == *old(self),
            appended(old(self).endpoint(), MessageView::Pong(payload@), old(buf)@, final(buf)@),
    ;

    /// Encode the answer to the peer's Close frame
    fn answer_close(&mut self, buf: &mut BytesMut)
        requires
            old(self).valid(),
            room_behind(old(buf)@.len(), MAX_CONTROL_PAYLOAD as nat),
        ensures
            final(self).valid(),
            final(self).endpoint() == old(self).endpoint(),
            old(self).has_answered_close(*final(self)),
            appended(
                old(self).endpoint(),
                MessageView::Close(old(self).close_reason()),
                old(buf)@,
                final(buf)@,
            ),
    ;
}

/// Whether the bytes of a message were appended, with a masking key that the
/// endpoint may use.
pub open spec fn appended(role: Role, msg: MessageView, before: Seq<u8>, after: Seq<u8>) -> bool {
    exists|key: Option<Seq<u8>>| #[trigger]
        protocol::key_for(role, key) && after == before + protocol::message_bytes(msg, key)
}

// ---------------------------------------------------------------------------
// Control frames stay small
// ---------------------------------------------------------------------------

/// The payload of a complete control frame is no longer than one can be.
proof fn lemma_decoded_control(w: Seq<u8>, rules: FrameRules)
    ensures
        frame::decode(w, rules) matches frame::Decoded::Complete { header, payload, .. }
            ==> frame::control(header.opcode) ==> payload.len() <= MAX_CONTROL_PAYLOAD,
{
}

/// A reason that was read can be written again in as many bytes.
proof fn lemma_reason_fits(payload: Seq<u8>)
    requires
        payload.len() <= MAX_CONTROL_PAYLOAD,
    ensures
        protocol::close_reason_of(payload) matches Ok(reason) ==> fits_close(reason),
{
    if payload.len() >= 2 && valid_utf8(payload.skip(2)) {
        decode_utf8_encode_utf8(payload.skip(2));
        let code = octets::be_value(payload.take(2)) as u16;
        octets::lemma_be_bytes_len(code as nat, 2);
    }
}

proof fn lemma_run_fits(m: ProtocolView, w: Seq<u8>, rules: FrameRules, next: FrameRules)
    requires
        fits_close(m.pending_close),
    ensures
        fits_close(protocol::run(m, w, rules, next).model.pending_close),
        protocol::run(m, w, rules, next).model.role == m.role,
        all_fit(protocol::run(m, w, rules, next).messages),
    decreases w.len(),
{
    lemma_decoded_control(w, rules);
    if let frame::Decoded::Complete { header, payload, consumed } = frame::decode(w, rules) {
        let after = protocol::on_frame(m, header, payload);
        if header.opcode is Close {
            lemma_reason_fits(payload);
        }
        if let Ok(msg) = after.1 {
            let rest = w.skip(consumed as int);
            lemma_run_fits(after.0, rest, next, next);
            assert(all_fit(protocol::optional(msg)));
        }
    }
}

/// The reason that a compressed handler keeps can be written.
pub open spec fn packed_fits(v: PackedView) -> bool {
    v.closing matches Some((_, reason)) ==> fits_close(reason)
}

proof fn lemma_packed_run_fits(v: PackedView, w: Seq<u8>, rules: FrameRules, o: PackedRun)
    requires
        packed_fits(v),
        compressed_protocol::runs(v, w, rules, o),
    ensures
        packed_fits(o.model),
        o.model.role == v.role,
        all_fit(o.messages),
    decreases w.len(),
{
    lemma_decoded_control(w, rules);
    if let frame::Decoded::Complete { header, payload, consumed } = frame::decode(w, rules) {
        let rest = w.skip(consumed as int);
        let (mid, r) = choose|mid: PackedView, r: Result<Option<MessageView>>|
            {
                &&& #[trigger] compressed_protocol::frame_step(v, header, payload, mid, r)
                &&& match r {
                    Err(e) => o == compressed_protocol::ending(mid, rest, Err(e)),
                    Ok(msg) => {
                        &&& rest.len() < w.len()
                        &&& compressed_protocol::runs(
                            mid,
                            rest,
                            rules,
                            compressed_protocol::remainder(msg, o),
                        )
                        &&& o == compressed_protocol::preceded(
                            msg,
                            compressed_protocol::remainder(msg, o),
                        )
                    },
                }
            };
        if header.opcode is Close {
            lemma_reason_fits(payload);
        }
        if let Ok(msg) = r {
            lemma_packed_run_fits(mid, rest, rules, compressed_protocol::remainder(msg, o));
            assert(all_fit(protocol::optional(msg)));
        }
    }
}

// ---------------------------------------------------------------------------
// The plain handler
// ---------------------------------------------------------------------------

impl Framing for Protocol {
    open spec fn valid(&self) -> bool {
        self.wf() && fits_close(self@.pending_close)
    }
}

impl FrameReader for Protocol {
    open spec fn takes(&self, len: nat) -> bool {
        &&& len > 0 ==> self.frames().ready() <= len
        &&& buffer::allocatable(self@.collected.len() + len)
    }

    open spec fn has_read(
        &self,
        buf: Seq<u8>,
        after: Self,
        left: Seq<u8>,
        messages: Seq<MessageView>,
        fragment: bool,
        r: Result<()>,
    ) -> bool {
        let run = self.run_on(buf);
        &&& after@ == run.model
        &&& after.frames().wire(left) == run.rest
        &&& after.frames().limits() == self.frames().limits()
        &&& left.len() > 0 ==> after.frames().ready() <= left.len()
        &&& messages == run.messages
        &&& fragment == run.fragment
        &&& r == run.result
    }

    fn can_take(&self, len: usize) -> (r: bool) {
        let r = self.can_accept(len);
        proof {
            let some = Seq::new(len as nat, |i: int| 0u8);
            assert(r == self.accepts(some));
        }
        r
    }

    fn read_frames(
        &mut self,
        buf: &mut BytesMut,
        messages: &mut Vec<Message>,
        accepted_fragment: &mut bool,
    ) -> (r: Result<()>) {
        proof {
            if buf@.len() > 0 {
                lemma_run_fits(
                    self@,
                    self.frames().wire(buf@),
                    self.frames().rules(),
                    self.next_rules(),
                );
            }
        }
        self.process_into_with_activity(buf, messages, accepted_fragment)
    }
}

impl FrameWriter for Protocol {
    open spec fn endpoint(&self) -> Role {
        self@.role
    }

    open spec fn close_reason(&self) -> Option<(u16, Seq<char>)> {
        self@.pending_close
    }

    open spec fn has_written(
        &self,
        msg: MessageView,
        before: Seq<u8>,
        after: Self,
        out: Seq<u8>,
        r: Result<()>,
    ) -> bool {
        &&& r is Ok
        &&& after.frames() == self.frames()
        &&& after@ == (ProtocolView {
            state: if msg is Close {
                protocol::after_close_sent(self@.state)
            } else {
                self@.state
            },
            ..self@
        })
        &&& appended(self@.role, msg, before, out)
    }

    open spec fn has_answered_close(&self, after: Self) -> bool {
        &&& after.frames() == self.frames()
        &&& after@ == (ProtocolView {
            state: protocol::after_close_answered(self@.state),
            ..self@
        })
    }

    fn write_message(&mut self, msg: &Message, buf: &mut BytesMut) -> (r: Result<()>) {
        self.encode_message(msg, buf)
    }

    fn write_pong(&mut self, payload: &[u8], buf: &mut BytesMut) {
        self.encode_pong(payload, buf)
    }

    fn answer_close(&mut self, buf: &mut BytesMut) {
        self.encode_close_response(buf)
    }
}

// ---------------------------------------------------------------------------
// The compressed handler and its halves
// ---------------------------------------------------------------------------

impl Framing for CompressedReaderProtocol {
    open spec fn valid(&self) -> bool {
        self.wf() && packed_fits(self@)
    }
}

/// Whether a compressed receiver may read `buf` so that it becomes `after`.
pub open spec fn packed_read(
    before: CompressedReaderProtocol,
    buf: Seq<u8>,
    after: CompressedReaderProtocol,
    left: Seq<u8>,
    messages: Seq<MessageView>,
    fragment: bool,
    r: Result<()>,
) -> bool {
    &&& left.len() > 0 ==> after.frames().ready() <= left.len()
    &&& after.rules() == before.rules()
    &&& exists|o: PackedRun|
        {
            &&& #[trigger] before.runs_on(buf, o)
            &&& o.model == after@
            &&& o.rest == after.frames().wire(left)
            &&& o.messages == messages
            &&& o.result == r
            &&& fragment == (o.fragments > 0)
        }
}

proof fn lemma_packed_read_fits(
    before: CompressedReaderProtocol,
    buf: Seq<u8>,
    after: CompressedReaderProtocol,
    left: Seq<u8>,
    messages: Seq<MessageView>,
    fragment: bool,
    r: Result<()>,
)
    requires
        packed_fits(before@),
        packed_read(before, buf, after, left, messages, fragment, r),
    ensures
        packed_fits(after@),
        after@.role == before@.role,
        all_fit(messages),
{
    let o = choose|o: PackedRun|
        {
            &&& #[trigger] before.runs_on(buf, o)
            &&& o.model == after@
            &&& o.rest == after.frames().wire(left)
            &&& o.messages == messages
            &&& o.result == r
            &&& fragment == (o.fragments > 0)
        };
    if buf.len() > 0 {
        lemma_packed_run_fits(before@, before.frames().wire(buf), before.rules(), o);
    }
}

impl FrameReader for CompressedReaderProtocol {
    open spec fn takes(&self, len: nat) -> bool {
        &&& len > 0 ==> self.frames().ready() <= len
        &&& compressed_protocol::room_to_inflate(self@.collected.len() + len)
    }

    open spec fn has_read(
        &self,
        buf: Seq<u8>,
        after: Self,
        left: Seq<u8>,
        messages: Seq<MessageView>,
        fragment: bool,
        r: Result<()>,
    ) -> bool {
        packed_read(*self, buf, after, left, messages, fragment, r)
    }

    fn can_take(&self, len: usize) -> (r: bool) {
        let r = self.can_accept(len);
        proof {
            let some = Seq::new(len as nat, |i: int| 0u8);
            assert(r == self.accepts(some));
        }
        r
    }

    fn read_frames(
        &mut self,
        buf: &mut BytesMut,
        messages: &mut Vec<Message>,
        accepted_fragment: &mut bool,
    ) -> (r: Result<()>) {
        let ghost before = *self;
        let ghost given = buf@;
        let r = self.process_into_with_activity(buf, messages, accepted_fragment);
        proof {
            lemma_packed_read_fits(
                before,
                given,
                *self,
                buf@,
                protocol::message_views(messages@),
                *accepted_fragment,
                r,
            );
        }
        r
    }
}

impl Framing for CompressedWriterProtocol {
    open spec fn valid(&self) -> bool {
        true
    }
}

impl FrameWriter for CompressedWriterProtocol {
    open spec fn endpoint(&self) -> Role {
        self.role()
    }

    open spec fn close_reason(&self) -> Option<(u16, Seq<char>)> {
        None
    }

    open spec fn has_written(
        &self,
        msg: MessageView,
        before: Seq<u8>,
        after: Self,
        out: Seq<u8>,
        r: Result<()>,
    ) -> bool {
        exists|key: Option<Seq<u8>>| #[trigger]
            protocol::key_for(self.role(), key) && compressed_protocol::writes(
                self@,
                msg,
                key,
                before,
                after@,
                out,
                r,
            )
    }

    open spec fn has_answered_close(&self, after: Self) -> bool {
        after == *self
    }

    fn write_message(&mut self, msg: &Message, buf: &mut BytesMut) -> (r: Result<()>) {
        self.encode_message(msg, buf)
    }

    fn write_pong(&mut self, payload: &[u8], buf: &mut BytesMut) {
        self.encode_pong(payload, buf)
    }

    fn answer_close(&mut self, buf: &mut BytesMut) {
        self.encode_close_response(buf)
    }
}

impl Framing for CompressedProtocol {
    open spec fn valid(&self) -> bool {
        self.wf() && packed_fits(self@)
    }
}

impl FrameReader for CompressedProtocol {
    open spec fn takes(&self, len: nat) -> bool {
        &&& len > 0 ==> self.receiver().frames().ready() <= len
        &&& compressed_protocol::room_to_inflate(self.receiver()@.collected.len() + len)
    }

    open spec fn has_read(
        &self,
        buf: Seq<u8>,
        after: Self,
        left: Seq<u8>,
        messages: Seq<MessageView>,
        fragment: bool,
        r: Result<()>,
    ) -> bool {
        &&& after.encoder() == self.encoder()
        &&& packed_read(
            self.receiver(),
            buf,
            after.receiver(),
            left,
            messages,
            fragment,
            r,
        )
    }

    fn can_take(&self, len: usize) -> (r: bool) {
        let r = self.can_accept(len);
        proof {
            let some = Seq::new(len as nat, |i: int| 0u8);
            assert(r == self.receiver().accepts(some));
        }
        r
    }

    fn read_frames(
        &mut self,
        buf: &mut BytesMut,
        messages: &mut Vec<Message>,
        accepted_fragment: &mut bool,
    ) -> (r: Result<()>) {
        let ghost before = *self;
        let ghost given = buf@;
        let r = self.process_into_with_activity(buf, messages, accepted_fragment);
        proof {
            before.lemma_receiver();
            self.lemma_receiver();
            lemma_packed_read_fits(
                before.receiver(),
                given,
                self.receiver(),
                buf@,
                protocol::message_views(messages@),
                *accepted_fragment,
                r,
            );
        }
        r
    }
}

impl FrameWriter for CompressedProtocol {
    open spec fn endpoint(&self) -> Role {
        self@.role
    }

    open spec fn close_reason(&self) -> Option<(u16, Seq<char>)> {
        (self@.closing->0).1
    }

    open spec fn has_written(
        &self,
        msg: MessageView,
        before: Seq<u8>,
        after: Self,
        out: Seq<u8>,
        r: Result<()>,
    ) -> bool {
        &&& after.receiver().frames() == self.receiver().frames()
        &&& after@ == compressed_protocol::after_sending(self@, msg)
        &&& exists|key: Option<Seq<u8>>| #[trigger]
            protocol::key_for(self@.role, key) && compressed_protocol::writes(
                self.encoder(),
                msg,
                key,
                before,
                after.encoder(),
                out,
                r,
            )
    }

    open spec fn has_answered_close(&self, after: Self) -> bool {
        &&& after.encoder() == self.encoder()
        &&& after.receiver().frames() == self.receiver().frames()
        &&& after@ == (PackedView {
            closing: Some(
                (protocol::after_close_answered(self.state()), (self@.closing->0).1),
            ),
            ..self@
        })
    }

    fn write_message(&mut self, msg: &Message, buf: &mut BytesMut) -> (r: Result<()>) {
        self.encode_message(msg, buf)
    }

    fn write_pong(&mut self, payload: &[u8], buf: &mut BytesMut) {
        self.encode_pong(payload, buf)
    }

    fn answer_close(&mut self, buf: &mut BytesMut) {
        proof {
            self.lemma_receiver();
        }
        self.encode_close_response(buf)
    }
}

} // verus!
