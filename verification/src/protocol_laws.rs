//! What single frames do to a handler, and what Close frames say.
use crate::compressed_protocol;
use crate::compressed_protocol::PackedView;
use crate::error;
use crate::error::Error;
use crate::frame;
use crate::frame::{FrameRules, OpCode};
use crate::octets;
use crate::protocol;
use crate::protocol::{MessageView, ProtocolView, Role, State};
use crate::utf8;
use vstd::prelude::*;
use vstd::utf8::*;

verus! {

/// The codes that a Close frame may carry: 1000 to 1003, 1007 to 1011, and
/// those that are left to libraries and applications.
pub proof fn law_close_codes(code: u16)
    ensures
        error::valid_close_code(code) <==> (1000 <= code && code <= 1003) || (1007 <= code && code
            <= 1011) || (3000 <= code && code <= 4999),
{
}

/// What the payload of a Close frame says: nothing where it is empty, and else
/// the code in its first two bytes and the reason in the others. One byte, a
/// code that may not be sent and a reason that is not UTF-8 are errors.
pub proof fn law_close_payloads_are_read(payload: Seq<u8>)
    ensures
        payload.len() == 0 ==> protocol::close_reason_of(payload) is Ok
            && protocol::close_reason_of(payload)->Ok_0 is None,
        payload.len() == 1 ==> protocol::close_reason_of(payload) is Err,
        payload.len() >= 2 ==> {
            let code = payload[0] * 256 + payload[1];
            let good = (1000 <= code && code <= 1003) || (1007 <= code && code <= 1011) || (3000
                <= code && code <= 4999);
            &&& !good ==> protocol::close_reason_of(payload) == Err::<
                Option<(u16, Seq<char>)>,
                Error,
            >(Error::InvalidCloseCode(code as u16))
            &&& good && !valid_utf8(payload.skip(2)) ==> protocol::close_reason_of(payload) == Err::<
                Option<(u16, Seq<char>)>,
                Error,
            >(Error::InvalidUtf8)
            &&& good && valid_utf8(payload.skip(2)) ==> protocol::close_reason_of(payload) is Ok
                && protocol::close_reason_of(payload)->Ok_0 is Some && {
                let (c, text) = protocol::close_reason_of(payload)->Ok_0->0;
                c == code && encode_utf8(text) == payload.skip(2)
            }
        },
{
    if payload.len() >= 2 {
        octets::lemma_be_value_2(payload.take(2));
        if valid_utf8(payload.skip(2)) {
            decode_utf8_encode_utf8(payload.skip(2));
        }
    }
}

/// The closing handshake, step by step: the first Close to be sent or received
/// begins it, the second ends it, and nothing changes after that.
pub proof fn law_closing_states(state: State)
    ensures
        state is Open ==> protocol::after_close_sent(state) is CloseSent
            && protocol::after_close_received(state) is CloseReceived
            && protocol::after_close_answered(state) is Open,
        state is CloseSent ==> protocol::after_close_sent(state) is CloseSent
            && protocol::after_close_received(state) is Closed && protocol::after_close_answered(
            state,
        ) is CloseSent,
        state is CloseReceived ==> protocol::after_close_sent(state) is CloseReceived
            && protocol::after_close_received(state) is CloseReceived
            && protocol::after_close_answered(state) is Closed,
        state is Closed ==> protocol::after_close_sent(state) is Closed
            && protocol::after_close_received(state) is Closed && protocol::after_close_answered(
            state,
        ) is Closed,
{
}

/// What a message is sent as: its own kind of frame, with its own bytes, or for
/// a Close the code and the reason.
pub proof fn law_messages_have_their_frames(bytes: Seq<u8>, code: u16, reason: Seq<char>)
    ensures
        protocol::message_opcode(MessageView::Text(bytes)) is Text,
        protocol::message_opcode(MessageView::Binary(bytes)) is Binary,
        protocol::message_opcode(MessageView::Ping(bytes)) is Ping,
        protocol::message_opcode(MessageView::Pong(bytes)) is Pong,
        protocol::message_opcode(MessageView::Close(None)) is Close,
        protocol::message_opcode(MessageView::Close(Some((code, reason)))) is Close,
        protocol::message_payload(MessageView::Text(bytes)) == bytes,
        protocol::message_payload(MessageView::Binary(bytes)) == bytes,
        protocol::message_payload(MessageView::Ping(bytes)) == bytes,
        protocol::message_payload(MessageView::Pong(bytes)) == bytes,
        protocol::message_payload(MessageView::Close(None)).len() == 0,
        protocol::message_data(MessageView::Text(bytes)) == bytes,
        protocol::message_data(MessageView::Binary(bytes)) == bytes,
        protocol::message_data(MessageView::Ping(bytes)) == bytes,
        protocol::message_data(MessageView::Pong(bytes)) == bytes,
        protocol::message_data(MessageView::Close(Some((code, reason)))).len() == 0,
{
}

/// Whether a receiver with these rules takes a frame with this key.
pub open spec fn takes_frame(len: nat, key: Option<Seq<u8>>, rules: FrameRules) -> bool {
    &&& key is Some == rules.expect_masked
    &&& key matches Some(k) ==> k.len() == 4
    &&& len <= rules.max_frame_size
    &&& len < 0x8000_0000_0000_0000
}

/// What a data message in one frame does: it is delivered as it is, unless
/// another message is not complete, it is longer than messages may be, or it is
/// text and not UTF-8. Without validation text is delivered as it comes.
pub proof fn law_whole_messages(
    m: ProtocolView,
    text: bool,
    payload: Seq<u8>,
    key: Option<Seq<u8>>,
    rest: Seq<u8>,
    rules: FrameRules,
)
    requires
        m.checked == 0,
        takes_frame(payload.len(), key, rules),
    ensures
        ({
            let op = if text {
                OpCode::Text
            } else {
                OpCode::Binary
            };
            let msg = if text {
                MessageView::Text(payload)
            } else {
                MessageView::Binary(payload)
            };
            let w = frame::frame_bytes(op, payload, true, key, false) + rest;
            let got = protocol::run(m, w, rules, rules);
            let raw = protocol::run_raw(m, w, rules, rules);
            &&& m.fragment is Some ==> {
                &&& got.messages.len() == 0 && raw.messages.len() == 0
                &&& got.result == Err::<(), Error>(Error::Protocol("expected continuation frame"))
                &&& raw.result == Err::<(), Error>(Error::Protocol("expected continuation frame"))
            }
            &&& m.fragment is None && payload.len() > m.max_message_size ==> {
                &&& got.messages.len() == 0 && raw.messages.len() == 0
                &&& got.result == Err::<(), Error>(Error::MessageTooLarge)
                &&& raw.result == Err::<(), Error>(Error::MessageTooLarge)
            }
            &&& m.fragment is None && payload.len() <= m.max_message_size ==> {
                &&& text && !valid_utf8(payload) ==> got.messages.len() == 0 && got.result == Err::<
                    (),
                    Error,
                >(Error::InvalidUtf8)
                &&& !text || valid_utf8(payload) ==> {
                    let tail = protocol::run(m, rest, rules, rules);
                    &&& got.messages == seq![msg] + tail.messages
                    &&& got.result == tail.result
                    &&& got.rest == tail.rest
                    &&& got.model == tail.model
                }
                &&& {
                    let tail = protocol::run_raw(m, rest, rules, rules);
                    &&& raw.messages == seq![msg] + tail.messages
                    &&& raw.result == tail.result
                    &&& raw.rest == tail.rest
                    &&& raw.model == tail.model
                }
            }
        }),
{
    let op = if text {
        OpCode::Text
    } else {
        OpCode::Binary
    };
    let bytes = frame::frame_bytes(op, payload, true, key, false);
    let w = bytes + rest;
    frame::law_frame_round_trip(op, payload, true, key, false, rules, rest);
    assert(w.skip(bytes.len() as int) =~= rest);
    let h = frame::written_header(op, payload.len(), true, key, false);
    let after = protocol::on_frame(m, h, payload);
    let raw = protocol::on_raw_frame(m, h, payload);
    assert(after.1 is Ok ==> after.0 == m);
    assert(raw.1 is Ok ==> raw.0 == m);
}

/// A Ping and a Pong are delivered at any time, with their payload, and change
/// nothing: what follows is read as if they had not come.
pub proof fn law_pings_change_nothing(
    m: ProtocolView,
    pong: bool,
    payload: Seq<u8>,
    key: Option<Seq<u8>>,
    rest: Seq<u8>,
    rules: FrameRules,
)
    requires
        m.checked == 0,
        payload.len() <= 125,
        takes_frame(payload.len(), key, rules),
    ensures
        ({
            let op = if pong {
                OpCode::Pong
            } else {
                OpCode::Ping
            };
            let msg = if pong {
                MessageView::Pong(payload)
            } else {
                MessageView::Ping(payload)
            };
            let w = frame::frame_bytes(op, payload, true, key, false) + rest;
            let got = protocol::run(m, w, rules, rules);
            let tail = protocol::run(m, rest, rules, rules);
            let raw = protocol::run_raw(m, w, rules, rules);
            let raw_tail = protocol::run_raw(m, rest, rules, rules);
            &&& got.messages == seq![msg] + tail.messages
            &&& got.result == tail.result
            &&& got.rest == tail.rest
            &&& got.model == tail.model
            &&& got.fragment == tail.fragment
            &&& raw.messages == seq![msg] + raw_tail.messages
            &&& raw.result == raw_tail.result
            &&& raw.rest == raw_tail.rest
            &&& raw.model == raw_tail.model
        }),
{
    let op = if pong {
        OpCode::Pong
    } else {
        OpCode::Ping
    };
    let bytes = frame::frame_bytes(op, payload, true, key, false);
    let w = bytes + rest;
    frame::law_frame_round_trip(op, payload, true, key, false, rules, rest);
    assert(w.skip(bytes.len() as int) =~= rest);
    let h = frame::written_header(op, payload.len(), true, key, false);
    assert(protocol::on_frame(m, h, payload).0 == m);
    assert(protocol::on_raw_frame(m, h, payload).0 == m);
}

/// A Close frame is delivered with what its payload says, and moves the closing
/// handshake on; the reason is kept for the answer where no Close was sent.
pub proof fn law_close_frames_are_delivered(
    m: ProtocolView,
    payload: Seq<u8>,
    key: Option<Seq<u8>>,
    rest: Seq<u8>,
    rules: FrameRules,
)
    requires
        m.checked == 0,
        payload.len() <= 125,
        takes_frame(payload.len(), key, rules),
    ensures
        ({
            let w = frame::frame_bytes(OpCode::Close, payload, true, key, false) + rest;
            let got = protocol::run(m, w, rules, rules);
            let raw = protocol::run_raw(m, w, rules, rules);
            match protocol::close_reason_of(payload) {
                Err(e) => {
                    &&& got.messages.len() == 0 && got.result == Err::<(), Error>(e)
                    &&& raw.messages.len() == 0 && raw.result == Err::<(), Error>(e)
                },
                Ok(reason) => {
                    let after = ProtocolView {
                        state: if m.state is Open {
                            State::CloseReceived
                        } else if m.state is CloseSent {
                            State::Closed
                        } else {
                            m.state
                        },
                        pending_close: if m.state is Open {
                            reason
                        } else {
                            m.pending_close
                        },
                        ..m
                    };
                    let tail = protocol::run(after, rest, rules, rules);
                    let raw_tail = protocol::run_raw(after, rest, rules, rules);
                    &&& got.messages == seq![MessageView::Close(reason)] + tail.messages
                    &&& got.result == tail.result
                    &&& got.model == tail.model
                    &&& raw.messages == seq![MessageView::Close(reason)] + raw_tail.messages
                    &&& raw.result == raw_tail.result
                    &&& raw.model == raw_tail.model
                },
            }
        }),
{
    let bytes = frame::frame_bytes(OpCode::Close, payload, true, key, false);
    let w = bytes + rest;
    frame::law_frame_round_trip(OpCode::Close, payload, true, key, false, rules, rest);
    assert(w.skip(bytes.len() as int) =~= rest);
}

/// What a continuation does: with nothing to continue it is an error, and so is
/// one that makes the message too long or its text impossible. Another one is
/// collected, and the last one delivers the whole.
pub proof fn law_continuations(
    m: ProtocolView,
    fin: bool,
    payload: Seq<u8>,
    key: Option<Seq<u8>>,
    rest: Seq<u8>,
    rules: FrameRules,
)
    requires
        m.checked == 0,
        m.fragment matches Some(op) ==> op is Text || op is Binary,
        m.fragment == Some(OpCode::Text) ==> m.text == m.collected,
        takes_frame(payload.len(), key, rules),
    ensures
        ({
            let w = frame::frame_bytes(OpCode::Continuation, payload, fin, key, false) + rest;
            let got = protocol::run(m, w, rules, rules);
            let raw = protocol::run_raw(m, w, rules, rules);
            let all = m.collected + payload;
            let text = m.fragment == Some(OpCode::Text);
            &&& m.fragment is None ==> {
                &&& got.messages.len() == 0 && raw.messages.len() == 0
                &&& got.result == Err::<(), Error>(Error::Protocol("unexpected continuation frame"))
                &&& raw.result == Err::<(), Error>(Error::Protocol("unexpected continuation frame"))
            }
            &&& m.fragment is Some && all.len() > m.max_message_size ==> {
                &&& got.messages.len() == 0 && got.result == Err::<(), Error>(
                    Error::MessageTooLarge,
                )
                &&& raw.messages.len() == 0 && raw.result == Err::<(), Error>(
                    Error::MessageTooLarge,
                )
            }
            &&& m.fragment is Some && all.len() <= m.max_message_size ==> {
                &&& text && !utf8::utf8_prefix(all) ==> got.messages.len() == 0 && got.result
                    == Err::<(), Error>(Error::InvalidUtf8)
                &&& text && fin && !valid_utf8(all) ==> got.messages.len() == 0 && got.result
                    == Err::<(), Error>(Error::InvalidUtf8)
                &&& fin && (!text || valid_utf8(all)) ==> {
                    let tail = protocol::run(got_after(m, all, text), rest, rules, rules);
                    &&& got.messages == seq![
                        if text {
                            MessageView::Text(all)
                        } else {
                            MessageView::Binary(all)
                        },
                    ] + tail.messages
                    &&& got.result == tail.result
                    &&& got.rest == tail.rest
                }
                &&& fin ==> {
                    let tail = protocol::run_raw(raw_after(m), rest, rules, rules);
                    &&& raw.messages == seq![
                        if text {
                            MessageView::Text(all)
                        } else {
                            MessageView::Binary(all)
                        },
                    ] + tail.messages
                    &&& raw.result == tail.result
                    &&& raw.rest == tail.rest
                }
                &&& !fin && (!text || utf8::utf8_prefix(all)) ==> {
                    let more = ProtocolView {
                        collected: all,
                        text: if text {
                            all
                        } else {
                            m.text
                        },
                        ..m
                    };
                    let tail = protocol::run(more, rest, rules, rules);
                    &&& got.messages == tail.messages
                    &&& got.fragment
                    &&& got.result == tail.result
                    &&& got.rest == tail.rest
                }
            }
        }),
{
    let bytes = frame::frame_bytes(OpCode::Continuation, payload, fin, key, false);
    let w = bytes + rest;
    frame::law_frame_round_trip(OpCode::Continuation, payload, fin, key, false, rules, rest);
    assert(w.skip(bytes.len() as int) =~= rest);
    assert(protocol::unchecked_part(payload, 0) =~= payload);
    let h = frame::written_header(OpCode::Continuation, payload.len(), fin, key, false);
    let after = protocol::on_frame(m, h, payload);
    let all = m.collected + payload;
    let text = m.fragment == Some(OpCode::Text);
    if valid_utf8(all) {
        assert(all + Seq::<u8>::empty() =~= all);
        assert(utf8::utf8_prefix(all));
    }
    if after.1 == Ok::<Option<MessageView>, Error>(None) {
        let tail = protocol::run(after.0, rest, rules, rules);
        assert(Seq::<MessageView>::empty() + tail.messages =~= tail.messages);
    }
}

/// The handler once a fragmented message is complete.
pub open spec fn got_after(m: ProtocolView, all: Seq<u8>, text: bool) -> ProtocolView {
    ProtocolView {
        fragment: None,
        collected: Seq::empty(),
        text: if text {
            all
        } else {
            m.text
        },
        ..m
    }
}

/// The handler once a fragmented message is complete that was not validated.
pub open spec fn raw_after(m: ProtocolView) -> ProtocolView {
    ProtocolView { fragment: None, collected: Seq::empty(), ..m }
}

/// The first frame of several is kept, with its kind, unless another message is
/// not complete, it is too long already, or it begins no text.
pub proof fn law_first_fragments(
    m: ProtocolView,
    text: bool,
    payload: Seq<u8>,
    key: Option<Seq<u8>>,
    rest: Seq<u8>,
    rules: FrameRules,
)
    requires
        m.checked == 0,
        takes_frame(payload.len(), key, rules),
    ensures
        ({
            let op = if text {
                OpCode::Text
            } else {
                OpCode::Binary
            };
            let w = frame::frame_bytes(op, payload, false, key, false) + rest;
            let got = protocol::run(m, w, rules, rules);
            &&& m.fragment is Some ==> got.messages.len() == 0 && got.result == Err::<(), Error>(
                Error::Protocol("expected continuation frame"),
            )
            &&& m.fragment is None && payload.len() > m.max_message_size ==> got.messages.len() == 0
                && got.result == Err::<(), Error>(Error::MessageTooLarge)
            &&& m.fragment is None && payload.len() <= m.max_message_size && text
                && !utf8::utf8_prefix(payload) ==> got.messages.len() == 0 && got.result == Err::<
                (),
                Error,
            >(Error::InvalidUtf8)
            &&& m.fragment is None && payload.len() <= m.max_message_size && (!text
                || utf8::utf8_prefix(payload)) ==> {
                let more = ProtocolView {
                    fragment: Some(op),
                    collected: payload,
                    text: if text {
                        payload
                    } else {
                        m.text
                    },
                    ..m
                };
                let tail = protocol::run(more, rest, rules, rules);
                &&& got.messages == tail.messages
                &&& got.fragment
                &&& got.result == tail.result
                &&& got.rest == tail.rest
            }
        }),
{
    let op = if text {
        OpCode::Text
    } else {
        OpCode::Binary
    };
    let bytes = frame::frame_bytes(op, payload, false, key, false);
    let w = bytes + rest;
    frame::law_frame_round_trip(op, payload, false, key, false, rules, rest);
    assert(w.skip(bytes.len() as int) =~= rest);
    assert(protocol::unchecked_part(payload, 0) =~= payload);
    assert(Seq::<u8>::empty() + payload =~= payload);
    let h = frame::written_header(op, payload.len(), false, key, false);
    let after = protocol::on_frame(m, h, payload);
    if after.1 == Ok::<Option<MessageView>, Error>(None) {
        let tail = protocol::run(after.0, rest, rules, rules);
        assert(Seq::<MessageView>::empty() + tail.messages =~= tail.messages);
    }
}

/// A new handler is open, between messages, and expects nothing.
pub proof fn law_new_handlers_are_open(role: Role, max: nat)
    ensures
        ({
            let m = protocol::new_view(role, max);
            &&& m.role == role
            &&& m.max_message_size == max
            &&& m.state is Open
            &&& m.fragment is None
            &&& m.collected.len() == 0
            &&& m.pending_close is None
            &&& m.checked == 0
        }),
{
}

/// A Close frame that a compressed handler receives is delivered with what its
/// payload says; a handler that follows the closing handshake moves it on, and
/// keeps the reason for the answer where no Close was sent.
pub proof fn law_packed_close_frames(v: PackedView, payload: Seq<u8>)
    ensures
        ({
            let (after, r) = compressed_protocol::on_packed_close(v, payload);
            match protocol::close_reason_of(payload) {
                Err(e) => r == Err::<Option<MessageView>, Error>(e) && after == v,
                Ok(reason) => {
                    &&& r == Ok::<Option<MessageView>, Error>(Some(MessageView::Close(reason)))
                    &&& v.closing is None ==> after == v
                    &&& v.closing matches Some((state, pending)) ==> after.closing is Some && {
                        let (s, p) = after.closing->0;
                        &&& state is Open ==> s is CloseReceived && p == reason
                        &&& state is CloseSent ==> s is Closed && p == pending
                        &&& state is CloseReceived || state is Closed ==> s == state && p == pending
                    }
                    &&& after.fragment == v.fragment
                    &&& after.collected == v.collected
                    &&& after.packed == v.packed
                    &&& after.decoder == v.decoder
                }
            }
        }),
{
}

/// What a compressed handler knows from the start: it is open, between
/// messages, and its decoder is made for the encoder at the other end.
pub proof fn law_new_packed_handlers(
    role: Role,
    max: nat,
    config: crate::deflate::DeflateConfig,
)
    ensures
        ({
            let v = compressed_protocol::new_handler(role, max, config);
            &&& v.role == role
            &&& v.closing is Some
            &&& v.closing matches Some((state, pending)) && state is Open && pending is None
            &&& v.fragment is None
            &&& v.collected.len() == 0
            &&& !v.packed
            &&& v.max_message_size == max
        }),
        role is Server ==> compressed_protocol::own_encoder(role, config)
            == compressed_protocol::peer_encoder(Role::Client, config),
        role is Client ==> compressed_protocol::own_encoder(role, config)
            == compressed_protocol::peer_encoder(Role::Server, config),
{
}

} // verus!
