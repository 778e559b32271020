//! Laws of the protocol that span several calls: what one endpoint writes the
//! other reads, however the bytes are cut on the way.
use crate::error;
use crate::frame;
use crate::frame::{FrameRules, HeaderView, OpCode};
use crate::octets;
use crate::protocol;
use crate::protocol::{MessageView, ProtocolView, Role};
use crate::utf8;
use vstd::prelude::*;
use vstd::utf8::*;

verus! {

/// Whether a frame with header `h` carries text of the current message.
pub open spec fn text_frame(m: ProtocolView, h: HeaderView) -> bool {
    (h.opcode is Text && m.fragment is None) || (h.opcode is Continuation && m.fragment == Some(
        OpCode::Text,
    ))
}

/// The text of the current message before the current frame.
pub open spec fn text_before(m: ProtocolView) -> Seq<u8> {
    if m.fragment == Some(OpCode::Text) {
        m.collected
    } else {
        Seq::empty()
    }
}

/// Whether what the handler knows agrees with `w`, the bytes from the start of
/// the current frame: the validator has seen exactly the text that arrived,
/// as far as it was checked. Every new handler is in step, and validated
/// processing keeps it so.
pub open spec fn in_step(m: ProtocolView, w: Seq<u8>, rules: FrameRules) -> bool {
    &&& m.fragment is None || m.fragment == Some(OpCode::Text) || m.fragment == Some(OpCode::Binary)
    &&& m.checked > 0 ==> {
        &&& frame::header_ready(w, rules)
        &&& text_frame(m, frame::header_of(w))
        &&& m.checked <= frame::declared_len(w)
        &&& m.checked <= frame::payload_so_far(w).len()
    }
    &&& m.fragment == Some(OpCode::Text) || m.checked > 0 ==> {
        &&& utf8::utf8_prefix(m.text)
        &&& m.text == text_before(m) + (if m.checked > 0 {
            frame::payload_so_far(w).take(m.checked as int)
        } else {
            Seq::empty()
        })
    }
}

/// The same knowledge without the progress inside the current frame.
pub open spec fn settled(m: ProtocolView) -> ProtocolView {
    ProtocolView { checked: 0, text: text_before(m), ..m }
}

/// A new handler is in step with anything.
pub proof fn law_new_handler_is_in_step(role: Role, max: nat, w: Seq<u8>, rules: FrameRules)
    ensures
        in_step(protocol::new_view(role, max), w, rules),
{
}

proof fn lemma_complete_payload(w: Seq<u8>, rules: FrameRules, n: int)
    requires
        frame::decode(w, rules) is Complete,
        0 <= n <= frame::decode(w, rules)->payload.len(),
    ensures
        frame::header_ready(w, rules),
        frame::decode(w, rules)->header == frame::header_of(w),
        frame::decode(w, rules)->payload.len() == frame::declared_len(w),
        frame::payload_so_far(w).len() >= frame::declared_len(w),
        frame::payload_so_far(w).take(n) == frame::decode(w, rules)->payload.take(n),
{
    let head = frame::head_len(w[1]) as int;
    let len = frame::declared_len(w) as int;
    assert(frame::payload_so_far(w).take(n) =~= frame::decode(w, rules)->payload.take(n));
}

/// A frame does the same whether or not part of its text was checked before it
/// was complete.
proof fn lemma_frame_settled(m: ProtocolView, w: Seq<u8>, rules: FrameRules)
    requires
        in_step(m, w, rules),
        frame::decode(w, rules) is Complete,
    ensures
        ({
            let h = frame::decode(w, rules)->header;
            let p = frame::decode(w, rules)->payload;
            let a = protocol::on_frame(m, h, p);
            let b = protocol::on_frame(settled(m), h, p);
            &&& a.1 == b.1
            &&& a.1 is Ok ==> settled(a.0) == settled(b.0)
            &&& a.1 is Ok ==> forall|v: Seq<u8>, r: FrameRules| #[trigger] in_step(a.0, v, r)
            &&& a.1 is Ok ==> forall|v: Seq<u8>, r: FrameRules| #[trigger] in_step(b.0, v, r)
        }),
{
    let h = frame::decode(w, rules)->header;
    let p = frame::decode(w, rules)->payload;
    lemma_complete_payload(
        w,
        rules,
        if m.checked <= p.len() {
            m.checked as int
        } else {
            0
        },
    );
    let base = text_before(m);
    let rest = protocol::unchecked_part(p, m.checked);
    let none = protocol::unchecked_part(p, 0);
    assert(none =~= p);
    assert(Seq::<u8>::empty() + p =~= p);
    assert(base + Seq::<u8>::empty() =~= base);
    if m.checked > 0 {
        assert(m.text + rest =~= base + p);
        assert(p.take(m.checked as int) + rest =~= p);
        assert(Seq::<u8>::empty() + p.take(m.checked as int) =~= p.take(m.checked as int));
    } else {
        assert(rest =~= p);
    }
    let a = protocol::on_frame(m, h, p);
    let b = protocol::on_frame(settled(m), h, p);
    if a.1 is Ok {
        assert(a.0.text =~= b.0.text || !(a.0.fragment == Some(OpCode::Text)));
        assert(a.0.fragment == Some(OpCode::Text) ==> a.0.text =~= a.0.collected);
        assert(a.0.collected + Seq::<u8>::empty() =~= a.0.collected);
    }
}

/// Checking text as it arrives finds what checking it from the start of the
/// frame would find.
proof fn lemma_partial_settled(m: ProtocolView, w: Seq<u8>, rules: FrameRules)
    requires
        in_step(m, w, rules),
        frame::decode(w, rules) is Incomplete,
    ensures
        ({
            let a = protocol::on_partial(m, w, rules);
            let b = protocol::on_partial(settled(m), w, rules);
            &&& a.1 == b.1
            &&& settled(a.0) == settled(b.0)
            &&& a.1 is Ok ==> in_step(a.0, w, rules)
            &&& a.1 is Ok && frame::header_ready(w, rules) && !frame::header_of(w).rsv1
                && text_frame(m, frame::header_of(w)) ==> utf8::utf8_prefix(
                text_before(m) + frame::payload_so_far(w),
            )
        }),
{
    let a = protocol::on_partial(m, w, rules);
    let b = protocol::on_partial(settled(m), w, rules);
    if frame::header_ready(w, rules) {
        let arrived = frame::payload_so_far(w);
        let base = text_before(m);
        assert(protocol::unchecked_part(arrived, 0) =~= arrived);
        assert(base + Seq::<u8>::empty() =~= base);
        assert(Seq::<u8>::empty() + arrived =~= arrived);
        assert(arrived.take(arrived.len() as int) =~= arrived);
        if m.checked > 0 {
            assert(arrived.take(m.checked as int) + protocol::unchecked_part(arrived, m.checked)
                =~= arrived);
            assert(m.text + protocol::unchecked_part(arrived, m.checked) =~= base + arrived);
            if arrived.len() == m.checked {
                assert(arrived.take(m.checked as int) =~= arrived);
            }
        } else {
            assert(protocol::unchecked_part(arrived, m.checked) =~= arrived);
        }
        if arrived.len() == 0 && text_frame(m, frame::header_of(w)) {
            assert(base + arrived =~= base);
            if m.fragment is None {
                assert(valid_utf8(base + Seq::<u8>::empty()));
            }
        }
    }
}

/// Where two handlers differ only in progress inside the current frame, the
/// same bytes do the same.
proof fn lemma_run_settled(m: ProtocolView, w: Seq<u8>, rules: FrameRules, next: FrameRules)
    requires
        in_step(m, w, rules),
    ensures
        ({
            let a = protocol::run(m, w, rules, next);
            let b = protocol::run(settled(m), w, rules, next);
            &&& a.messages == b.messages
            &&& a.result == b.result
            &&& a.rest == b.rest
            &&& a.fragment == b.fragment
            &&& a.result is Ok ==> settled(a.model) == settled(b.model)
        }),
    decreases w.len(),
{
    let n = settled(m);
    match frame::decode(w, rules) {
        frame::Decoded::Invalid(_) => {},
        frame::Decoded::Incomplete => {
            lemma_partial_settled(m, w, rules);
        },
        frame::Decoded::Complete { header, payload, consumed } => {
            lemma_frame_settled(m, w, rules);
            let a = protocol::on_frame(m, header, payload);
            let b = protocol::on_frame(n, header, payload);
            if a.1 is Ok {
                let rest = w.skip(consumed as int);
                assert(in_step(a.0, rest, next));
                assert(in_step(b.0, rest, next));
                lemma_run_settled(a.0, rest, next, next);
                lemma_run_settled(b.0, rest, next, next);
            }
        },
    }
}

/// Validated processing keeps the handler in step.
pub proof fn law_processing_keeps_in_step(
    m: ProtocolView,
    w: Seq<u8>,
    rules: FrameRules,
    next: FrameRules,
)
    requires
        in_step(m, w, rules),
        rules == next || rules == relaxed(next),
        protocol::run(m, w, rules, next).result is Ok,
    ensures
        in_step(
            protocol::run(m, w, rules, next).model,
            protocol::run(m, w, rules, next).rest,
            relaxed(next),
        ),
    decreases w.len(),
{
    match frame::decode(w, rules) {
        frame::Decoded::Invalid(_) => {},
        frame::Decoded::Incomplete => {
            lemma_partial_settled(m, w, rules);
            assert(in_step(protocol::on_partial(m, w, rules).0, w, relaxed(next)));
        },
        frame::Decoded::Complete { header, payload, consumed } => {
            lemma_frame_settled(m, w, rules);
            let a = protocol::on_frame(m, header, payload);
            let rest = w.skip(consumed as int);
            assert(in_step(a.0, rest, next));
            law_processing_keeps_in_step(a.0, rest, next, next);
        },
    }
}

/// Rules with RSV1 allowed: those that a parser applies to a frame whose first
/// two bytes it has accepted.
pub open spec fn relaxed(rules: FrameRules) -> FrameRules {
    FrameRules { allow_rsv1: true, ..rules }
}

/// Every text message that validated processing delivers is valid UTF-8.
pub proof fn law_delivered_text_is_valid(
    m: ProtocolView,
    w: Seq<u8>,
    rules: FrameRules,
    next: FrameRules,
)
    requires
        in_step(m, w, rules),
    ensures
        forall|i: int|
            0 <= i < protocol::run(m, w, rules, next).messages.len() ==> (
            #[trigger] protocol::run(m, w, rules, next).messages[i] matches MessageView::Text(b)
                ==> valid_utf8(b)),
    decreases w.len(),
{
    if let frame::Decoded::Complete { header, payload, consumed } = frame::decode(w, rules) {
        lemma_frame_settled(m, w, rules);
        let b = protocol::on_frame(settled(m), header, payload);
        let a = protocol::on_frame(m, header, payload);
        if a.1 is Ok {
            let rest = w.skip(consumed as int);
            let base = text_before(m);
            assert(protocol::unchecked_part(payload, 0) =~= payload);
            assert(in_step(a.0, rest, next));
            law_delivered_text_is_valid(a.0, rest, next, next);
            let first = protocol::optional(a.1->Ok_0);
            let tail = protocol::run(a.0, rest, next, next).messages;
            assert(protocol::run(m, w, rules, next).messages == first + tail);
            let all = first + tail;
            assert forall|i: int| 0 <= i < all.len() implies (
            #[trigger] all[i] matches MessageView::Text(t) ==> valid_utf8(t)) by {
                if i >= first.len() {
                    assert(all[i] == tail[i - first.len()]);
                }
            }
        }
    }
}

/// Whether a message is within the limit for messages. Control messages are
/// limited by their frames alone.
pub open spec fn fits(msg: MessageView, max: nat) -> bool {
    frame::control(protocol::message_opcode(msg)) || protocol::message_payload(msg).len() <= max
}

/// No message that is delivered is longer than the limit for messages, in
/// however many frames it came.
pub proof fn law_delivered_messages_are_bounded(
    m: ProtocolView,
    w: Seq<u8>,
    rules: FrameRules,
    next: FrameRules,
)
    ensures
        forall|i: int|
            0 <= i < protocol::run(m, w, rules, next).messages.len() ==> fits(
                #[trigger] protocol::run(m, w, rules, next).messages[i],
                m.max_message_size,
            ),
        forall|i: int|
            0 <= i < protocol::run_raw(m, w, rules, next).messages.len() ==> fits(
                #[trigger] protocol::run_raw(m, w, rules, next).messages[i],
                m.max_message_size,
            ),
    decreases w.len(),
{
    if let frame::Decoded::Complete { header, payload, consumed } = frame::decode(w, rules) {
        let rest = w.skip(consumed as int);
        let a = protocol::on_frame(m, header, payload);
        let b = protocol::on_raw_frame(m, header, payload);
        assert(a.0.max_message_size == m.max_message_size);
        assert(b.0.max_message_size == m.max_message_size);
        law_delivered_messages_are_bounded(a.0, rest, next, next);
        law_delivered_messages_are_bounded(b.0, rest, next, next);
        if let Ok(msg) = a.1 {
            lemma_all_fit(
                protocol::optional(msg),
                protocol::run(a.0, rest, next, next).messages,
                m.max_message_size,
            );
        }
        if let Ok(msg) = b.1 {
            lemma_all_fit(
                protocol::optional(msg),
                protocol::run_raw(b.0, rest, next, next).messages,
                m.max_message_size,
            );
        }
    }
}

pub(crate) proof fn lemma_all_fit(first: Seq<MessageView>, tail: Seq<MessageView>, max: nat)
    requires
        forall|i: int| 0 <= i < first.len() ==> fits(#[trigger] first[i], max),
        forall|i: int| 0 <= i < tail.len() ==> fits(#[trigger] tail[i], max),
    ensures
        forall|i: int| 0 <= i < (first + tail).len() ==> fits(#[trigger] (first + tail)[i], max),
{
    let all = first + tail;
    assert forall|i: int| 0 <= i < all.len() implies fits(#[trigger] all[i], max) by {
        if i < first.len() {
            assert(all[i] == first[i]);
        } else {
            assert(all[i] == tail[i - first.len()]);
        }
    }
}

/// Whether a message can be sent to a receiver: it is no longer than the
/// receiver takes, text is valid UTF-8, and control messages are short and
/// carry a close code that may be sent.
pub open spec fn deliverable(msg: MessageView, max: nat, rules: FrameRules) -> bool {
    let payload = protocol::message_payload(msg);
    &&& payload.len() <= rules.max_frame_size
    &&& fits(msg, max)
    &&& payload.len() < 0x8000_0000_0000_0000
    &&& frame::control(protocol::message_opcode(msg)) ==> payload.len() <= 125
    &&& msg matches MessageView::Text(b) ==> valid_utf8(b)
    &&& msg matches MessageView::Close(Some(reason)) ==> error::valid_close_code(reason.0)
}

/// What the receiver of a message knows afterwards.
pub open spec fn after_message(m: ProtocolView, msg: MessageView) -> ProtocolView {
    match msg {
        MessageView::Close(reason) => ProtocolView {
            state: protocol::after_close_received(m.state),
            pending_close: if m.state is Open {
                reason
            } else {
                m.pending_close
            },
            ..m
        },
        _ => m,
    }
}

/// Writing a close payload and reading it gives the reason back.
pub proof fn law_close_payload_round_trip(reason: Option<(u16, Seq<char>)>)
    requires
        reason matches Some(r) ==> error::valid_close_code(r.0),
    ensures
        protocol::close_reason_of(frame::close_payload(reason)) == Ok::<_, error::Error>(reason),
{
    if let Some((code, text)) = reason {
        let payload = frame::close_payload(reason);
        octets::lemma_be_bytes_len(code as nat, 2);
        octets::lemma_be_limits();
        octets::lemma_be_value_of_be_bytes(code as nat, 2);
        assert(payload.take(2) =~= octets::be_bytes(code as nat, 2));
        assert(payload.skip(2) =~= encode_utf8(text));
        encode_utf8_valid_utf8(text);
        encode_utf8_decode_utf8(text);
    }
}

/// A message that one endpoint writes, the other reads: exactly that message,
/// in its place before whatever follows.
pub proof fn law_message_round_trip(
    m: ProtocolView,
    msg: MessageView,
    key: Option<Seq<u8>>,
    rules: FrameRules,
    next: FrameRules,
    rest: Seq<u8>,
)
    requires
        m.checked == 0,
        m.fragment is None || frame::control(protocol::message_opcode(msg)),
        key is Some == rules.expect_masked,
        key matches Some(k) ==> k.len() == 4,
        deliverable(msg, m.max_message_size, rules),
    ensures
        ({
            let got = protocol::run(m, protocol::message_bytes(msg, key) + rest, rules, next);
            let tail = protocol::run(after_message(m, msg), rest, next, next);
            &&& got.messages == seq![msg] + tail.messages
            &&& got.model == tail.model
            &&& got.rest == tail.rest
            &&& got.result == tail.result
        }),
{
    let op = protocol::message_opcode(msg);
    let payload = protocol::message_payload(msg);
    let w = protocol::message_bytes(msg, key) + rest;
    frame::law_frame_round_trip(op, payload, true, key, false, rules, rest);
    let n = protocol::message_bytes(msg, key).len();
    assert(w.skip(n as int) =~= rest);
    if let MessageView::Close(reason) = msg {
        law_close_payload_round_trip(reason);
    }
    let h = frame::written_header(op, payload.len(), true, key, false);
    let after = protocol::on_frame(m, h, payload);
    assert(after.1 == Ok::<_, error::Error>(Some(msg)));
    assert(after.0 == after_message(m, msg));
}

/// One message on the wire and nothing after it: the receiver delivers it and
/// keeps nothing back.
pub proof fn law_single_message(
    m: ProtocolView,
    msg: MessageView,
    key: Option<Seq<u8>>,
    rules: FrameRules,
)
    requires
        m.checked == 0,
        m.fragment is None || frame::control(protocol::message_opcode(msg)),
        key is Some == rules.expect_masked,
        key matches Some(k) ==> k.len() == 4,
        deliverable(msg, m.max_message_size, rules),
    ensures
        ({
            let got = protocol::run(m, protocol::message_bytes(msg, key), rules, rules);
            &&& got.messages == seq![msg]
            &&& got.model == after_message(m, msg)
            &&& got.rest == Seq::<u8>::empty()
            &&& got.result is Ok
        }),
{
    let w = protocol::message_bytes(msg, key);
    law_message_round_trip(m, msg, key, rules, rules, Seq::empty());
    assert(w + Seq::<u8>::empty() =~= w);
    assert(seq![msg] + Seq::<MessageView>::empty() =~= seq![msg]);
}

proof fn lemma_prefix_of_prefix(a: Seq<u8>, b: Seq<u8>)
    requires
        utf8::utf8_prefix(a + b),
    ensures
        utf8::utf8_prefix(a),
{
    let t = choose|t: Seq<u8>| #[trigger] valid_utf8(a + b + t);
    assert(a + b + t =~= a + (b + t));
    assert(valid_utf8(a + (b + t)));
}

/// What is known of a frame's header does not change when more bytes arrive.
proof fn lemma_header_grows(w: Seq<u8>, more: Seq<u8>, rules: FrameRules)
    requires
        frame::header_ready(w, rules),
    ensures
        frame::header_ready(w + more, rules),
        frame::header_of(w + more) == frame::header_of(w),
        frame::declared_len(w + more) == frame::declared_len(w),
        frame::payload_so_far(w + more).take(frame::payload_so_far(w).len() as int)
            == frame::payload_so_far(w),
        frame::payload_so_far(w + more).len() == frame::payload_so_far(w).len() + more.len(),
{
    let all = w + more;
    assert(all.take(w.len() as int) =~= w);
    frame::lemma_header_prefix(all, w.len() as int);
    assert(all[0] == w[0] && all[1] == w[1]);
    let n = frame::payload_so_far(w).len() as int;
    assert(frame::payload_so_far(all).take(n) =~= frame::payload_so_far(w));
}

proof fn lemma_in_step_grows(m: ProtocolView, w: Seq<u8>, more: Seq<u8>, rules: FrameRules)
    requires
        in_step(m, w, rules),
    ensures
        in_step(m, w + more, rules),
{
    if m.checked > 0 {
        lemma_header_grows(w, more, rules);
        let all = frame::payload_so_far(w + more);
        assert(all.take(m.checked as int) =~= frame::payload_so_far(w).take(m.checked as int));
    }
}

/// Text that arrived of a frame that is accepted later can become valid.
proof fn lemma_partial_accepted(
    m: ProtocolView,
    w: Seq<u8>,
    more: Seq<u8>,
    rules: FrameRules,
    next: FrameRules,
)
    requires
        in_step(m, w, rules),
        frame::decode(w, rules) is Incomplete,
        protocol::run(m, w + more, rules, next).result is Ok,
    ensures
        protocol::on_partial(m, w, rules).1 is Ok,
{
    let h = frame::header_of(w);
    let arrived = frame::payload_so_far(w);
    let base = text_before(m);
    lemma_partial_settled(m, w, rules);
    if frame::header_ready(w, rules) && !h.rsv1 && text_frame(m, h) && arrived.len() > m.checked {
        lemma_header_grows(w, more, rules);
        lemma_in_step_grows(m, w, more, rules);
        let all = frame::payload_so_far(w + more);
        assert(arrived + all.skip(arrived.len() as int) =~= all);
        if frame::decode(w + more, rules) is Incomplete {
            lemma_partial_settled(m, w + more, rules);
            assert(base + all =~= (base + arrived) + all.skip(arrived.len() as int));
            lemma_prefix_of_prefix(base + arrived, all.skip(arrived.len() as int));
        } else {
            let payload = frame::decode(w + more, rules)->payload;
            lemma_complete_payload(w + more, rules, arrived.len() as int);
            lemma_frame_settled(m, w + more, rules);
            let a = protocol::on_frame(settled(m), frame::header_of(w + more), payload);
            assert(protocol::unchecked_part(payload, 0) =~= payload);
            assert(Seq::<u8>::empty() + payload =~= payload);
            assert(base + payload + Seq::<u8>::empty() =~= base + payload);
            assert(a.1 is Ok);
            assert(utf8::utf8_prefix(base + payload));
            let tail = payload.skip(arrived.len() as int);
            assert(arrived + tail =~= payload);
            assert(base + payload =~= (base + arrived) + tail);
            lemma_prefix_of_prefix(base + arrived, tail);
        }
        assert(base + arrived =~= (if m.checked == 0 && h.opcode is Text {
            Seq::empty()
        } else {
            m.text
        }) + protocol::unchecked_part(arrived, m.checked)) by {
            if m.checked > 0 {
                assert(arrived.take(m.checked as int) + protocol::unchecked_part(
                    arrived,
                    m.checked,
                ) =~= arrived);
            } else {
                assert(protocol::unchecked_part(arrived, m.checked) =~= arrived);
            }
        }
    }
}

/// The rules for the bytes that are left over after a stretch: RSV1 is not
/// judged again once the first two bytes of a frame were accepted.
pub open spec fn rules_for_rest(rest: Seq<u8>, next: FrameRules) -> FrameRules {
    if rest.len() >= 2 {
        relaxed(next)
    } else {
        next
    }
}

/// Receiving bytes in two stretches instead of one changes nothing: where the
/// whole is accepted, both parts are, and they deliver the same messages in
/// the same order and leave the same bytes over.
#[verifier::rlimit(50)]
pub proof fn law_cutting_changes_nothing(
    m: ProtocolView,
    w1: Seq<u8>,
    w2: Seq<u8>,
    rules: FrameRules,
    next: FrameRules,
)
    requires
        in_step(m, w1, rules),
        rules == next || (rules == relaxed(next) && w1.len() >= 2),
        protocol::run(m, w1 + w2, rules, next).result is Ok,
    ensures
        ({
            let whole = protocol::run(m, w1 + w2, rules, next);
            let a = protocol::run(m, w1, rules, next);
            let b = protocol::run(a.model, a.rest + w2, rules_for_rest(a.rest, next), next);
            &&& a.result is Ok
            &&& b.result is Ok
            &&& a.messages + b.messages == whole.messages
            &&& b.rest == whole.rest
            &&& settled(b.model) == settled(whole.model)
            &&& (a.fragment || b.fragment) == whole.fragment
        }),
    decreases w1.len(),
{
    let w = w1 + w2;
    let whole = protocol::run(m, w, rules, next);
    let a = protocol::run(m, w1, rules, next);
    match frame::decode(w1, rules) {
        frame::Decoded::Invalid(_) => {
            frame::law_verdicts_are_final(w1, w2, rules);
        },
        frame::Decoded::Complete { header, payload, consumed } => {
            frame::law_verdicts_are_final(w1, w2, rules);
            lemma_frame_settled(m, w1, rules);
            let after = protocol::on_frame(m, header, payload);
            let rest1 = w1.skip(consumed as int);
            assert(w.skip(consumed as int) =~= rest1 + w2);
            assert(in_step(after.0, rest1, next));
            law_cutting_changes_nothing(after.0, rest1, w2, next, next);
            let a2 = protocol::run(after.0, rest1, next, next);
            let b = protocol::run(a2.model, a2.rest + w2, rules_for_rest(a2.rest, next), next);
            let first = protocol::optional(after.1->Ok_0);
            assert(a.messages == first + a2.messages);
            assert((first + a2.messages) + b.messages =~= first + (a2.messages + b.messages));
        },
        frame::Decoded::Incomplete => {
            lemma_partial_accepted(m, w1, w2, rules, next);
            lemma_partial_settled(m, w1, rules);
            let later = rules_for_rest(w1, next);
            let after = protocol::on_partial(m, w1, rules).0;
            assert(settled(after) == settled(m));
            lemma_in_step_grows(m, w1, w2, rules);
            lemma_in_step_grows(after, w1, w2, rules);
            lemma_run_settled(m, w, rules, next);
            lemma_run_settled(after, w, rules, next);
            assert(w1.len() >= 2 ==> w[0] == w1[0] && w[1] == w1[1]);
            assert(frame::decode(w, later) == frame::decode(w, rules));
            assert(frame::header_ready(w, later) == frame::header_ready(w, rules));
            assert(protocol::run(after, w, later, next) == protocol::run(after, w, rules, next));
            let b = protocol::run(after, w, later, next);
            assert(Seq::<MessageView>::empty() + b.messages =~= b.messages);
        },
    }
}

/// The bytes of a message sent in fragments: the first frame has the opcode of
/// the message, the others continue it, and the last one is final.
pub open spec fn fragment_bytes(
    opcode: OpCode,
    parts: Seq<Seq<u8>>,
    keys: Seq<Option<Seq<u8>>>,
) -> Seq<u8>
    decreases parts.len(),
{
    if parts.len() == 0 {
        Seq::empty()
    } else {
        frame::frame_bytes(opcode, parts[0], parts.len() == 1, keys[0], false) + fragment_bytes(
            OpCode::Continuation,
            parts.drop_first(),
            keys.drop_first(),
        )
    }
}

/// Whether a receiver with these rules takes frames with these payloads and keys.
pub open spec fn fragments_fit(
    parts: Seq<Seq<u8>>,
    keys: Seq<Option<Seq<u8>>>,
    rules: FrameRules,
) -> bool {
    &&& keys.len() == parts.len()
    &&& forall|i: int|
        #![trigger parts[i]]
        #![trigger keys[i]]
        0 <= i < parts.len() ==> {
            &&& parts[i].len() <= rules.max_frame_size
            &&& parts[i].len() < 0x8000_0000_0000_0000
            &&& keys[i] is Some == rules.expect_masked
            &&& keys[i] matches Some(k) ==> k.len() == 4
        }
}

proof fn lemma_flatten_step(parts: Seq<Seq<u8>>)
    requires
        parts.len() > 0,
    ensures
        parts.flatten() == parts[0] + parts.drop_first().flatten(),
{
}

proof fn lemma_continuations(
    m: ProtocolView,
    parts: Seq<Seq<u8>>,
    keys: Seq<Option<Seq<u8>>>,
    rules: FrameRules,
)
    requires
        parts.len() > 0,
        m.checked == 0,
        m.fragment == Some(OpCode::Text) || m.fragment == Some(OpCode::Binary),
        m.fragment == Some(OpCode::Text) ==> m.text == m.collected && valid_utf8(
            m.collected + parts.flatten(),
        ),
        fragments_fit(parts, keys, rules),
        (m.collected + parts.flatten()).len() <= m.max_message_size,
    ensures
        ({
            let got = protocol::run(
                m,
                fragment_bytes(OpCode::Continuation, parts, keys),
                rules,
                rules,
            );
            let all = m.collected + parts.flatten();
            &&& got.messages == seq![
                if m.fragment == Some(OpCode::Text) {
                    MessageView::Text(all)
                } else {
                    MessageView::Binary(all)
                },
            ]
            &&& got.rest == Seq::<u8>::empty()
            &&& got.result is Ok
            &&& got.model.fragment is None
        }),
    decreases parts.len(),
{
    let p = parts[0];
    let fin = parts.len() == 1;
    let rest_parts = parts.drop_first();
    let rest = fragment_bytes(OpCode::Continuation, rest_parts, keys.drop_first());
    let first = frame::frame_bytes(OpCode::Continuation, p, fin, keys[0], false);
    let w = fragment_bytes(OpCode::Continuation, parts, keys);
    lemma_flatten_step(parts);
    frame::law_frame_round_trip(OpCode::Continuation, p, fin, keys[0], false, rules, rest);
    assert(w.skip(first.len() as int) =~= rest);
    let h = frame::written_header(OpCode::Continuation, p.len(), fin, keys[0], false);
    let after = protocol::on_frame(m, h, p);
    let all = m.collected + parts.flatten();
    assert(all =~= (m.collected + p) + rest_parts.flatten());
    assert(protocol::unchecked_part(p, 0) =~= p);
    if m.fragment == Some(OpCode::Text) {
        assert(valid_utf8((m.collected + p) + rest_parts.flatten()));
        assert(utf8::utf8_prefix(m.collected + p));
    }
    if fin {
        assert(rest_parts =~= Seq::<Seq<u8>>::empty());
        assert(rest_parts.flatten() =~= Seq::<u8>::empty());
        assert(m.collected + p =~= all);
        reveal_with_fuel(protocol::run, 2);
        let msg = after.1->Ok_0->0;
        assert(seq![msg] + Seq::<MessageView>::empty() =~= seq![msg]);
    } else {
        assert(fragments_fit(rest_parts, keys.drop_first(), rules)) by {
            assert forall|i: int|
                #![trigger rest_parts[i]]
                #![trigger keys.drop_first()[i]]
                0 <= i < rest_parts.len() implies {
                &&& rest_parts[i].len() <= rules.max_frame_size
                &&& rest_parts[i].len() < 0x8000_0000_0000_0000
                &&& keys.drop_first()[i] is Some == rules.expect_masked
                &&& keys.drop_first()[i] matches Some(k) ==> k.len() == 4
            } by {
                assert(rest_parts[i] == parts[i + 1]);
                assert(keys.drop_first()[i] == keys[i + 1]);
            }
        }
        lemma_continuations(after.0, rest_parts, keys.drop_first(), rules);
        let got = protocol::run(m, w, rules, rules);
        let tail = protocol::run(after.0, rest, rules, rules);
        assert(Seq::<MessageView>::empty() + tail.messages =~= tail.messages);
    }
}

/// A message sent in fragments arrives as one message: its payload is the
/// payloads of the fragments, one after the other.
pub proof fn law_fragments_reassemble(
    m: ProtocolView,
    opcode: OpCode,
    parts: Seq<Seq<u8>>,
    keys: Seq<Option<Seq<u8>>>,
    rules: FrameRules,
)
    requires
        opcode is Text || opcode is Binary,
        parts.len() >= 2,
        m.checked == 0,
        m.fragment is None,
        opcode is Text ==> valid_utf8(parts.flatten()),
        fragments_fit(parts, keys, rules),
        parts.flatten().len() <= m.max_message_size,
    ensures
        ({
            let got = protocol::run(m, fragment_bytes(opcode, parts, keys), rules, rules);
            &&& got.messages == seq![
                if opcode is Text {
                    MessageView::Text(parts.flatten())
                } else {
                    MessageView::Binary(parts.flatten())
                },
            ]
            &&& got.rest == Seq::<u8>::empty()
            &&& got.result is Ok
            &&& got.model.fragment is None
        }),
{
    let p = parts[0];
    let rest_parts = parts.drop_first();
    let rest = fragment_bytes(OpCode::Continuation, rest_parts, keys.drop_first());
    let first = frame::frame_bytes(opcode, p, false, keys[0], false);
    let w = fragment_bytes(opcode, parts, keys);
    lemma_flatten_step(parts);
    frame::law_frame_round_trip(opcode, p, false, keys[0], false, rules, rest);
    assert(w.skip(first.len() as int) =~= rest);
    let h = frame::written_header(opcode, p.len(), false, keys[0], false);
    let after = protocol::on_frame(m, h, p);
    assert(protocol::unchecked_part(p, 0) =~= p);
    assert(Seq::<u8>::empty() + p =~= p);
    if opcode is Text {
        assert(valid_utf8(p + rest_parts.flatten()));
        assert(utf8::utf8_prefix(p));
    }
    assert(fragments_fit(rest_parts, keys.drop_first(), rules)) by {
        assert forall|i: int|
            #![trigger rest_parts[i]]
            #![trigger keys.drop_first()[i]]
            0 <= i < rest_parts.len() implies {
            &&& rest_parts[i].len() <= rules.max_frame_size
            &&& rest_parts[i].len() < 0x8000_0000_0000_0000
            &&& keys.drop_first()[i] is Some == rules.expect_masked
            &&& keys.drop_first()[i] matches Some(k) ==> k.len() == 4
        } by {
            assert(rest_parts[i] == parts[i + 1]);
            assert(keys.drop_first()[i] == keys[i + 1]);
        }
    }
    lemma_continuations(after.0, rest_parts, keys.drop_first(), rules);
    let tail = protocol::run(after.0, rest, rules, rules);
    assert(Seq::<MessageView>::empty() + tail.messages =~= tail.messages);
}

/// The closing handshake ends both sides: the one that sends Close first is
/// closed by the answer, the other by answering, and the answer repeats the reason.
pub proof fn law_closing_handshake(
    a: ProtocolView,
    b: ProtocolView,
    reason: Option<(u16, Seq<char>)>,
    rules: FrameRules,
)
    requires
        a.state is Open,
        b.state is Open,
        reason matches Some(r) ==> error::valid_close_code(r.0),
    ensures
        ({
            let sent = protocol::after_close_sent(a.state);
            let got = protocol::on_close(b, frame::close_payload(reason));
            let answered = protocol::after_close_answered(got.0.state);
            let back = protocol::on_close(
                ProtocolView { state: sent, ..a },
                frame::close_payload(got.0.pending_close),
            );
            &&& got.1 == Ok::<_, error::Error>(Some(MessageView::Close(reason)))
            &&& got.0.state is CloseReceived
            &&& got.0.pending_close == reason
            &&& answered is Closed
            &&& back.1 == Ok::<_, error::Error>(Some(MessageView::Close(reason)))
            &&& back.0.state is Closed
        }),
{
    law_close_payload_round_trip(reason);
}

/// A closed connection stays closed, whatever is sent or received.
pub proof fn law_closed_stays_closed(m: ProtocolView, h: HeaderView, payload: Seq<u8>)
    requires
        m.state is Closed,
    ensures
        protocol::on_frame(m, h, payload).0.state is Closed,
        protocol::on_raw_frame(m, h, payload).0.state is Closed,
        protocol::after_close_sent(m.state) is Closed,
        protocol::after_close_received(m.state) is Closed,
        protocol::after_close_answered(m.state) is Closed,
{
}

/// Raw processing differs from validated processing only in that it does not
/// refuse invalid text: where validated processing accepts a stretch, both
/// deliver the same.
pub proof fn law_raw_agrees_on_valid_input(
    m: ProtocolView,
    w: Seq<u8>,
    rules: FrameRules,
    next: FrameRules,
)
    requires
        protocol::run(m, w, rules, next).result is Ok,
    ensures
        ({
            let a = protocol::run(m, w, rules, next);
            let b = protocol::run_raw(m, w, rules, next);
            &&& b.messages == a.messages
            &&& b.rest == a.rest
            &&& b.fragment == a.fragment
            &&& b.result is Ok
            &&& b.model.state == a.model.state
            &&& b.model.fragment == a.model.fragment
            &&& b.model.collected == a.model.collected
        }),
    decreases w.len(),
{
    lemma_raw_agrees(m, m, w, rules, next);
}

proof fn lemma_raw_agrees(
    m: ProtocolView,
    n: ProtocolView,
    w: Seq<u8>,
    rules: FrameRules,
    next: FrameRules,
)
    requires
        n == (ProtocolView { text: n.text, checked: n.checked, ..m }),
        protocol::run(m, w, rules, next).result is Ok,
    ensures
        ({
            let a = protocol::run(m, w, rules, next);
            let b = protocol::run_raw(n, w, rules, next);
            &&& b.messages == a.messages
            &&& b.rest == a.rest
            &&& b.fragment == a.fragment
            &&& b.result is Ok
            &&& b.model.state == a.model.state
            &&& b.model.fragment == a.model.fragment
            &&& b.model.collected == a.model.collected
        }),
    decreases w.len(),
{
    if let frame::Decoded::Complete { header, payload, consumed } = frame::decode(w, rules) {
        let a = protocol::on_frame(m, header, payload);
        let b = protocol::on_raw_frame(n, header, payload);
        lemma_raw_agrees(a.0, b.0, w.skip(consumed as int), next, next);
    }
}

} // verus!
