//! What compressed handlers promise of whole exchanges.
use crate::compressed_protocol;
use crate::compressed_protocol::{PackedRun, PackedView};
use crate::deflate_stream;
use crate::deflate_stream::{DecoderView, EncoderView};
use crate::error::{Error, Result};
use crate::frame;
use crate::frame::{FrameRules, HeaderView, OpCode};
use crate::laws;
use crate::protocol;
use crate::protocol::MessageView;
use crate::utf8;
use vstd::prelude::*;
use vstd::utf8::*;

verus! {

/// Whether a receiver takes a data message whose frame carries `sent`: it is
/// between messages, expects such frames, and text is valid.
pub open spec fn takes(
    v: PackedView,
    rules: FrameRules,
    msg: MessageView,
    sent: Seq<u8>,
    key: Option<Seq<u8>>,
) -> bool {
    &&& compressed_protocol::compressible(msg)
    &&& v.fragment is None
    &&& rules.allow_rsv1
    &&& key is Some == rules.expect_masked
    &&& key matches Some(k) ==> k.len() == 4
    &&& sent.len() <= rules.max_frame_size
    &&& sent.len() < 0x8000_0000_0000_0000
    &&& msg matches MessageView::Text(text) ==> valid_utf8(text)
}

/// Whether `o` is the message `msg` and then what comes of `rest` in state `mid`.
pub open spec fn delivers(
    o: PackedRun,
    msg: MessageView,
    mid: PackedView,
    rest: Seq<u8>,
    rules: FrameRules,
) -> bool {
    &&& o == compressed_protocol::preceded(
        Some(msg),
        compressed_protocol::remainder(Some(msg), o),
    )
    &&& compressed_protocol::runs(
        mid,
        rest,
        rules,
        compressed_protocol::remainder(Some(msg), o),
    )
}

proof fn lemma_one_frame(
    v: PackedView,
    msg: MessageView,
    sent: Seq<u8>,
    rsv1: bool,
    key: Option<Seq<u8>>,
    rules: FrameRules,
    rest: Seq<u8>,
    o: PackedRun,
) -> (step: (PackedView, Result<Option<MessageView>>))
    requires
        takes(v, rules, msg, sent, key),
        compressed_protocol::runs(
            v,
            frame::frame_bytes(protocol::message_opcode(msg), sent, true, key, rsv1) + rest,
            rules,
            o,
        ),
    ensures
        compressed_protocol::frame_step(
            v,
            frame::written_header(protocol::message_opcode(msg), sent.len(), true, key, rsv1),
            sent,
            step.0,
            step.1,
        ),
        match step.1 {
            Err(e) => o == compressed_protocol::ending(step.0, rest, Err(e)),
            Ok(m) => {
                &&& compressed_protocol::runs(
                    step.0,
                    rest,
                    rules,
                    compressed_protocol::remainder(m, o),
                )
                &&& o == compressed_protocol::preceded(m, compressed_protocol::remainder(m, o))
            },
        },
{
    let op = protocol::message_opcode(msg);
    let bytes = frame::frame_bytes(op, sent, true, key, rsv1);
    let w = bytes + rest;
    frame::law_frame_round_trip(op, sent, true, key, rsv1, rules, rest);
    assert(w.skip(bytes.len() as int) =~= rest);
    let h = frame::written_header(op, sent.len(), true, key, rsv1);
    let (mid, r) = choose|mid: PackedView, r: Result<Option<MessageView>>|
        {
            &&& #[trigger] compressed_protocol::frame_step(v, h, sent, mid, r)
            &&& match r {
                Err(e) => o == compressed_protocol::ending(mid, rest, Err(e)),
                Ok(m) => {
                    &&& rest.len() < w.len()
                    &&& compressed_protocol::runs(
                        mid,
                        rest,
                        rules,
                        compressed_protocol::remainder(m, o),
                    )
                    &&& o == compressed_protocol::preceded(m, compressed_protocol::remainder(m, o))
                },
            }
        };
    (mid, r)
}

/// A data message that one side sends compressed, the other side delivers as
/// it was, and both stay in step for the next one.
pub proof fn law_compressed_message_is_delivered(
    encoder: EncoderView,
    msg: MessageView,
    encoder_after: EncoderView,
    small: Seq<u8>,
    key: Option<Seq<u8>>,
    v: PackedView,
    rules: FrameRules,
    rest: Seq<u8>,
    o: PackedRun,
)
    requires
        takes(v, rules, msg, small, key),
        deflate_stream::in_step(encoder, v.decoder),
        deflate_stream::compressed(
            encoder,
            protocol::message_payload(msg),
            encoder_after,
            Ok::<Option<Seq<u8>>, Error>(Some(small)),
        ),
        deflate_stream::within_means(
            v.decoder.begun(),
            small,
            protocol::message_payload(msg).len(),
        ),
        protocol::message_payload(msg).len() <= v.max_message_size,
        compressed_protocol::runs(
            v,
            compressed_protocol::packed_frame(msg, Some(small), key) + rest,
            rules,
            o,
        ),
    ensures
        exists|mid: PackedView|
            {
                &&& #[trigger] delivers(o, msg, mid, rest, rules)
                &&& deflate_stream::in_step(encoder_after, mid.decoder)
                &&& mid == (PackedView { decoder: mid.decoder, ..v })
            },
{
    let data = protocol::message_payload(msg);
    let h = frame::written_header(protocol::message_opcode(msg), small.len(), true, key, true);
    let (mid, r) = lemma_one_frame(v, msg, small, true, key, rules, rest, o);
    assert(compressed_protocol::to_inflate(v, h, small) == Some(small));
    let plain = choose|plain: core::result::Result<Seq<u8>, Error>| #[trigger]
        compressed_protocol::inflated_step(v, h, small, plain, mid, r);
    deflate_stream::law_message_round_trip(
        encoder,
        data,
        encoder_after,
        small,
        v.decoder,
        v.max_message_size,
        mid.decoder,
        plain,
    );
    assert(r == Ok::<Option<MessageView>, Error>(Some(msg)));
    assert(mid =~= (PackedView { decoder: mid.decoder, ..v }));
    assert(delivers(o, msg, mid, rest, rules));
}

/// A data message that is sent as it is, though compression was negotiated,
/// is delivered as it was, and both sides stay in step.
pub proof fn law_plain_message_is_delivered(
    encoder: EncoderView,
    msg: MessageView,
    encoder_after: EncoderView,
    key: Option<Seq<u8>>,
    v: PackedView,
    rules: FrameRules,
    rest: Seq<u8>,
    o: PackedRun,
)
    requires
        takes(v, rules, msg, protocol::message_payload(msg), key),
        protocol::message_payload(msg).len() <= v.max_message_size,
        deflate_stream::in_step(encoder, v.decoder),
        deflate_stream::compressed(
            encoder,
            protocol::message_payload(msg),
            encoder_after,
            Ok::<Option<Seq<u8>>, Error>(None),
        ),
        compressed_protocol::runs(
            v,
            compressed_protocol::packed_frame(msg, None, key) + rest,
            rules,
            o,
        ),
    ensures
        delivers(o, msg, v, rest, rules),
        deflate_stream::in_step(encoder_after, v.decoder),
{
    let data = protocol::message_payload(msg);
    let (mid, r) = lemma_one_frame(v, msg, data, false, key, rules, rest, o);
    assert(r == Ok::<Option<MessageView>, Error>(Some(msg)));
    deflate_stream::law_uncompressed_message_keeps_in_step(
        encoder,
        data,
        encoder_after,
        v.decoder,
    );
}

/// The first frame of a stretch of bytes, and what comes after it.
proof fn lemma_first_step(v: PackedView, w: Seq<u8>, rules: FrameRules, o: PackedRun) -> (step: (
    PackedView,
    Result<Option<MessageView>>,
))
    requires
        compressed_protocol::runs(v, w, rules, o),
        frame::decode(w, rules) is Complete,
    ensures
        ({
            let d = frame::decode(w, rules);
            let rest = w.skip(d->consumed as int);
            &&& compressed_protocol::frame_step(v, d->header, d->payload, step.0, step.1)
            &&& match step.1 {
                Err(e) => o == compressed_protocol::ending(step.0, rest, Err(e)),
                Ok(m) => {
                    &&& rest.len() < w.len()
                    &&& compressed_protocol::runs(
                        step.0,
                        rest,
                        rules,
                        compressed_protocol::remainder(m, o),
                    )
                    &&& o == compressed_protocol::preceded(m, compressed_protocol::remainder(m, o))
                },
            }
        }),
{
    let d = frame::decode(w, rules);
    let rest = w.skip(d->consumed as int);
    choose|mid: PackedView, r: Result<Option<MessageView>>|
        {
            &&& #[trigger] compressed_protocol::frame_step(v, d->header, d->payload, mid, r)
            &&& match r {
                Err(e) => o == compressed_protocol::ending(mid, rest, Err(e)),
                Ok(m) => {
                    &&& rest.len() < w.len()
                    &&& compressed_protocol::runs(
                        mid,
                        rest,
                        rules,
                        compressed_protocol::remainder(m, o),
                    )
                    &&& o == compressed_protocol::preceded(m, compressed_protocol::remainder(m, o))
                },
            }
        }
}

/// Text that a compressed handler delivers is valid UTF-8, whether it came
/// compressed or not, in one frame or in several.
pub proof fn law_delivered_text_is_valid(v: PackedView, w: Seq<u8>, rules: FrameRules, o: PackedRun)
    requires
        compressed_protocol::runs(v, w, rules, o),
    ensures
        forall|i: int|
            0 <= i < o.messages.len() ==> (#[trigger] o.messages[i] matches MessageView::Text(text)
                ==> valid_utf8(text)),
    decreases w.len(),
{
    if frame::decode(w, rules) is Complete {
        let d = frame::decode(w, rules);
        let (mid, r) = lemma_first_step(v, w, rules, o);
        if let Ok(m) = r {
            let tail = compressed_protocol::remainder(m, o);
            law_delivered_text_is_valid(mid, w.skip(d->consumed as int), rules, tail);
            lemma_frame_text_valid(v, d->header, d->payload, mid, m);
            assert forall|i: int| 0 <= i < o.messages.len() implies (
            #[trigger] o.messages[i] matches MessageView::Text(text) ==> valid_utf8(text)) by {
                let n = protocol::optional(m).len();
                if i < n {
                    assert(o.messages[i] == m->0);
                } else {
                    assert(o.messages[i] == tail.messages[i - n]);
                }
            }
        }
    }
}

proof fn lemma_frame_text_valid(
    v: PackedView,
    h: frame::HeaderView,
    payload: Seq<u8>,
    after: PackedView,
    m: Option<MessageView>,
)
    requires
        compressed_protocol::frame_step(v, h, payload, after, Ok(m)),
    ensures
        m matches Some(MessageView::Text(text)) ==> valid_utf8(text),
{
    if compressed_protocol::to_inflate(v, h, payload) is Some {
        let plain = choose|plain: core::result::Result<Seq<u8>, Error>| #[trigger]
            compressed_protocol::inflated_step(v, h, payload, plain, after, Ok(m));
        assert(compressed_protocol::on_packed_frame(v, h, payload, plain).1 == Ok::<
            Option<MessageView>,
            Error,
        >(m));
    }
}

/// No message that a compressed handler delivers is longer than the limit for
/// messages, whether it came compressed or not, in one frame or in several.
pub proof fn law_delivered_messages_are_bounded(
    v: PackedView,
    w: Seq<u8>,
    rules: FrameRules,
    o: PackedRun,
)
    requires
        compressed_protocol::runs(v, w, rules, o),
    ensures
        forall|i: int|
            0 <= i < o.messages.len() ==> laws::fits(
                #[trigger] o.messages[i],
                v.max_message_size,
            ),
    decreases w.len(),
{
    if frame::decode(w, rules) is Complete {
        let d = frame::decode(w, rules);
        let (mid, r) = lemma_first_step(v, w, rules, o);
        if let Ok(m) = r {
            let tail = compressed_protocol::remainder(m, o);
            lemma_frame_message_fits(v, d->header, d->payload, mid, m);
            law_delivered_messages_are_bounded(mid, w.skip(d->consumed as int), rules, tail);
            laws::lemma_all_fit(protocol::optional(m), tail.messages, v.max_message_size);
        }
    }
}

proof fn lemma_frame_message_fits(
    v: PackedView,
    h: frame::HeaderView,
    payload: Seq<u8>,
    after: PackedView,
    m: Option<MessageView>,
)
    requires
        compressed_protocol::frame_step(v, h, payload, after, Ok(m)),
    ensures
        m matches Some(msg) ==> laws::fits(msg, v.max_message_size),
        after.max_message_size == v.max_message_size,
{
    if compressed_protocol::to_inflate(v, h, payload) is Some {
        let plain = choose|plain: core::result::Result<Seq<u8>, Error>| #[trigger]
            compressed_protocol::inflated_step(v, h, payload, plain, after, Ok(m));
        let stepped = compressed_protocol::on_packed_frame(v, h, payload, plain);
        assert(stepped.1 == Ok::<Option<MessageView>, Error>(m));
        assert(stepped.0.max_message_size == after.max_message_size);
    }
}

/// The outcome `second` with what the outcome `first` delivered before it.
pub open spec fn joined(first: PackedRun, second: PackedRun) -> PackedRun {
    PackedRun {
        messages: first.messages + second.messages,
        fragments: first.fragments + second.fragments,
        ..second
    }
}

/// However the received bytes are cut, what comes of them may come of them in
/// one piece: what a first stretch leaves is read with what arrives next.
pub proof fn law_cutting_changes_nothing(
    v: PackedView,
    w: Seq<u8>,
    more: Seq<u8>,
    rules: FrameRules,
    first: PackedRun,
    second: PackedRun,
)
    requires
        compressed_protocol::runs(v, w, rules, first),
        first.result is Ok,
        compressed_protocol::runs(first.model, first.rest + more, rules, second),
    ensures
        compressed_protocol::runs(v, w + more, rules, joined(first, second)),
    decreases w.len(),
{
    if frame::decode(w, rules) is Complete {
        let d = frame::decode(w, rules);
        let rest = w.skip(d->consumed as int);
        let (mid, r) = lemma_first_step(v, w, rules, first);
        frame::law_verdicts_are_final(w, more, rules);
        assert((w + more).skip(d->consumed as int) =~= rest + more);
        if let Ok(m) = r {
            let tail = compressed_protocol::remainder(m, first);
            law_cutting_changes_nothing(mid, rest, more, rules, tail, second);
            compressed_protocol::lemma_run_step(v, w + more, rules, mid, m, joined(tail, second));
            assert(compressed_protocol::preceded(m, joined(tail, second)) =~= joined(
                first,
                second,
            ));
        }
    } else {
        assert(joined(first, second) =~= second);
    }
}

// ---------------------------------------------------------------------------
// Messages in several frames
// ---------------------------------------------------------------------------

/// The handler once a message is complete, with this decoder.
pub open spec fn between_messages(v: PackedView, decoder: DecoderView) -> PackedView {
    PackedView { fragment: None, collected: Seq::empty(), packed: false, decoder, ..v }
}

/// Whether nothing was delivered and the stretch ended with this error.
pub open spec fn fails_with(o: PackedRun, e: Error) -> bool {
    o.messages.len() == 0 && o.result == Err::<(), Error>(e)
}

/// Whether what came of some bytes is one message, after `fragments` frames
/// that complete none, and then what comes of the bytes `more`: text that is
/// not valid is an error instead.
pub open spec fn one_message(
    after: PackedView,
    opcode: OpCode,
    data: Seq<u8>,
    fragments: nat,
    more: Seq<u8>,
    rules: FrameRules,
    o: PackedRun,
) -> bool {
    if opcode is Text && !valid_utf8(data) {
        fails_with(o, Error::InvalidUtf8)
    } else {
        exists|tail: PackedRun|
            {
                &&& #[trigger] compressed_protocol::runs(after, more, rules, tail)
                &&& o.messages == seq![
                    if opcode is Text {
                        MessageView::Text(data)
                    } else {
                        MessageView::Binary(data)
                    },
                ] + tail.messages
                &&& o.fragments == fragments + tail.fragments
                &&& o.model == tail.model
                &&& o.rest == tail.rest
                &&& o.result == tail.result
            }
    }
}

/// Whether what came of some bytes is the message whose frames carry `all`:
/// these bytes themselves, or what the decoder makes of them where they are
/// compressed. A message that is too long is refused.
pub open spec fn arrives(
    v: PackedView,
    opcode: OpCode,
    packed: bool,
    all: Seq<u8>,
    fragments: nat,
    more: Seq<u8>,
    rules: FrameRules,
    o: PackedRun,
) -> bool {
    if all.len() > v.max_message_size {
        fails_with(o, Error::MessageTooLarge)
    } else if !packed {
        one_message(between_messages(v, v.decoder), opcode, all, fragments, more, rules, o)
    } else {
        exists|plain: core::result::Result<Seq<u8>, Error>, decoder: DecoderView|
            {
                &&& #[trigger] deflate_stream::decompressed(
                    v.decoder,
                    all,
                    v.max_message_size,
                    decoder,
                    plain,
                )
                &&& match plain {
                    Ok(data) => one_message(
                        between_messages(v, decoder),
                        opcode,
                        data,
                        fragments,
                        more,
                        rules,
                        o,
                    ),
                    Err(e) => fails_with(o, e),
                }
            }
    }
}

proof fn lemma_last_frame(
    v: PackedView,
    h: HeaderView,
    payload: Seq<u8>,
    mid: PackedView,
    r: Result<Option<MessageView>>,
    more: Seq<u8>,
    rules: FrameRules,
    o: PackedRun,
)
    requires
        v.fragment == Some(OpCode::Text) || v.fragment == Some(OpCode::Binary),
        h.opcode is Continuation,
        h.fin,
        compressed_protocol::frame_step(v, h, payload, mid, r),
        match r {
            Err(e) => o == compressed_protocol::ending(mid, more, Err(e)),
            Ok(m) => {
                &&& compressed_protocol::runs(
                    mid,
                    more,
                    rules,
                    compressed_protocol::remainder(m, o),
                )
                &&& o == compressed_protocol::preceded(m, compressed_protocol::remainder(m, o))
            },
        },
    ensures
        arrives(v, v.fragment->0, v.packed, v.collected + payload, 0, more, rules, o),
{
    let all = v.collected + payload;
    let opcode = v.fragment->0;
    if let Ok(m) = r {
        assert(m is Some);
        let tail = compressed_protocol::remainder(m, o);
        assert(o.messages =~= seq![m->0] + tail.messages);
    }
    if all.len() <= v.max_message_size && v.packed {
        let plain = choose|plain: core::result::Result<Seq<u8>, Error>| #[trigger]
            compressed_protocol::inflated_step(v, h, payload, plain, mid, r);
        assert(deflate_stream::decompressed(
            v.decoder,
            all,
            v.max_message_size,
            mid.decoder,
            plain,
        ));
        let step = compressed_protocol::on_packed_frame(v, h, payload, plain);
        assert(step.1 == r);
        assert(step.0 == PackedView { decoder: v.decoder, ..mid });
        assert(mid.closing == step.0.closing);
        assert(mid.role == step.0.role);
        assert(mid =~= between_messages(v, mid.decoder));
    }
}

proof fn lemma_continued(
    v: PackedView,
    parts: Seq<Seq<u8>>,
    keys: Seq<Option<Seq<u8>>>,
    more: Seq<u8>,
    rules: FrameRules,
    o: PackedRun,
)
    requires
        v.fragment == Some(OpCode::Text) || v.fragment == Some(OpCode::Binary),
        parts.len() > 0,
        laws::fragments_fit(parts, keys, rules),
        compressed_protocol::runs(
            v,
            laws::fragment_bytes(OpCode::Continuation, parts, keys) + more,
            rules,
            o,
        ),
    ensures
        arrives(
            v,
            v.fragment->0,
            v.packed,
            v.collected + parts.flatten(),
            (parts.len() - 1) as nat,
            more,
            rules,
            o,
        ),
    decreases parts.len(),
{
    let p = parts[0];
    let fin = parts.len() == 1;
    let rest_parts = parts.drop_first();
    let rest_keys = keys.drop_first();
    let rest = laws::fragment_bytes(OpCode::Continuation, rest_parts, rest_keys) + more;
    let first = frame::frame_bytes(OpCode::Continuation, p, fin, keys[0], false);
    let w = laws::fragment_bytes(OpCode::Continuation, parts, keys) + more;
    assert(w =~= first + rest);
    frame::law_frame_round_trip(OpCode::Continuation, p, fin, keys[0], false, rules, rest);
    assert(w.skip(first.len() as int) =~= rest);
    let (mid, r) = lemma_first_step(v, w, rules, o);
    let h = frame::written_header(OpCode::Continuation, p.len(), fin, keys[0], false);
    let all = v.collected + parts.flatten();
    lemma_flattened(parts);
    assert(all =~= (v.collected + p) + rest_parts.flatten());
    if fin {
        assert(rest_parts =~= Seq::<Seq<u8>>::empty());
        assert(rest_parts.flatten() =~= Seq::<u8>::empty());
        assert(rest =~= more);
        assert(all =~= v.collected + p);
        lemma_last_frame(v, h, p, mid, r, more, rules, o);
    } else {
        if r is Ok {
            let tail = compressed_protocol::remainder(None, o);
            assert(mid == PackedView { collected: v.collected + p, ..v });
            lemma_fit_rest(parts, keys, rules);
            lemma_continued(mid, rest_parts, rest_keys, more, rules, tail);
            assert(o.messages =~= tail.messages);
            lemma_one_more_fragment(
                v,
                mid,
                v.fragment->0,
                all,
                (rest_parts.len() - 1) as nat,
                more,
                rules,
                tail,
                o,
            );
        }
    }
}

proof fn lemma_flattened(parts: Seq<Seq<u8>>)
    requires
        parts.len() > 0,
    ensures
        parts.flatten() == parts[0] + parts.drop_first().flatten(),
{
}

proof fn lemma_fit_rest(parts: Seq<Seq<u8>>, keys: Seq<Option<Seq<u8>>>, rules: FrameRules)
    requires
        parts.len() > 0,
        laws::fragments_fit(parts, keys, rules),
    ensures
        laws::fragments_fit(parts.drop_first(), keys.drop_first(), rules),
{
    let rest_parts = parts.drop_first();
    let rest_keys = keys.drop_first();
    assert forall|i: int|
        #![trigger rest_parts[i]]
        #![trigger rest_keys[i]]
        0 <= i < rest_parts.len() implies {
        &&& rest_parts[i].len() <= rules.max_frame_size
        &&& rest_parts[i].len() < 0x8000_0000_0000_0000
        &&& rest_keys[i] is Some == rules.expect_masked
        &&& rest_keys[i] matches Some(k) ==> k.len() == 4
    } by {
        assert(rest_parts[i] == parts[i + 1]);
        assert(rest_keys[i] == keys[i + 1]);
    }
}

/// A frame that completes no message counts as one more fragment.
proof fn lemma_one_more_fragment(
    v: PackedView,
    mid: PackedView,
    opcode: OpCode,
    all: Seq<u8>,
    fragments: nat,
    more: Seq<u8>,
    rules: FrameRules,
    tail: PackedRun,
    o: PackedRun,
)
    requires
        arrives(mid, opcode, mid.packed, all, fragments, more, rules, tail),
        mid.max_message_size == v.max_message_size,
        mid.decoder == v.decoder,
        mid.role == v.role,
        mid.closing == v.closing,
        o == compressed_protocol::preceded(None, tail),
    ensures
        arrives(v, opcode, mid.packed, all, fragments + 1, more, rules, o),
{
    assert(o.messages =~= tail.messages);
    assert forall|d: DecoderView| #[trigger] between_messages(v, d) == between_messages(mid, d) by {
        assert(between_messages(v, d) =~= between_messages(mid, d));
    }
    if all.len() <= v.max_message_size {
        if !mid.packed {
            lemma_one_message_later(
                between_messages(v, v.decoder),
                opcode,
                all,
                fragments,
                more,
                rules,
                tail,
                o,
            );
        } else {
            let (plain, decoder) = choose|
                plain: core::result::Result<Seq<u8>, Error>,
                decoder: DecoderView,
            | #[trigger]
                deflate_stream::decompressed(
                    mid.decoder,
                    all,
                    mid.max_message_size,
                    decoder,
                    plain,
                ) && match plain {
                    Ok(data) => one_message(
                        between_messages(mid, decoder),
                        opcode,
                        data,
                        fragments,
                        more,
                        rules,
                        tail,
                    ),
                    Err(e) => fails_with(tail, e),
                };
            if let Ok(data) = plain {
                lemma_one_message_later(
                    between_messages(v, decoder),
                    opcode,
                    data,
                    fragments,
                    more,
                    rules,
                    tail,
                    o,
                );
            }
            assert(deflate_stream::decompressed(
                v.decoder,
                all,
                v.max_message_size,
                decoder,
                plain,
            ));
        }
    }
}

proof fn lemma_one_message_later(
    after: PackedView,
    opcode: OpCode,
    data: Seq<u8>,
    fragments: nat,
    more: Seq<u8>,
    rules: FrameRules,
    tail: PackedRun,
    o: PackedRun,
)
    requires
        one_message(after, opcode, data, fragments, more, rules, tail),
        o == compressed_protocol::preceded(None, tail),
    ensures
        one_message(after, opcode, data, fragments + 1, more, rules, o),
{
    assert(o.messages =~= tail.messages);
    if !(opcode is Text && !valid_utf8(data)) {
        let end = choose|end: PackedRun| #[trigger]
            compressed_protocol::runs(after, more, rules, end) && tail.messages == seq![
                if opcode is Text {
                    MessageView::Text(data)
                } else {
                    MessageView::Binary(data)
                },
            ] + end.messages && tail.fragments == fragments + end.fragments && tail.model
                == end.model && tail.rest == end.rest && tail.result == end.result;
        assert(compressed_protocol::runs(after, more, rules, end));
        assert(o.fragments == fragments + 1 + end.fragments);
    }
}

/// A message that comes in two or more frames, to a handler between messages,
/// arrives as one message of the first frame's kind. Its data is the payloads
/// of all the frames, one after the other, or where the first frame says that
/// they are compressed, what the decoder makes of them. What follows the last
/// frame is read as if the message had come in one.
pub proof fn law_fragments_reassemble(
    v: PackedView,
    opcode: OpCode,
    rsv1: bool,
    parts: Seq<Seq<u8>>,
    keys: Seq<Option<Seq<u8>>>,
    more: Seq<u8>,
    rules: FrameRules,
    o: PackedRun,
)
    requires
        opcode is Text || opcode is Binary,
        parts.len() >= 2,
        v.fragment is None,
        rules.allow_rsv1,
        laws::fragments_fit(parts, keys, rules),
        compressed_protocol::runs(
            v,
            frame::frame_bytes(opcode, parts[0], false, keys[0], rsv1) + laws::fragment_bytes(
                OpCode::Continuation,
                parts.drop_first(),
                keys.drop_first(),
            ) + more,
            rules,
            o,
        ),
        opcode is Text && !rsv1 && parts.flatten().len() > v.max_message_size ==> v.closing is None,
    ensures
        arrives(
            v,
            opcode,
            rsv1,
            parts.flatten(),
            (parts.len() - 1) as nat,
            more,
            rules,
            o,
        ),
{
    let p = parts[0];
    let rest_parts = parts.drop_first();
    let rest_keys = keys.drop_first();
    let rest = laws::fragment_bytes(OpCode::Continuation, rest_parts, rest_keys) + more;
    let first = frame::frame_bytes(opcode, p, false, keys[0], rsv1);
    let w = first + laws::fragment_bytes(OpCode::Continuation, rest_parts, rest_keys) + more;
    assert(w =~= first + rest);
    frame::law_frame_round_trip(opcode, p, false, keys[0], rsv1, rules, rest);
    assert(w.skip(first.len() as int) =~= rest);
    let (mid, r) = lemma_first_step(v, w, rules, o);
    let all = parts.flatten();
    lemma_flattened(parts);
    if r is Ok {
        let tail = compressed_protocol::remainder(None, o);
        assert(mid == PackedView { fragment: Some(opcode), collected: p, packed: rsv1, ..v });
        lemma_fit_rest(parts, keys, rules);
        lemma_continued(mid, rest_parts, rest_keys, more, rules, tail);
        lemma_one_more_fragment(
            v,
            mid,
            opcode,
            all,
            (rest_parts.len() - 1) as nat,
            more,
            rules,
            tail,
            o,
        );
    } else if p.len() <= v.max_message_size {
        assert(!utf8::utf8_prefix(p));
        if valid_utf8(all) {
            assert(valid_utf8(p + rest_parts.flatten()));
            assert(false);
        }
    }
}

/// The outcome `tail` with these messages before it.
pub open spec fn with_messages(messages: Seq<MessageView>, tail: PackedRun) -> PackedRun {
    PackedRun { messages: messages + tail.messages, ..tail }
}

/// A Ping or a Pong may come at any time, also between the frames of a message:
/// it is delivered with its payload, and what follows it is read as if it had
/// not come.
pub proof fn law_control_frames_may_interrupt(
    v: PackedView,
    pong: bool,
    payload: Seq<u8>,
    key: Option<Seq<u8>>,
    more: Seq<u8>,
    rules: FrameRules,
    o: PackedRun,
)
    requires
        payload.len() <= 125,
        payload.len() <= rules.max_frame_size,
        key is Some == rules.expect_masked,
        key matches Some(k) ==> k.len() == 4,
        compressed_protocol::runs(
            v,
            frame::frame_bytes(
                if pong {
                    OpCode::Pong
                } else {
                    OpCode::Ping
                },
                payload,
                true,
                key,
                false,
            ) + more,
            rules,
            o,
        ),
    ensures
        exists|tail: PackedRun|
            {
                &&& #[trigger] compressed_protocol::runs(v, more, rules, tail)
                &&& o == with_messages(
                    seq![
                        if pong {
                            MessageView::Pong(payload)
                        } else {
                            MessageView::Ping(payload)
                        },
                    ],
                    tail,
                )
            },
{
    let op = if pong {
        OpCode::Pong
    } else {
        OpCode::Ping
    };
    let bytes = frame::frame_bytes(op, payload, true, key, false);
    let w = bytes + more;
    frame::law_frame_round_trip(op, payload, true, key, false, rules, more);
    assert(w.skip(bytes.len() as int) =~= more);
    let (mid, r) = lemma_first_step(v, w, rules, o);
    let m = r->Ok_0;
    let tail = compressed_protocol::remainder(m, o);
    assert(compressed_protocol::runs(v, more, rules, tail));
    assert(o =~= with_messages(seq![m->0], tail));
}

/// A message in one frame arrives as it is, or where the frame says that it is
/// compressed, as what the decoder makes of it.
pub proof fn law_single_frames_arrive(
    v: PackedView,
    opcode: OpCode,
    rsv1: bool,
    payload: Seq<u8>,
    key: Option<Seq<u8>>,
    more: Seq<u8>,
    rules: FrameRules,
    o: PackedRun,
)
    requires
        opcode is Text || opcode is Binary,
        v.fragment is None,
        v.collected.len() == 0,
        !v.packed,
        rules.allow_rsv1,
        payload.len() <= rules.max_frame_size,
        payload.len() < 0x8000_0000_0000_0000,
        payload.len() <= v.max_message_size,
        key is Some == rules.expect_masked,
        key matches Some(k) ==> k.len() == 4,
        compressed_protocol::runs(
            v,
            frame::frame_bytes(opcode, payload, true, key, rsv1) + more,
            rules,
            o,
        ),
    ensures
        arrives(v, opcode, rsv1, payload, 0, more, rules, o),
{
    let bytes = frame::frame_bytes(opcode, payload, true, key, rsv1);
    let w = bytes + more;
    frame::law_frame_round_trip(opcode, payload, true, key, rsv1, rules, more);
    assert(w.skip(bytes.len() as int) =~= more);
    let h = frame::written_header(opcode, payload.len(), true, key, rsv1);
    let (mid, r) = lemma_first_step(v, w, rules, o);
    assert(between_messages(v, v.decoder) =~= v);
    if let Ok(m) = r {
        assert(m is Some);
        let tail = compressed_protocol::remainder(m, o);
        assert(o.messages =~= seq![m->0] + tail.messages);
    }
    if rsv1 {
        let plain = choose|plain: core::result::Result<Seq<u8>, Error>| #[trigger]
            compressed_protocol::inflated_step(v, h, payload, plain, mid, r);
        assert(deflate_stream::decompressed(
            v.decoder,
            payload,
            v.max_message_size,
            mid.decoder,
            plain,
        ));
        let step = compressed_protocol::on_packed_frame(v, h, payload, plain);
        assert(step.1 == r);
        assert(step.0 == PackedView { decoder: v.decoder, ..mid });
        assert(mid =~= between_messages(v, mid.decoder));
    }
}

/// Frames that cannot follow what came before are errors: a continuation with
/// nothing to continue, and a new message before the last one is complete.
pub proof fn law_frames_out_of_order_fail(
    v: PackedView,
    opcode: OpCode,
    fin: bool,
    payload: Seq<u8>,
    key: Option<Seq<u8>>,
    more: Seq<u8>,
    rules: FrameRules,
    o: PackedRun,
)
    requires
        (opcode is Continuation && v.fragment is None) || ((opcode is Text || opcode is Binary)
            && v.fragment is Some),
        payload.len() <= rules.max_frame_size,
        payload.len() < 0x8000_0000_0000_0000,
        key is Some == rules.expect_masked,
        key matches Some(k) ==> k.len() == 4,
        compressed_protocol::runs(
            v,
            frame::frame_bytes(opcode, payload, fin, key, false) + more,
            rules,
            o,
        ),
    ensures
        o.messages.len() == 0,
        opcode is Continuation ==> o.result == Err::<(), Error>(
            Error::Protocol("unexpected continuation frame"),
        ),
        !(opcode is Continuation) ==> o.result == Err::<(), Error>(
            Error::Protocol("expected continuation frame"),
        ),
{
    let bytes = frame::frame_bytes(opcode, payload, fin, key, false);
    let w = bytes + more;
    frame::law_frame_round_trip(opcode, payload, fin, key, false, rules, more);
    assert(w.skip(bytes.len() as int) =~= more);
    let (mid, r) = lemma_first_step(v, w, rules, o);
}

} // verus!
