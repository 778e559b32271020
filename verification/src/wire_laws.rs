//! The layout of frames on the wire, byte by byte (RFC 6455, section 5.2).
use crate::buffer::BufferView;
use crate::error::{Error, Result};
use crate::frame;
use crate::frame::{Decoded, Frame, FrameRules, HeaderView, OpCode, PendingPayload};
use crate::octets;
use crate::simd;
use vstd::prelude::*;
use vstd::utf8::*;

verus! {

/// The number of an opcode.
pub open spec fn number(op: OpCode) -> int {
    match op {
        OpCode::Continuation => 0,
        OpCode::Text => 1,
        OpCode::Binary => 2,
        OpCode::Close => 8,
        OpCode::Ping => 9,
        OpCode::Pong => 10,
    }
}

/// A bit of a number.
pub open spec fn bit(set: bool, value: int) -> int {
    if set {
        value
    } else {
        0
    }
}

/// Whether a number is an opcode's.
pub open spec fn known(n: int) -> bool {
    0 <= n <= 2 || 8 <= n <= 10
}

/// Eight bytes as a number, most significant first.
pub open spec fn eight(w: Seq<u8>, at: int) -> int {
    ((((((w[at] * 256 + w[at + 1]) * 256 + w[at + 2]) * 256 + w[at + 3]) * 256 + w[at + 4]) * 256
        + w[at + 5]) * 256 + w[at + 6]) * 256 + w[at + 7]
}

/// How many bytes behind the second hold the length, by the seven low bits of
/// the second.
pub open spec fn length_bytes(b: u8) -> int {
    if b % 128 == 126 {
        2
    } else if b % 128 == 127 {
        8
    } else {
        0
    }
}

/// The length that a header states.
pub open spec fn stated_len(w: Seq<u8>) -> int {
    if w[1] % 128 == 126 {
        w[2] * 256 + w[3]
    } else if w[1] % 128 == 127 {
        eight(w, 2)
    } else {
        w[1] as int % 128
    }
}

proof fn lemma_bits(b: u8)
    by (bit_vector)
    ensures
        b & 0x0F == b % 16,
        b & 0x7F == b % 128,
        (b & 0x80 != 0) <==> b >= 128,
        (b & 0x40 != 0) <==> (b / 64) % 2 == 1,
        (b & 0x20 != 0 || b & 0x10 != 0) <==> (b / 16) % 4 != 0,
        (b & 0x20 != 0) <==> (b / 32) % 2 == 1,
        (b & 0x10 != 0) <==> (b / 16) % 2 == 1,
{
}

proof fn lemma_sums(v: u8, f: u8, r1: u8, r2: u8, r3: u8, len: u8)
    by (bit_vector)
    requires
        v < 16,
        f == 0 || f == 0x80,
        r1 == 0 || r1 == 0x40,
        r2 == 0 || r2 == 0x20,
        r3 == 0 || r3 == 0x10,
        len < 128,
    ensures
        (v | f | r1 | r2 | r3) == v + f + r1 + r2 + r3,
        (f | len) == f + len,
{
}

proof fn lemma_eight(w: Seq<u8>)
    requires
        w.len() >= 10,
    ensures
        octets::be_value(w.subrange(2, 10)) == eight(w, 2),
{
    reveal_with_fuel(octets::be_value, 9);
    let s = w.subrange(2, 10);
    assert(s.drop_last() =~= w.subrange(2, 9));
    assert(w.subrange(2, 9).drop_last() =~= w.subrange(2, 8));
    assert(w.subrange(2, 8).drop_last() =~= w.subrange(2, 7));
    assert(w.subrange(2, 7).drop_last() =~= w.subrange(2, 6));
    assert(w.subrange(2, 6).drop_last() =~= w.subrange(2, 5));
    assert(w.subrange(2, 5).drop_last() =~= w.subrange(2, 4));
    assert(w.subrange(2, 4).drop_last() =~= w.subrange(2, 3));
    assert(w.subrange(2, 3).drop_last() =~= Seq::<u8>::empty());
}

/// The number of an opcode and the opcode of a number are each other's inverse.
pub proof fn law_opcodes_are_numbered(op: OpCode, byte: u8)
    ensures
        frame::opcode_value(op) == number(op),
        frame::opcode_of(byte) is Some <==> known(byte as int),
        known(byte as int) ==> number(frame::opcode_of(byte)->0) == byte,
        frame::control(op) <==> number(op) >= 8,
{
}

/// The bytes of a header: the first holds the final flag, the reserved bits and
/// the opcode, the second the mask flag and the length, or where that is longer
/// than 125 bytes which of the two longer forms follows; then comes the key.
pub proof fn law_header_layout(h: HeaderView)
    requires
        h.masked == (h.mask is Some),
        h.mask matches Some(key) ==> key.len() == 4,
        h.payload_len < 0x1_0000_0000_0000_0000,
    ensures
        ({
            let w = frame::header_bytes(h);
            let n = h.payload_len;
            let more = if n <= 125 {
                0int
            } else if n <= 65535 {
                2int
            } else {
                8int
            };
            &&& w.len() == 2 + more + bit(h.mask is Some, 4)
            &&& w[0] == number(h.opcode) + bit(h.fin, 128) + bit(h.rsv1, 64) + bit(h.rsv2, 32)
                + bit(h.rsv3, 16)
            &&& n <= 125 ==> w[1] == n + bit(h.mask is Some, 128)
            &&& 125 < n <= 65535 ==> w[1] == 126 + bit(h.mask is Some, 128) && w[2] * 256 + w[3]
                == n
            &&& n > 65535 ==> w[1] == 127 + bit(h.mask is Some, 128) && eight(w, 2) == n
            &&& h.mask matches Some(key) ==> w.subrange(2 + more, 6 + more) == key
        }),
{
    let w = frame::header_bytes(h);
    let n = h.payload_len;
    let width = frame::width_for(n);
    let len = octets::be_bytes(n, width);
    octets::lemma_be_bytes_len(n, width);
    octets::lemma_be_limits();
    let len7: u8 = if n > 65535 {
        127
    } else if n > 125 {
        126
    } else {
        n as u8
    };
    lemma_sums(
        frame::opcode_value(h.opcode),
        if h.fin {
            0x80
        } else {
            0
        },
        if h.rsv1 {
            0x40
        } else {
            0
        },
        if h.rsv2 {
            0x20
        } else {
            0
        },
        if h.rsv3 {
            0x10
        } else {
            0
        },
        len7,
    );
    lemma_sums(
        0,
        if h.masked {
            0x80
        } else {
            0
        },
        0,
        0,
        0,
        len7,
    );
    if n > 65535 {
        octets::lemma_be_value_of_be_bytes(n, 8);
        assert(w.subrange(2, 10) =~= len);
        lemma_eight(w);
    } else if n > 125 {
        octets::lemma_be_value_of_be_bytes(n, 2);
        octets::lemma_be_value_2(len);
        assert(w[2] == len[0] && w[3] == len[1]);
    }
    if let Some(key) = h.mask {
        assert(w.subrange(2 + width as int, 6 + width as int) =~= key);
    }
}

/// The bytes of a frame: its header, and then its payload, byte by byte with
/// the key, where there is one, applied in turn.
pub proof fn law_frame_layout(
    opcode: OpCode,
    payload: Seq<u8>,
    fin: bool,
    mask: Option<Seq<u8>>,
    rsv1: bool,
)
    requires
        mask matches Some(key) ==> key.len() == 4,
        payload.len() < 0x1_0000_0000_0000_0000,
    ensures
        ({
            let w = frame::frame_bytes(opcode, payload, fin, mask, rsv1);
            let n = payload.len();
            let more = if n <= 125 {
                0int
            } else if n <= 65535 {
                2int
            } else {
                8int
            };
            let head = 2 + more + bit(mask is Some, 4);
            &&& w.len() == head + n
            &&& w[0] == number(opcode) + bit(fin, 128) + bit(rsv1, 64)
            &&& n <= 125 ==> w[1] == n + bit(mask is Some, 128)
            &&& 125 < n <= 65535 ==> w[1] == 126 + bit(mask is Some, 128) && w[2] * 256 + w[3] == n
            &&& n > 65535 ==> w[1] == 127 + bit(mask is Some, 128) && eight(w, 2) == n
            &&& mask matches Some(key) ==> w.subrange(2 + more, 6 + more) == key
            &&& mask is None ==> w.skip(head) == payload
            &&& mask matches Some(key) ==> forall|i: int|
                0 <= i < n ==> #[trigger] w.skip(head)[i] == payload[i] ^ key[i % 4]
            &&& frame::frame_len(n, mask is Some) == w.len()
        }),
{
    let h = frame::written_header(opcode, payload.len(), fin, mask, rsv1);
    law_header_layout(h);
    let w = frame::frame_bytes(opcode, payload, fin, mask, rsv1);
    let head = frame::header_bytes(h);
    assert(w.skip(head.len() as int) =~= frame::unmasked(payload, mask));
    assert forall|i: int| 0 <= i < head.len() implies w[i] == head[i] by {}
    if let Some(key) = mask {
        let more = head.len() - 6;
        assert(w.subrange(2 + more, 6 + more) =~= head.subrange(2 + more, 6 + more));
    }
}

/// Masking changes each byte by the key byte whose turn it is.
pub proof fn law_masking_is_bytewise(data: Seq<u8>, key: Seq<u8>, offset: int)
    requires
        key.len() == 4,
        offset >= 0,
    ensures
        simd::masked(data, key, offset).len() == data.len(),
        forall|i: int|
            0 <= i < data.len() ==> #[trigger] simd::masked(data, key, offset)[i] == data[i]
                ^ key[(offset + i) % 4],
{
}

/// Whether the first two bytes of a frame are refused: a reserved bit that has
/// no meaning, an unknown opcode, a control frame that is not final, or a mask
/// where there must be none or none where there must be one.
pub open spec fn refused_start(b0: u8, b1: u8, rules: FrameRules) -> bool {
    ||| (b0 / 64) % 2 == 1 && !rules.allow_rsv1
    ||| (b0 / 16) % 4 != 0
    ||| !known(b0 as int % 16)
    ||| b0 % 16 >= 8 && b0 < 128
    ||| b1 >= 128 && !rules.expect_masked
    ||| b1 < 128 && rules.expect_masked
}

/// Whether a stated length is refused: it is not in the shortest form, has its
/// highest bit set, is too long for a control frame, or is over the limit.
pub open spec fn refused_len(w: Seq<u8>, rules: FrameRules) -> bool {
    let n = stated_len(w);
    ||| length_bytes(w[1]) == 2 && n < 126
    ||| length_bytes(w[1]) == 8 && n < 65536
    ||| n >= 0x8000_0000_0000_0000
    ||| w[0] % 16 >= 8 && n > 125
    ||| n > rules.max_frame_size
}

/// What received bytes are: a frame is refused for its first two bytes or for
/// its length as soon as these are there, is incomplete until all its bytes
/// are, and then is what its bytes say.
#[verifier::rlimit(40)]
pub proof fn law_frames_are_decoded(w: Seq<u8>, rules: FrameRules)
    ensures
        w.len() < 2 ==> frame::decode(w, rules) is Incomplete,
        w.len() >= 2 ==> {
            let d = frame::decode(w, rules);
            let width = length_bytes(w[1]);
            let head = 2 + width + bit(w[1] >= 128, 4);
            let n = stated_len(w);
            &&& refused_start(w[0], w[1], rules) ==> d is Invalid
            &&& !refused_start(w[0], w[1], rules) && w.len() < 2 + width ==> d is Incomplete
            &&& !refused_start(w[0], w[1], rules) && w.len() >= 2 + width ==> {
                &&& refused_len(w, rules) ==> d is Invalid
                &&& !refused_len(w, rules) && w.len() < head + n ==> d is Incomplete
                &&& !refused_len(w, rules) && w.len() >= head + n ==> d is Complete && {
                    let h = d->header;
                    &&& d->consumed == head + n
                    &&& h.fin <==> w[0] >= 128
                    &&& h.rsv1 <==> (w[0] / 64) % 2 == 1
                    &&& !h.rsv2
                    &&& !h.rsv3
                    &&& number(h.opcode) == w[0] % 16
                    &&& h.payload_len == n
                    &&& h.masked <==> w[1] >= 128
                    &&& w[1] >= 128 ==> h.mask == Some(w.subrange(2 + width, 6 + width))
                    &&& w[1] < 128 ==> h.mask is None
                    &&& d->payload.len() == n
                    &&& w[1] < 128 ==> d->payload == w.subrange(head, head + n)
                    &&& w[1] >= 128 ==> forall|i: int|
                        0 <= i < n ==> #[trigger] d->payload[i] == w[head + i] ^ w[2 + width + i % 4]
                }
            }
        },
{
    if w.len() >= 2 {
        lemma_bits(w[0]);
        lemma_bits(w[1]);
        let width = length_bytes(w[1]);
        assert(frame::length_width(w[1]) == width);
        law_opcodes_are_numbered(OpCode::Text, w[0] & 0x0F);
        assert(frame::prefix_error(w[0], w[1], rules) is Some <==> refused_start(
            w[0],
            w[1],
            rules,
        ));
        if w.len() >= 2 + width {
            if width == 2 {
                octets::lemma_be_value_2(w.subrange(2, 4));
            } else if width == 8 {
                lemma_eight(w);
            }
            assert(frame::declared_len(w) == stated_len(w));
            let d = frame::decode(w, rules);
            if d is Complete && w[1] >= 128 {
                let head = 2 + width + 4;
                let n = stated_len(w);
                let key = w.subrange(2 + width, 6 + width);
                let data = w.subrange(head, head + n);
                assert forall|i: int| 0 <= i < n implies #[trigger] d->payload[i] == w[head + i]
                    ^ w[2 + width + i % 4] by {
                    assert(data[i] == w[head + i]);
                    assert(key[i % 4] == w[2 + width + i % 4]);
                }
            }
        }
    }
}

/// What a refusal tells: a frame over the limit is too large, an unknown opcode
/// is an invalid frame, and all else breaks the protocol.
pub proof fn law_refusals_tell_why(w: Seq<u8>, rules: FrameRules)
    requires
        frame::decode(w, rules) is Invalid,
    ensures
        ({
            let e = match frame::decode(w, rules) {
                Decoded::Invalid(e) => e,
                _ => arbitrary(),
            };
            &&& e is FrameTooLarge || e is InvalidFrame || e is Protocol
            &&& e is FrameTooLarge ==> !refused_start(w[0], w[1], rules) && stated_len(w)
                > rules.max_frame_size
            &&& !refused_start(w[0], w[1], rules) && !(refused_len(
                w,
                FrameRules { max_frame_size: 0x8000_0000_0000_0000, ..rules },
            )) ==> e is FrameTooLarge
            &&& e is InvalidFrame ==> !known(w[0] as int % 16)
            &&& !known(w[0] as int % 16) && (w[0] / 16) % 8 == 0 ==> e is InvalidFrame
        }),
{
    law_frames_are_decoded(w, rules);
    lemma_bits(w[0]);
    lemma_bits(w[1]);
    law_opcodes_are_numbered(OpCode::Text, w[0] & 0x0F);
    let width = length_bytes(w[1]);
    assert(frame::length_width(w[1]) == width);
    if w.len() >= 2 + width {
        if width == 2 {
            octets::lemma_be_value_2(w.subrange(2, 4));
        } else if width == 8 {
            lemma_eight(w);
        }
        assert(frame::declared_len(w) == stated_len(w));
    }
}

/// The payload of a Close frame: nothing, or the two bytes of the code, the
/// high one first, and then the reason.
pub proof fn law_close_payload_layout(code: u16, reason: Seq<char>)
    ensures
        frame::close_payload(None).len() == 0,
        ({
            let p = frame::close_payload(Some((code, reason)));
            &&& p.len() == 2 + encode_utf8(reason).len()
            &&& p[0] * 256 + p[1] == code
            &&& p.skip(2) == encode_utf8(reason)
        }),
{
    let c = octets::be_bytes(code as nat, 2);
    octets::lemma_be_bytes_len(code as nat, 2);
    octets::lemma_be_limits();
    octets::lemma_be_value_of_be_bytes(code as nat, 2);
    octets::lemma_be_value_2(c);
    let p = frame::close_payload(Some((code, reason)));
    assert(p[0] == c[0] && p[1] == c[1]);
    assert(p.skip(2) =~= encode_utf8(reason));
}

/// A parse hands a frame out where one is complete, with its header and its
/// payload, and takes it off the wire; it reports a refusal; and otherwise it
/// asks for more. Without a frame nothing leaves the wire.
pub proof fn law_parses_tell_what_came(
    r: Result<Option<Frame>>,
    w: Seq<u8>,
    rules: FrameRules,
    rest: Seq<u8>,
    buf: Seq<u8>,
)
    requires
        frame::parse_outcome(r, w, rules, rest, buf),
    ensures
        r is Err <==> frame::decode(w, rules) is Invalid,
        r matches Ok(Some(_)) <==> frame::decode(w, rules) is Complete,
        r matches Err(e) ==> frame::decode(w, rules) == Decoded::Invalid(e),
        !(r matches Ok(Some(_))) ==> rest == w,
        r matches Ok(Some(f)) ==> {
            let d = frame::decode(w, rules);
            &&& f.header@ == d->header
            &&& f.payload@ == d->payload
            &&& f.payload@.len() == f.header@.payload_len
            &&& rest == w.skip(d->consumed as int)
            &&& buf == rest
        },
{
    law_frames_are_decoded(w, rules);
}

/// A frame that waits for its payload is described by its own first bytes.
pub proof fn law_waiting_frames_are_described(
    p: Option<PendingPayload>,
    w: Seq<u8>,
    ready: nat,
)
    requires
        frame::pending_matches(p, w, ready),
        w.len() >= 2 + length_bytes(w[1]),
        known(w[0] as int % 16),
    ensures
        p is Some,
        number(p->0.opcode) == w[0] % 16,
        p->0.fin <==> w[0] >= 128,
        p->0.rsv1 <==> (w[0] / 64) % 2 == 1,
        p->0.ready == ready,
        p->0.total == stated_len(w),
{
    lemma_bits(w[0]);
    lemma_bits(w[1]);
    law_opcodes_are_numbered(OpCode::Text, w[0] & 0x0F);
    let width = length_bytes(w[1]);
    assert(frame::length_width(w[1]) == width);
    if width == 2 {
        octets::lemma_be_value_2(w.subrange(2, 4));
    } else if width == 8 {
        lemma_eight(w);
    }
}

/// A new parser holds nothing and keeps to the limits it was made with, and RSV1
/// is refused unless it was allowed. Frames that are built here have no reserved
/// bit and no mask.
pub proof fn law_new_parsers(
    max: nat,
    masked: bool,
    rsv1: bool,
    buf: Seq<u8>,
    opcode: OpCode,
    len: nat,
    fin: bool,
)
    ensures
        ({
            let v = frame::new_parser(max, masked, rsv1);
            &&& v.wire(buf) == buf
            &&& v.ready == 0
            &&& v.rules().max_frame_size == max
            &&& v.rules().expect_masked == masked
            &&& v.rules().allow_rsv1 == rsv1
        }),
        ({
            let h = frame::plain_header(opcode, len, fin);
            &&& h.fin == fin
            &&& h.opcode == opcode
            &&& h.payload_len == len
            &&& !h.rsv1 && !h.rsv2 && !h.rsv3 && !h.masked && h.mask is None
        }),
{
    let v = frame::new_parser(max, masked, rsv1);
    assert(v.wire(buf) =~= buf);
}

/// Which rule the first two bytes of a refused frame break, where several do the
/// first of these.
pub proof fn law_refused_first_bytes(b0: u8, b1: u8, rules: FrameRules)
    ensures
        ({
            let e = frame::prefix_error(b0, b1, rules);
            let plain = (b0 / 64) % 2 == 0 || rules.allow_rsv1;
            let clear = plain && (b0 / 16) % 4 == 0;
            let named = clear && known(b0 as int % 16);
            let whole = named && (b0 % 16 < 8 || b0 >= 128);
            &&& !plain ==> e == Some(
                Error::Protocol("RSV1 must be 0 (compression not negotiated)"),
            )
            &&& plain && !clear ==> e == Some(Error::Protocol("RSV2 and RSV3 must be 0"))
            &&& clear && !named ==> e == Some(Error::InvalidFrame("invalid opcode"))
            &&& named && !whole ==> e == Some(
                Error::Protocol("control frame must not be fragmented"),
            )
            &&& whole && rules.expect_masked && b1 < 128 ==> e == Some(
                Error::Protocol("client frames must be masked"),
            )
            &&& whole && !rules.expect_masked && b1 >= 128 ==> e == Some(
                Error::Protocol("server frames must not be masked"),
            )
        }),
{
    lemma_bits(b0);
    lemma_bits(b1);
    law_opcodes_are_numbered(OpCode::Text, b0 & 0x0F);
}

/// Which rule a refused length breaks, where several do the first of these.
pub proof fn law_refused_lengths(w: Seq<u8>, rules: FrameRules)
    requires
        w.len() >= 2,
        w.len() >= 2 + length_bytes(w[1]),
        known(w[0] as int % 16),
    ensures
        ({
            let e = frame::length_error(w, rules);
            let n = stated_len(w);
            let short = !(length_bytes(w[1]) == 2 && n < 126) && !(length_bytes(w[1]) == 8 && n
                < 65536);
            let positive = short && n < 0x8000_0000_0000_0000;
            let fits = positive && (w[0] % 16 < 8 || n <= 125);
            &&& !short ==> e == Some(Error::Protocol("payload length not minimal"))
            &&& short && !positive ==> e == Some(Error::Protocol("payload length MSB must be 0"))
            &&& positive && !fits ==> e == Some(Error::Protocol("control frame too large"))
            &&& fits && n > rules.max_frame_size ==> e == Some(Error::FrameTooLarge)
        }),
{
    lemma_bits(w[0]);
    lemma_bits(w[1]);
    law_opcodes_are_numbered(OpCode::Text, w[0] & 0x0F);
    let width = length_bytes(w[1]);
    assert(frame::length_width(w[1]) == width);
    if width == 2 {
        octets::lemma_be_value_2(w.subrange(2, 4));
    } else if width == 8 {
        lemma_eight(w);
    }
}

} // verus!
