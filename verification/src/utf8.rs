//! UTF-8 validation, in one piece and as the bytes arrive.
use vstd::prelude::*;
use vstd::string::StringSliceAdditionalSpecFns;
use vstd::utf8::*;

verus! {

/// `simdutf8::basic::from_utf8`: the same bytes as a string exactly if they are
/// valid UTF-8.
#[verifier::external_body]
pub(crate) fn checked_str(input: &[u8]) -> (r: Option<&str>)
    ensures
        r is Some == valid_utf8(input@),
        r matches Some(s) ==> s.spec_bytes() == input@,
{
    simdutf8::basic::from_utf8(input).ok()
}

/// Whether `data` is valid UTF-8.
pub fn validate_utf8(data: &[u8]) -> (r: bool)
    ensures
        r == valid_utf8(data@),
{
    checked_str(data).is_some()
}

/// What `String::from_utf8_lossy` reads: the text itself where the bytes are
/// valid UTF-8, else the text with each maximal invalid part replaced by U+FFFD.
pub uninterp spec fn lossy_of_invalid(bytes: Seq<u8>) -> Seq<char>;

/// The text that bytes stand for, with invalid parts replaced.
pub open spec fn lossy(bytes: Seq<u8>) -> Seq<char> {
    if valid_utf8(bytes) {
        decode_utf8(bytes)
    } else {
        lossy_of_invalid(bytes)
    }
}

/// `String::from_utf8_lossy`: the text of valid bytes; of invalid bytes a text
/// that depends on the bytes alone.
#[verifier::external_body]
pub(crate) fn to_lossy_string(bytes: &[u8]) -> (r: String)
    ensures
        valid_utf8(bytes@) ==> r@ == decode_utf8(bytes@),
        !valid_utf8(bytes@) ==> r@ == lossy_of_invalid(bytes@),
{
    String::from_utf8_lossy(bytes).into_owned()
}

/// Whether some continuation makes `s` valid UTF-8.
pub open spec fn utf8_prefix(s: Seq<u8>) -> bool {
    exists|t: Seq<u8>| #[trigger] valid_utf8(s + t)
}

/// The bytes that may follow `lead` as the second byte of a multi-byte scalar.
pub open spec fn second_byte_range(lead: u8) -> (u8, u8) {
    if lead == 0xE0 {
        (0xA0, 0xBF)
    } else if lead == 0xED {
        (0x80, 0x9F)
    } else if lead == 0xF0 {
        (0x90, 0xBF)
    } else if lead == 0xF4 {
        (0x80, 0x8F)
    } else {
        (0x80, 0xBF)
    }
}

/// The length of the scalar that `lead` starts, or 0 where no scalar starts with it.
pub open spec fn scalar_len(lead: u8) -> nat {
    if lead <= 0x7F {
        1
    } else if 0xC2 <= lead <= 0xDF {
        2
    } else if 0xE0 <= lead <= 0xEF {
        3
    } else if 0xF0 <= lead <= 0xF4 {
        4
    } else {
        0
    }
}

/// Whether `t` is a non-empty start of one scalar, possibly the whole of it.
pub open spec fn scalar_start(t: Seq<u8>) -> bool {
    &&& 1 <= t.len() <= scalar_len(t[0])
    &&& t.len() >= 2 ==> second_byte_range(t[0]).0 <= t[1] <= second_byte_range(t[0]).1
    &&& t.len() >= 3 ==> is_continuation_byte(t[2])
    &&& t.len() >= 4 ==> is_continuation_byte(t[3])
}

proof fn lemma_two_byte_codepoint(b0: u8, b1: u8)
    by (bit_vector)
    requires
        0xc0 <= b0 <= 0xdf,
        0x80 <= b1 <= 0xbf,
    ensures
        0x80 <= codepoint_width_2(b0, b1) <==> b0 >= 0xC2,
        codepoint_width_2(b0, b1) < 0x800,
{
}

proof fn lemma_three_byte_codepoint(b0: u8, b1: u8, b2: u8)
    by (bit_vector)
    requires
        0xe0 <= b0 <= 0xef,
        0x80 <= b1 <= 0xbf,
        0x80 <= b2 <= 0xbf,
    ensures
        0x800 <= codepoint_width_3(b0, b1, b2) <==> (b0 != 0xE0 || b1 >= 0xA0),
        (0xD800 <= codepoint_width_3(b0, b1, b2) && codepoint_width_3(b0, b1, b2) <= 0xDFFF) <==> (
        b0 == 0xED && b1 >= 0xA0),
{
}

proof fn lemma_four_byte_codepoint(b0: u8, b1: u8, b2: u8, b3: u8)
    by (bit_vector)
    requires
        0xf0 <= b0 <= 0xf7,
        0x80 <= b1 <= 0xbf,
        0x80 <= b2 <= 0xbf,
        0x80 <= b3 <= 0xbf,
    ensures
        (0x10000 <= codepoint_width_4(b0, b1, b2, b3) && codepoint_width_4(b0, b1, b2, b3)
            <= 0x10ffff) <==> ((b0 != 0xF0 || b1 >= 0x90) && (b0 < 0xF4 || (b0 == 0xF4 && b1
            <= 0x8F))),
        codepoint_width_4(b0, b1, b2, b3) >= 0x10000 ==> codepoint_width_4(b0, b1, b2, b3) > 0xDFFF,
{
}

/// A sequence begins with a valid scalar exactly if its first `scalar_len` bytes are one.
proof fn lemma_first_scalar(s: Seq<u8>)
    requires
        s.len() > 0,
    ensures
        valid_first_scalar(s) <==> (scalar_len(s[0]) >= 1 && s.len() >= scalar_len(s[0])
            && scalar_start(s.take(scalar_len(s[0]) as int))),
        valid_first_scalar(s) ==> length_of_first_scalar(s) == scalar_len(s[0]),
{
    let n = scalar_len(s[0]) as int;
    if is_leading_byte_width_1(s[0]) {
        let b = s[0];
        assert((b & 0x7F) as u32 <= 0x7f) by (bit_vector);
    } else if is_leading_byte_width_2(s[0]) {
        if s.len() >= 2 && is_continuation_byte(s[1]) {
            lemma_two_byte_codepoint(s[0], s[1]);
        }
    } else if is_leading_byte_width_3(s[0]) {
        if s.len() >= 3 && is_continuation_byte(s[1]) && is_continuation_byte(s[2]) {
            lemma_three_byte_codepoint(s[0], s[1], s[2]);
        }
    } else if is_leading_byte_width_4(s[0]) {
        if s.len() >= 4 && is_continuation_byte(s[1]) && is_continuation_byte(s[2])
            && is_continuation_byte(s[3]) {
            lemma_four_byte_codepoint(s[0], s[1], s[2], s[3]);
        }
    }
}


/// Whether `t` holds the first bytes of a scalar, at least one of which is missing.
pub open spec fn scalar_tail(t: Seq<u8>) -> bool {
    t.len() == 0 || (scalar_start(t) && t.len() < scalar_len(t[0]))
}

proof fn lemma_complete_scalar(done: Seq<u8>, t: Seq<u8>)
    requires
        valid_utf8(done),
        scalar_start(t),
        t.len() == scalar_len(t[0]),
    ensures
        valid_utf8(done + t),
{
    assert(t.take(t.len() as int) =~= t);
    lemma_first_scalar(t);
    assert(pop_first_scalar(t) =~= Seq::<u8>::empty());
    reveal_with_fuel(valid_utf8, 2);
    assert(valid_utf8(t));
    valid_utf8_concat(done, t);
}

/// The bytes that complete an incomplete scalar.
spec fn completion(t: Seq<u8>) -> Seq<u8> {
    let second = second_byte_range(t[0]).0;
    if t.len() == 1 {
        if scalar_len(t[0]) == 2 {
            seq![second]
        } else if scalar_len(t[0]) == 3 {
            seq![second, 0x80u8]
        } else {
            seq![second, 0x80u8, 0x80u8]
        }
    } else if t.len() == 2 {
        if scalar_len(t[0]) == 3 {
            seq![0x80u8]
        } else {
            seq![0x80u8, 0x80u8]
        }
    } else {
        seq![0x80u8]
    }
}

proof fn lemma_tail_is_prefix(done: Seq<u8>, t: Seq<u8>)
    requires
        valid_utf8(done),
        scalar_tail(t),
    ensures
        utf8_prefix(done + t),
{
    if t.len() == 0 {
        assert(done + t + Seq::<u8>::empty() =~= done);
        assert(valid_utf8(done + t + Seq::<u8>::empty()));
    } else {
        let c = completion(t);
        assert(scalar_start(t + c) && (t + c).len() == scalar_len((t + c)[0]));
        lemma_complete_scalar(done, t + c);
        assert(done + t + c =~= done + (t + c));
        assert(valid_utf8(done + t + c));
    }
}

proof fn lemma_bad_tail_is_no_prefix(done: Seq<u8>, t: Seq<u8>)
    requires
        valid_utf8(done),
        t.len() > 0,
        !scalar_start(t),
        scalar_tail(t.drop_last()),
    ensures
        !utf8_prefix(done + t),
{
    assert forall|more: Seq<u8>| !#[trigger] valid_utf8(done + t + more) by {
        let all = done + t + more;
        let rest = t + more;
        assert(all.subrange(0, done.len() as int) =~= done);
        assert(all.subrange(done.len() as int, all.len() as int) =~= rest);
        lemma_first_scalar(rest);
        let n = scalar_len(rest[0]) as int;
        if n >= 1 && rest.len() >= n && scalar_start(rest.take(n)) {
            let head = rest.take(n);
            assert(head[0] == t[0]);
            assert(t.len() == 1 ==> scalar_start(t));
            assert(t.len() >= 2 ==> t[0] == t.drop_last()[0]);
            assert(t.len() <= n);
            assert(forall|i: int| 0 <= i < t.len() ==> head[i] == t[i]);
            assert(scalar_start(t));
        }
        assert(!valid_first_scalar(rest));
        assert(!valid_utf8(rest));
        partial_valid_partial_invalid_utf8(all, done.len() as int);
    }
}

proof fn lemma_no_prefix_extends(s: Seq<u8>, more: Seq<u8>)
    requires
        !utf8_prefix(s),
    ensures
        !utf8_prefix(s + more),
{
    assert forall|t: Seq<u8>| !#[trigger] valid_utf8(s + more + t) by {
        assert(s + more + t =~= s + (more + t));
        assert(!valid_utf8(s + (more + t)));
    }
}

/// An incremental UTF-8 validator: the bytes of a text arrive in pieces cut anywhere.
///
/// Its view is what was pushed since the last reset.
pub struct Utf8Stream {
    /// The bytes of the scalar that is still incomplete.
    tail: [u8; 4],
    tail_len: usize,
    failed: bool,
    seen: Ghost<Seq<u8>>,
}

impl Utf8Stream {
    /// The bytes pushed since the last reset.
    pub closed spec fn view(&self) -> Seq<u8> {
        self.seen@
    }

    spec fn pending(&self) -> Seq<u8> {
        self.tail@.take(self.tail_len as int)
    }

    spec fn done(&self) -> Seq<u8> {
        self.seen@.take(self.seen@.len() - self.tail_len)
    }

    /// The state agrees with the bytes pushed.
    pub closed spec fn wf(&self) -> bool {
        if self.failed {
            !utf8_prefix(self.seen@)
        } else {
            &&& self.tail_len <= 3
            &&& self.tail_len <= self.seen@.len()
            &&& self.seen@ == self.done() + self.pending()
            &&& valid_utf8(self.done())
            &&& scalar_tail(self.pending())
        }
    }

    /// A validator that has seen nothing.
    pub fn new() -> (r: Self)
        ensures
            r.wf(),
            r@ == Seq::<u8>::empty(),
    {
        let r = Utf8Stream {
            tail: [0, 0, 0, 0],
            tail_len: 0,
            failed: false,
            seen: Ghost(Seq::empty()),
        };
        assert(r.done() =~= Seq::<u8>::empty());
        assert(r.pending() =~= Seq::<u8>::empty());
        r
    }

    /// Forgets everything pushed.
    pub fn reset(&mut self)
        ensures
            final(self).wf(),
            final(self)@ == Seq::<u8>::empty(),
    {
        *self = Utf8Stream::new();
    }

    /// Whether the bytes pushed since the last reset are valid UTF-8 as they stand.
    pub fn finish(&self) -> (r: bool)
        requires
            self.wf(),
        ensures
            r == valid_utf8(self@),
    {
        let r: bool = !self.failed && self.tail_len == 0;
        proof {
            if self.failed {
                assert(self.seen@ + Seq::<u8>::empty() =~= self.seen@);
            } else if self.tail_len == 0 {
                assert(self.done() =~= self.seen@);
            } else {
                let t = self.pending();
                lemma_first_scalar(t);
                assert(!valid_first_scalar(t));
                assert(!valid_utf8(t));
                let n = self.done().len() as int;
                assert(self.seen@.subrange(0, n) =~= self.done());
                assert(self.seen@.subrange(n, self.seen@.len() as int) =~= t);
                partial_valid_partial_invalid_utf8(self.seen@, n);
            }
        }
        r
    }

    fn push_byte(&mut self, b: u8)
        requires
            old(self).wf(),
        ensures
            final(self).wf(),
            final(self)@ == old(self)@.push(b),
    {
        let ghost seen = self.seen@.push(b);
        proof {
            assert(seen =~= self.seen@ + seq![b]);
        }
        if self.failed {
            proof {
                lemma_no_prefix_extends(self.seen@, seq![b]);
                self.seen@ = seen;
            }
            return;
        }
        let ghost done = self.done();
        let ghost t = self.pending().push(b);
        proof {
            assert(t.drop_last() =~= self.pending());
            assert(seen =~= done + t);
        }
        let lead: u8 = if self.tail_len == 0 {
            b
        } else {
            self.tail[0]
        };
        assert(lead == t[0]);
        let total: usize = if lead <= 0x7F {
            1
        } else if 0xC2 <= lead && lead <= 0xDF {
            2
        } else if 0xE0 <= lead && lead <= 0xEF {
            3
        } else if 0xF0 <= lead && lead <= 0xF4 {
            4
        } else {
            0
        };
        let fits: bool = if self.tail_len == 0 {
            total > 0
        } else if self.tail_len == 1 {
            let low: u8 = if lead == 0xE0 {
                0xA0
            } else if lead == 0xF0 {
                0x90
            } else {
                0x80
            };
            let high: u8 = if lead == 0xED {
                0x9F
            } else if lead == 0xF4 {
                0x8F
            } else {
                0xBF
            };
            low <= b && b <= high
        } else {
            0x80 <= b && b <= 0xBF
        };
        assert(fits == scalar_start(t));
        if !fits {
            proof {
                lemma_bad_tail_is_no_prefix(done, t);
                self.seen@ = seen;
            }
            self.failed = true;
        } else if self.tail_len + 1 == total {
            proof {
                lemma_complete_scalar(done, t);
                self.seen@ = seen;
            }
            self.tail_len = 0;
            proof {
                assert(self.done() =~= seen);
                assert(self.pending() =~= Seq::<u8>::empty());
                assert(self.done() + self.pending() =~= seen);
            }
        } else {
            self.tail[self.tail_len] = b;
            self.tail_len = self.tail_len + 1;
            proof {
                self.seen@ = seen;
                assert(self.pending() =~= t);
                assert(self.done() =~= done);
            }
        }
    }

    /// Takes the next piece of the text. The result says whether what was
    /// pushed so far can still become valid UTF-8.
    pub fn push(&mut self, data: &[u8]) -> (r: bool)
        requires
            old(self).wf(),
        ensures
            final(self).wf(),
            final(self)@ == old(self)@ + data@,
            r == utf8_prefix(final(self)@),
    {
        let mut i: usize = 0;
        proof {
            assert(self@ =~= old(self)@ + data@.take(0));
        }
        while i < data.len()
            invariant
                i <= data@.len(),
                self.wf(),
                self@ == old(self)@ + data@.take(i as int),
            decreases data@.len() - i,
        {
            self.push_byte(data[i]);
            i = i + 1;
            proof {
                assert(self@ =~= old(self)@ + data@.take(i as int));
            }
        }
        proof {
            assert(data@.take(i as int) =~= data@);
            if !self.failed {
                lemma_tail_is_prefix(self.done(), self.pending());
            }
        }
        !self.failed
    }
}

/// A text that is valid has only prefixes that can still become valid.
pub proof fn law_prefixes_of_valid_text(a: Seq<u8>, b: Seq<u8>)
    requires
        valid_utf8(a + b),
    ensures
        utf8_prefix(a),
{
}

} // verus!
