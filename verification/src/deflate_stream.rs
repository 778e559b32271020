//! The compressing and decompressing side of a connection, message by message.
use crate::buffer::{bytes_from_vec, BufferView};
use crate::codec;
use crate::codec::{deflate_step, inflate_step, new_compress, Flow, COUNTER_LIMIT, STEP_LIMIT};
use crate::deflate;
use crate::deflate::{DeflateConfig, DeflateWindowBits};
use crate::error::{Error, Result};
use crate::octets::smaller;
use crate::text::join2;
use bytes::Bytes;
use flate2::{Compress, Decompress};
use vstd::arithmetic::power2::*;
use vstd::prelude::*;
use vstd::slice::slice_subrange;
use vstd::string::StringExecFns;

verus! {

/// The number of steps after which a message is given up.
pub const MAX_STEPS: u32 = 100_000;

/// The length up to which a message is sure to be compressed.
pub const PROMISE_LIMIT: usize = 0x1fff_ffff;

/// The capacity of an output buffer after it was full at capacity `cap`.
pub open spec fn grown(cap: nat) -> nat {
    cap + if cap >= 4096 {
        cap
    } else {
        4096
    }
}

/// The capacity of an output buffer after it has grown `k` times.
pub open spec fn capacity(first: nat, k: nat) -> nat
    decreases k,
{
    if k == 0 {
        first
    } else {
        grown(capacity(first, (k - 1) as nat))
    }
}

proof fn lemma_capacity_doubles(first: nat, k: nat)
    requires
        first >= 1,
    ensures
        capacity(first, k) >= pow2(k),
    decreases k,
{
    if k == 0 {
        lemma2_to64();
    } else {
        lemma_capacity_doubles(first, (k - 1) as nat);
        lemma_pow2_unfold(k);
    }
}

/// A buffer that one step can fill has not grown often.
proof fn lemma_few_steps(first: nat, k: nat)
    requires
        first >= 1,
        capacity(first, k) <= STEP_LIMIT,
    ensures
        k < 64,
{
    lemma_capacity_doubles(first, k);
    if k >= 64 {
        lemma2_to64();
        if k > 64 {
            lemma_pow2_strictly_increases(64, k);
        }
    }
}

/// `bytes` without the end of an empty stored block at its end.
pub open spec fn stripped(bytes: Seq<u8>) -> Seq<u8> {
    if bytes.len() >= 4 && bytes.skip(bytes.len() - 4) == codec::trailer() {
        bytes.take(bytes.len() - 4)
    } else {
        bytes
    }
}

/// The state of an encoder.
#[verifier::ext_equal]
pub struct EncoderView {
    /// What it has consumed since it was last reset
    pub fed: Seq<u8>,
    /// What it has produced since it was last reset
    pub made: Seq<u8>,
    /// The bits of its window
    pub window: nat,
    /// Whether it is reset before each message
    pub no_context_takeover: bool,
    /// How hard it tries, from 0 to 9
    pub level: nat,
    /// Messages shorter than this are not compressed
    pub threshold: nat,
}

/// The state of a decoder.
#[verifier::ext_equal]
pub struct DecoderView {
    /// What it has consumed since it was last reset
    pub fed: Seq<u8>,
    /// What it has produced since it was last reset
    pub made: Seq<u8>,
    /// The bits of the history that it is sure to keep
    pub window: nat,
    /// Whether it is reset before each message
    pub no_context_takeover: bool,
}

impl EncoderView {
    /// The state in which a message is begun.
    pub open spec fn begun(self) -> EncoderView {
        if self.no_context_takeover {
            self.cleared()
        } else {
            self
        }
    }

    /// The state after a reset.
    pub open spec fn cleared(self) -> EncoderView {
        EncoderView { fed: seq![], made: seq![], ..self }
    }
}

impl DecoderView {
    /// The state in which a message is begun.
    pub open spec fn begun(self) -> DecoderView {
        if self.no_context_takeover {
            self.cleared()
        } else {
            self
        }
    }

    /// The state after a reset.
    pub open spec fn cleared(self) -> DecoderView {
        DecoderView { fed: seq![], made: seq![], window: 15, ..self }
    }
}

/// Whether an encoder may give a message up: it is very long, or the counters
/// of the stream are exhausted.
pub open spec fn beyond_compression(begun: EncoderView, data: Seq<u8>, after: EncoderView) -> bool {
    ||| data.len() + 64 > PROMISE_LIMIT
    ||| after.made.len() - begun.made.len() > PROMISE_LIMIT
    ||| after.fed.len() > COUNTER_LIMIT
    ||| after.made.len() > COUNTER_LIMIT
}

/// Whether an encoder leaves a message alone: it is empty, or below the threshold.
pub open spec fn skipped(encoder: EncoderView, data: Seq<u8>) -> bool {
    data.len() == 0 || data.len() < encoder.threshold
}

/// Whether all that an encoder has produced stands for all that it has consumed,
/// alone and behind any stream that ends with a complete flush, for every
/// history that is no shorter than its window.
pub open spec fn readable(encoder: EncoderView) -> bool {
    &&& forall|window: nat|
        encoder.window <= window <= 15 ==> #[trigger] codec::inflated(window, encoder.made) == Some(
            (encoder.fed, true),
        )
    &&& forall|window: nat, earlier: Seq<u8>|
        encoder.window <= window <= 15 && (codec::inflated(window, earlier) matches Some((_, true)))
            ==> #[trigger] codec::inflated(window, earlier + encoder.made) == Some(
            ((codec::inflated(window, earlier)->0).0 + encoder.fed, true),
        )
}

/// What an encoder that began a message in state `begun` has produced since,
/// without the end of an empty stored block.
pub open spec fn message_of(begun: EncoderView, after: EncoderView) -> Seq<u8> {
    stripped(after.made.skip(begun.made.len() as int))
}

/// Whether an encoder in state `begun` may have taken a message in so: the
/// message is added to what it has consumed, and what it has produced since
/// makes all of it readable.
pub open spec fn taken_in(begun: EncoderView, data: Seq<u8>, after: EncoderView) -> bool {
    &&& after == (EncoderView { fed: begun.fed + data, made: after.made, ..begun })
    &&& after.made == begun.made + message_of(begun, after) + codec::trailer()
    &&& readable(after)
}

/// How an encoder in state `before` may deal with a message.
///
/// An empty message and one below the threshold are left alone. Any other is
/// taken in, and what the encoder produces of it, without the end of an empty
/// stored block, is the compressed message. Where that is no shorter, it is not
/// used, and the encoder begins afresh: a message that the peer gets as it is
/// must not be part of what later ones refer to.
pub open spec fn compressed(
    before: EncoderView,
    data: Seq<u8>,
    after: EncoderView,
    r: core::result::Result<Option<Seq<u8>>, Error>,
) -> bool {
    let begun = before.begun();
    if skipped(before, data) {
        &&& r == Ok::<Option<Seq<u8>>, Error>(None)
        &&& after == before
    } else {
        match r {
            Ok(small) => exists|mid: EncoderView|
                {
                    &&& #[trigger] taken_in(begun, data, mid)
                    &&& if message_of(begun, mid).len() >= data.len() {
                        small is None && after == mid.cleared()
                    } else {
                        small == Some(message_of(begun, mid)) && after == mid
                    }
                },
            Err(e) => {
                &&& e is Compression
                &&& beyond_compression(begun, data, after)
                &&& after == (EncoderView { fed: after.fed, made: after.made, ..begun })
                &&& begun.made.is_prefix_of(after.made)
            },
        }
    }
}

/// The bytes in the result of a compression.
pub open spec fn packed(r: Result<Option<Bytes>>) -> core::result::Result<Option<Seq<u8>>, Error> {
    match r {
        Ok(Some(b)) => Ok(Some(b@)),
        Ok(None) => Ok(None),
        Err(e) => Err(e),
    }
}

/// The bytes in the result of a decompression.
pub open spec fn unpacked(r: Result<Bytes>) -> core::result::Result<Seq<u8>, Error> {
    match r {
        Ok(b) => Ok(b@),
        Err(e) => Err(e),
    }
}

/// The capacity with which a decoder starts on a message of `len` bytes.
pub open spec fn first_room(len: nat) -> nat {
    if 4 * len >= 1024 {
        4 * len
    } else {
        1024
    }
}

/// Whether a decoder surely has the means to take in `input` bytes and to
/// produce `n` bytes, in an output buffer that starts with `first` bytes: one
/// step can look at all of it, and neither memory nor the counters of the stream
/// are exhausted.
pub open spec fn enough(begun: DecoderView, input: nat, first: nat, n: nat) -> bool {
    &&& first <= STEP_LIMIT
    &&& grown(n) <= STEP_LIMIT
    &&& grown(n) <= isize::MAX
    &&& begun.fed.len() + input <= COUNTER_LIMIT
    &&& begun.made.len() + grown(n) <= COUNTER_LIMIT
    &&& begun.made.len() + first <= COUNTER_LIMIT
}

/// Whether a decoder surely has the means for a compressed message of which it
/// is to produce `n` bytes.
pub open spec fn within_means(begun: DecoderView, data: Seq<u8>, n: nat) -> bool {
    enough(begun, data.len() + 4, first_room(data.len()), n)
}

/// How a decoder in state `before` may deal with a compressed message.
///
/// The message, with the end of an empty stored block, is added to what the
/// stream consumes, and what the stream then stands for beyond what it has
/// produced is the message. A message longer than `max_size` is refused, and so
/// are bytes that stand for nothing, even within the largest history that there
/// is. Bytes that stand for something within that history, but not within the
/// decoder's own, may be refused too.
pub open spec fn decompressed(
    before: DecoderView,
    data: Seq<u8>,
    max_size: nat,
    after: DecoderView,
    r: core::result::Result<Seq<u8>, Error>,
) -> bool {
    let begun = before.begun();
    let stream = begun.fed + data + codec::trailer();
    &&& after.window == begun.window
    &&& after.no_context_takeover == before.no_context_takeover
    &&& match r {
        Ok(message) => {
            &&& codec::extends(begun.fed, after.fed, data + codec::trailer())
            &&& after.made == begun.made + message
            &&& message.len() <= max_size
            &&& codec::inflated(15, stream) matches Some((text, _)) && after.made == text
        },
        Err(e) => e == Error::MessageTooLarge || e is Compression,
    }
    &&& codec::inflated(begun.window, stream) matches Some((text, flushed)) ==> {
        let n = text.len() - begun.made.len();
        &&& r is Ok ==> after.made == text && (flushed ==> after.fed == stream)
        &&& n <= max_size && within_means(begun, data, n as nat) ==> r is Ok
        &&& n > max_size && within_means(begun, data, max_size) ==> r == Err::<Seq<u8>, Error>(
            Error::MessageTooLarge,
        )
    }
}

/// Compresses outgoing messages
pub struct DeflateEncoder {
    compress: Compress,
    no_context_takeover: bool,
    threshold: usize,
}

impl View for DeflateEncoder {
    type V = EncoderView;

    closed spec fn view(&self) -> EncoderView {
        EncoderView {
            fed: codec::deflate_fed(self.compress),
            made: codec::deflate_made(self.compress),
            window: codec::deflate_window(self.compress),
            no_context_takeover: self.no_context_takeover,
            level: codec::deflate_level(self.compress),
            threshold: self.threshold as nat,
        }
    }
}

/// The capacity after a full buffer, where one can be had.
fn grow(cap: usize) -> (r: Option<usize>)
    ensures
        match r {
            Some(n) => n == grown(cap as nat) && n <= isize::MAX,
            None => grown(cap as nat) > isize::MAX,
        },
{
    let more: usize = if cap >= 4096 {
        cap
    } else {
        4096
    };
    match cap.checked_add(more) {
        Some(n) => if n <= isize::MAX as usize {
            Some(n)
        } else {
            None
        },
        None => None,
    }
}

impl DeflateEncoder {
    /// An encoder with an empty window.
    pub fn new(
        window_bits: DeflateWindowBits,
        no_context_takeover: bool,
        level: u32,
        threshold: usize,
    ) -> (r: Self)
        requires
            level <= 9,
        ensures
            r@ == (EncoderView {
                fed: seq![],
                made: seq![],
                window: deflate::bits_of(window_bits) as nat,
                no_context_takeover,
                level: level as nat,
                threshold: threshold as nat,
            }),
    {
        DeflateEncoder {
            compress: new_compress(level, u8::from(window_bits)),
            no_context_takeover,
            threshold,
        }
    }

    /// Compresses a message.
    ///
    /// Gives nothing where the message is empty or below the threshold, or where
    /// compression does not make it smaller. The encoder then begins afresh.
    pub fn compress(&mut self, data: &[u8]) -> (r: Result<Option<Bytes>>)
        requires
            data@.len() + 64 <= isize::MAX,
        ensures
            compressed(old(self)@, data@, final(self)@, packed(r)),
    {
        if data.len() == 0 || data.len() < self.threshold {
            return Ok(None);
        }
        if self.no_context_takeover {
            self.compress.reset();
        }
        let ghost begun = self@;
        proof {
            assert(begun =~= old(self)@.begun());
        }
        match self.run(data) {
            Ok(full) => {
                let mut out = full;
                let ghost mid = self@;
                proof {
                    assert(mid.made.skip(begun.made.len() as int) =~= out@);
                    assert(out@.skip(out@.len() - 4) =~= mid.made.skip(mid.made.len() - 4));
                    assert(stripped(out@) + codec::trailer() =~= out@);
                    assert(mid.made =~= begun.made + stripped(out@) + codec::trailer());
                    assert(taken_in(begun, data@, mid));
                }
                strip_trailer(&mut out);
                if out.len() >= data.len() {
                    // The peer never sees these bytes, so that nothing later
                    // may refer to them.
                    self.compress.reset();
                    assert(self@ =~= mid.cleared());
                    Ok(None)
                } else {
                    Ok(Some(bytes_from_vec(out)))
                }
            },
            Err(e) => Err(e),
        }
    }

    /// Runs a message through the stream, until a step leaves room in the
    /// output: what a full output keeps back would go out with the next message.
    fn run(&mut self, data: &[u8]) -> (r: Result<Vec<u8>>)
        requires
            0 < data@.len(),
            data@.len() + 64 <= isize::MAX,
        ensures
            final(self)@.window == old(self)@.window,
            final(self)@.no_context_takeover == old(self)@.no_context_takeover,
            final(self)@.level == old(self)@.level,
            final(self)@.threshold == old(self)@.threshold,
            old(self)@.made.is_prefix_of(final(self)@.made),
            match r {
                Ok(out) => {
                    &&& final(self)@.fed == old(self)@.fed + data@
                    &&& final(self)@.made == old(self)@.made + out@
                    &&& codec::ends_with_trailer(old(self)@.made, final(self)@.made)
                    &&& codec::stands_for_all(final(self).compress)
                    &&& codec::stands_behind_others(final(self).compress)
                },
                Err(e) => e is Compression && beyond_compression(
                    old(self)@,
                    data@,
                    final(self)@,
                ),
            },
    {
        let ghost begun = old(self)@;
        let ghost first = (data@.len() + 64) as nat;
        let ghost mut k: nat = 0;
        let mut cap: usize = data.len() + 64;
        let mut out: Vec<u8> = vec![0u8; cap];
        let mut len: usize = 0;
        let mut total_in: usize = 0;
        let mut steps: u32 = 0;
        proof {
            assert(self@.fed =~= begun.fed + data@.take(0));
            assert(self@.made =~= begun.made + out@.take(0));
        }
        loop
            invariant_except_break
                total_in < data@.len() || codec::deflate_unflushed(self.compress),
                steps == 0 ==> k == 0 && len == 0 && total_in == 0,
                steps > 0 && codec::step_fits(data@.len(), cap as nat) ==> len == cap && steps == k
                    + 1,
            invariant
                0 < data@.len(),
                data@.len() + 64 <= isize::MAX,
                first == data@.len() + 64,
                begun == old(self)@,
                cap == capacity(first, k),
                k > 0 ==> len >= capacity(first, (k - 1) as nat),
                len <= out@.len() == cap,
                cap <= isize::MAX,
                total_in <= data@.len(),
                steps <= MAX_STEPS,
                self@.window == begun.window,
                self@.no_context_takeover == begun.no_context_takeover,
                self@.level == begun.level,
                self@.threshold == begun.threshold,
                self@.fed == begun.fed + data@.take(total_in as int),
                self@.made == begun.made + out@.take(len as int),
            ensures
                total_in == data@.len(),
                codec::ends_with_trailer(begun.made, self@.made),
                codec::stands_for_all(self.compress),
                codec::stands_behind_others(self.compress),
            decreases MAX_STEPS - steps,
        {
            proof {
                assert(begun.made.is_prefix_of(self@.made));
                if len <= PROMISE_LIMIT && first <= PROMISE_LIMIT {
                    assert(cap <= STEP_LIMIT);
                    lemma_few_steps(first, k);
                }
            }
            if steps >= MAX_STEPS {
                return Err(
                    Error::Compression(String::from_str("compression took too many iterations")),
                );
            }
            steps = steps + 1;
            if len == cap {
                match grow(cap) {
                    Some(n) => {
                        let ghost before = out@;
                        out.resize(n, 0u8);
                        cap = n;
                        proof {
                            k = k + 1;
                            assert(out@.take(len as int) =~= before.take(len as int));
                        }
                    },
                    None => {
                        return Err(
                            Error::Compression(String::from_str("compressed message is too large")),
                        );
                    },
                }
            }
            if self.compress.total_in() > COUNTER_LIMIT || self.compress.total_out()
                > COUNTER_LIMIT {
                return Err(Error::Compression(String::from_str("stream is too long")));
            }
            let input = slice_subrange(data, total_in, data.len());
            let ghost out0 = out@;
            let (consumed, produced, done) = deflate_into(
                &mut self.compress,
                input,
                &mut out,
                len,
            );
            proof {
                assert(self@.fed =~= begun.fed + data@.take(total_in + consumed));
                assert(self@.made =~= begun.made + out@.take(len + produced)) by {
                    assert(out@.take(len + produced) =~= out0.take(len as int) + out@.subrange(
                        len as int,
                        len + produced,
                    ));
                }
            }
            total_in = total_in + consumed;
            len = len + produced;
            if done {
                break ;
            }
        }
        out.truncate(len);
        proof {
            assert(self@.made =~= begun.made + out@);
            assert(self@.fed =~= begun.fed + data@);
        }
        Ok(out)
    }

    /// Empties the window.
    pub fn reset(&mut self)
        ensures
            final(self)@ == old(self)@.cleared(),
    {
        self.compress.reset();
        assert(self@ =~= old(self)@.cleared());
    }
}

/// Takes the end of an empty stored block off.
fn strip_trailer(out: &mut Vec<u8>)
    ensures
        final(out)@ == stripped(old(out)@),
{
    let len = out.len();
    let ghost full = out@;
    if len >= 4 && out[len - 4] == 0x00 && out[len - 3] == 0x00 && out[len - 2] == 0xff && out[len
        - 1] == 0xff {
        out.truncate(len - 4);
        assert(full.skip(full.len() - 4) =~= codec::trailer());
    } else {
        proof {
            if len >= 4 && full.skip(full.len() - 4) == codec::trailer() {
                let last = full.skip(full.len() - 4);
                assert(full[len - 4] == last[0] && full[len - 3] == last[1] && full[len - 2]
                    == last[2] && full[len - 1] == last[3]);
            }
        }
    }
}

/// One step of a compressor that writes into `out` from `len` on. Gives the
/// numbers of bytes consumed and produced, and whether the step used up the
/// input and left room.
fn deflate_into(c: &mut Compress, input: &[u8], out: &mut Vec<u8>, len: usize) -> (r: (
    usize,
    usize,
    bool,
))
    requires
        len < old(out)@.len(),
        input@.len() > 0 || codec::deflate_unflushed(*old(c)),
        codec::deflate_fed(*old(c)).len() <= COUNTER_LIMIT,
        codec::deflate_made(*old(c)).len() <= COUNTER_LIMIT,
    ensures
        final(out)@.len() == old(out)@.len(),
        final(out)@.take(len as int) == old(out)@.take(len as int),
        r.0 <= input@.len(),
        len + r.1 <= final(out)@.len(),
        codec::deflate_window(*final(c)) == codec::deflate_window(*old(c)),
        codec::deflate_level(*final(c)) == codec::deflate_level(*old(c)),
        codec::deflate_fed(*final(c)) == codec::deflate_fed(*old(c)) + input@.take(r.0 as int),
        codec::deflate_made(*final(c)) == codec::deflate_made(*old(c)) + final(out)@.subrange(
            len as int,
            len + r.1,
        ),
        !r.2 ==> r.0 < input@.len() || codec::deflate_unflushed(*final(c)),
        !r.2 && codec::step_fits(input@.len(), (final(out)@.len() - len) as nat) ==> len + r.1
            == final(out)@.len(),
        r.2 ==> r.0 == input@.len() && codec::ends_with_trailer(
            codec::deflate_made(*old(c)),
            codec::deflate_made(*final(c)),
        ) && codec::stands_for_all(*final(c)) && codec::stands_behind_others(*final(c)),
{
    let before_in = c.total_in();
    let before_out = c.total_out();
    let ghost out0 = out@;
    let take: usize = smaller(input.len(), STEP_LIMIT);
    let give: usize = smaller(out.len() - len, STEP_LIMIT);
    let piece = slice_subrange(input, 0, take);
    let rest = out.as_mut_slice().split_at_mut(len).1;
    let room = rest.split_at_mut(give).0;
    let _ = deflate_step(c, piece, room);
    let consumed: u64 = c.total_in() - before_in;
    let produced: u64 = c.total_out() - before_out;
    proof {
        assert(out@.take(len as int) =~= out0.take(len as int));
        assert(consumed <= take && produced <= give);
        let written = out@.subrange(len as int, len + give);
        assert(written.take(produced as int) =~= out@.subrange(len as int, len + produced));
        assert(piece@.take(consumed as int) =~= input@.take(consumed as int));
    }
    let done = consumed as usize == input.len() && (produced as usize) < give;
    (consumed as usize, produced as usize, done)
}

/// Decompresses incoming messages
pub struct DeflateDecoder {
    decompress: Decompress,
    no_context_takeover: bool,
}

impl View for DeflateDecoder {
    type V = DecoderView;

    closed spec fn view(&self) -> DecoderView {
        DecoderView {
            fed: codec::inflate_fed(self.decompress),
            made: codec::inflate_made(self.decompress),
            window: codec::inflate_window(self.decompress),
            no_context_takeover: self.no_context_takeover,
        }
    }
}

impl DeflateDecoder {
    /// A decoder with an empty history.
    pub fn new(window_bits: DeflateWindowBits, no_context_takeover: bool) -> (r: Self)
        ensures
            r@ == (DecoderView {
                fed: seq![],
                made: seq![],
                window: deflate::bits_of(window_bits) as nat,
                no_context_takeover,
            }),
    {
        DeflateDecoder {
            decompress: Decompress::new_with_window_bits(false, u8::from(window_bits)),
            no_context_takeover,
        }
    }

    /// Decompresses a message of at most `max_size` bytes.
    pub fn decompress(&mut self, data: &[u8], max_size: usize) -> (r: Result<Bytes>)
        requires
            4 * data@.len() <= isize::MAX,
            data@.len() + 4 <= isize::MAX,
        ensures
            decompressed(old(self)@, data@, max_size as nat, final(self)@, unpacked(r)),
    {
        if self.no_context_takeover {
            self.decompress.reset(false);
        }
        let ghost begun = self@;
        proof {
            assert(begun =~= old(self)@.begun());
        }
        let mut input: Vec<u8> = Vec::with_capacity(data.len() + 4);
        input.extend_from_slice(data);
        input.push(0x00);
        input.push(0x00);
        input.push(0xff);
        input.push(0xff);
        proof {
            assert(input@ =~= data@ + codec::trailer());
            assert(begun.fed + data@ + codec::trailer() =~= begun.fed + input@);
        }
        let cap: usize = if data.len() * 4 >= 1024 {
            data.len() * 4
        } else {
            1024
        };
        match self.run(input.as_slice(), cap, max_size) {
            Ok(out) => Ok(bytes_from_vec(out)),
            Err(e) => Err(e),
        }
    }

    /// Runs a message through the stream, with an output buffer that starts
    /// with `first` bytes, until the stream ends or a step leaves room in it.
    fn run(&mut self, input: &[u8], first: usize, max_size: usize) -> (r: Result<Vec<u8>>)
        requires
            1024 <= first <= isize::MAX,
            0 < input@.len() <= first,
        ensures
            final(self)@.window == old(self)@.window,
            final(self)@.no_context_takeover == old(self)@.no_context_takeover,
            match r {
                Ok(out) => {
                    &&& codec::extends(old(self)@.fed, final(self)@.fed, input@)
                    &&& final(self)@.made == old(self)@.made + out@
                    &&& out@.len() <= max_size
                    &&& codec::inflated(15, old(self)@.fed + input@) matches Some((text, _))
                        && final(self)@.made == text
                },
                Err(e) => e == Error::MessageTooLarge || e is Compression,
            },
            codec::inflated(old(self)@.window, old(self)@.fed + input@) matches Some(
                (text, flushed),
            ) ==> {
                let n = text.len() - old(self)@.made.len();
                &&& r is Ok ==> final(self)@.made == text && (flushed ==> final(self)@.fed == old(
                    self,
                )@.fed + input@)
                &&& n <= max_size && enough(old(self)@, input@.len(), first as nat, n as nat)
                    ==> r is Ok
                &&& n > max_size && enough(
                    old(self)@,
                    input@.len(),
                    first as nat,
                    max_size as nat,
                ) ==> r == Err::<Vec<u8>, Error>(Error::MessageTooLarge)
            },
    {
        let ghost begun = self@;
        let ghost given = codec::inflated(begun.window, begun.fed + input@);
        let ghost n = (given->0).0.len() - begun.made.len();
        let ghost able = given is Some && if n <= max_size {
            enough(begun, input@.len(), first as nat, n as nat)
        } else {
            enough(begun, input@.len(), first as nat, max_size as nat)
        };
        let ghost mut k: nat = 0;
        let mut cap: usize = first;
        let mut out: Vec<u8> = vec![0u8; cap];
        let mut len: usize = 0;
        let mut total_in: usize = 0;
        let mut steps: u32 = 0;
        proof {
            assert(self@.fed =~= begun.fed + input@.take(0));
            assert(self@.made =~= begun.made + out@.take(0));
        }
        loop
            invariant_except_break
                steps == 0 ==> k == 0 && len == 0 && total_in == 0,
                steps > 0 && given is Some ==> self@.made.is_prefix_of((given->0).0),
                steps > 0 ==> total_in < input@.len() || len == cap,
                steps > 0 && codec::step_fits(input@.len(), cap as nat) ==> len == cap && steps == k
                    + 1,
            invariant
                1024 <= first <= isize::MAX,
                0 < input@.len() <= first,
                begun == old(self)@,
                given == codec::inflated(begun.window, begun.fed + input@),
                n == (given->0).0.len() - begun.made.len(),
                able == (given is Some && if n <= max_size {
                    enough(begun, input@.len(), first as nat, n as nat)
                } else {
                    enough(begun, input@.len(), first as nat, max_size as nat)
                }),
                cap == capacity(first as nat, k),
                first <= cap,
                able ==> cap == first || cap <= grown(
                    if n <= max_size {
                        n as nat
                    } else {
                        max_size as nat
                    },
                ),
                len <= out@.len() == cap,
                cap <= isize::MAX,
                total_in <= input@.len(),
                steps <= MAX_STEPS,
                self@.window == begun.window,
                self@.no_context_takeover == begun.no_context_takeover,
                self@.fed == begun.fed + input@.take(total_in as int),
                self@.made == begun.made + out@.take(len as int),
            ensures
                given matches Some((text, flushed)) ==> self@.made == text && (flushed ==> total_in
                    == input@.len()),
                codec::inflated(15, begun.fed + input@) matches Some((text, _)) && self@.made
                    == text,
            decreases MAX_STEPS - steps,
        {
            proof {
                if cap <= STEP_LIMIT {
                    lemma_few_steps(first as nat, k);
                }
                if given is Some && steps > 0 {
                    assert(self@.made.len() <= (given->0).0.len());
                }
            }
            if steps >= MAX_STEPS {
                return Err(
                    Error::Compression(String::from_str("decompression took too many iterations")),
                );
            }
            steps = steps + 1;
            if len > max_size {
                return Err(Error::MessageTooLarge);
            }
            if len == cap {
                match grow(cap) {
                    Some(more) => {
                        let ghost before = out@;
                        out.resize(more, 0u8);
                        cap = more;
                        proof {
                            k = k + 1;
                            assert(out@.take(len as int) =~= before.take(len as int));
                        }
                    },
                    None => return Err(Error::MessageTooLarge),
                }
            }
            if self.decompress.total_in() > COUNTER_LIMIT || self.decompress.total_out()
                > COUNTER_LIMIT {
                return Err(Error::Compression(String::from_str("stream is too long")));
            }
            let rest = slice_subrange(input, total_in, input.len());
            let ghost out0 = out@;
            proof {
                assert(self@.fed + rest@ =~= begun.fed + input@);
            }
            let (flow, consumed, produced) = match inflate_into(
                &mut self.decompress,
                rest,
                &mut out,
                len,
            ) {
                Ok(r) => r,
                Err(e) => {
                    return Err(Error::Compression(join2("inflate error: ", e.as_str())));
                },
            };
            proof {
                assert(self@.fed =~= begun.fed + input@.take(total_in + consumed));
                assert(self@.made =~= begun.made + out@.take(len + produced)) by {
                    assert(out@.take(len + produced) =~= out0.take(len as int) + out@.subrange(
                        len as int,
                        len + produced,
                    ));
                }
            }
            total_in = total_in + consumed;
            len = len + produced;
            if flow == Flow::End || (total_in >= input.len() && len < cap) {
                break ;
            }
        }
        if len > max_size {
            return Err(Error::MessageTooLarge);
        }
        out.truncate(len);
        proof {
            assert(self@.made =~= begun.made + out@);
        }
        Ok(out)
    }

    /// Empties the history.
    pub fn reset(&mut self)
        ensures
            final(self)@ == old(self)@.cleared(),
    {
        self.decompress.reset(false);
        assert(self@ =~= old(self)@.cleared());
    }
}

/// One step of a decompressor that writes into `out` from `len` on. Gives how
/// it ended and the numbers of bytes consumed and produced.
fn inflate_into(d: &mut Decompress, input: &[u8], out: &mut Vec<u8>, len: usize) -> (r:
    core::result::Result<(Flow, usize, usize), String>)
    requires
        len <= old(out)@.len(),
        codec::inflate_fed(*old(d)).len() <= COUNTER_LIMIT,
        codec::inflate_made(*old(d)).len() <= COUNTER_LIMIT,
    ensures
        codec::inflate_window(*final(d)) == codec::inflate_window(*old(d)),
        final(out)@.len() == old(out)@.len(),
        final(out)@.take(len as int) == old(out)@.take(len as int),
        codec::inflated(
            codec::inflate_window(*old(d)),
            codec::inflate_fed(*old(d)) + input@,
        ) is Some ==> r is Ok,
        r matches Ok((flow, consumed, produced)) ==> {
            &&& consumed <= input@.len()
            &&& len + produced <= final(out)@.len()
            &&& codec::inflate_fed(*final(d)) == codec::inflate_fed(*old(d)) + input@.take(
                consumed as int,
            )
            &&& codec::inflate_made(*final(d)) == codec::inflate_made(*old(d))
                + final(out)@.subrange(len as int, len + produced)
            &&& flow == Flow::Stuck ==> consumed == 0 && produced == 0
            &&& flow == Flow::End || (consumed == input@.len() && len + produced
                < final(out)@.len()) ==> (codec::inflated(
                15,
                codec::inflate_fed(*old(d)) + input@,
            ) matches Some((text, _)) && codec::inflate_made(*final(d)) == text)
            &&& codec::step_fits(input@.len(), (final(out)@.len() - len) as nat) && flow
                != Flow::End ==> consumed == input@.len() || len + produced == final(out)@.len()
            &&& codec::inflated(
                codec::inflate_window(*old(d)),
                codec::inflate_fed(*old(d)) + input@,
            ) matches Some((text, flushed)) ==> {
                &&& codec::inflate_made(*final(d)).is_prefix_of(text)
                &&& flushed ==> flow != Flow::End
                &&& flow == Flow::End || (consumed == input@.len() && (flushed || len + produced
                    < final(out)@.len())) ==> codec::inflate_made(*final(d)) == text
            }
        },
{
    let before_in = d.total_in();
    let before_out = d.total_out();
    let ghost out0 = out@;
    let input_len = input.len();
    let out_len = out.len();
    let room = out.as_mut_slice().split_at_mut(len).1;
    let result = inflate_step(d, input, room);
    proof {
        assert(out@.take(len as int) =~= out0.take(len as int));
    }
    match result {
        Ok(flow) => {
            let consumed: u64 = d.total_in() - before_in;
            let produced: u64 = d.total_out() - before_out;
            proof {
                assert(consumed <= input_len && produced <= out_len);
                let tail = out@.skip(len as int);
                assert(tail.take(produced as int) =~= out@.subrange(len as int, len + produced));
            }
            Ok((flow, consumed as usize, produced as usize))
        },
        Err(e) => Err(e),
    }
}

/// The two directions of a connection, with their configuration
pub struct DeflateContext {
    /// Compresses outgoing messages
    pub encoder: DeflateEncoder,
    /// Decompresses incoming messages
    pub decoder: DeflateDecoder,
    /// The configuration
    pub config: DeflateConfig,
}

/// The encoder with which the server's side of a configuration begins.
pub open spec fn server_encoder(config: DeflateConfig) -> EncoderView {
    EncoderView {
        fed: seq![],
        made: seq![],
        window: deflate::bits_of(config.server_max_window_bits) as nat,
        no_context_takeover: config.server_no_context_takeover,
        level: config.compression_level as nat,
        threshold: config.compression_threshold as nat,
    }
}

/// The encoder with which the client's side of a configuration begins.
pub open spec fn client_encoder(config: DeflateConfig) -> EncoderView {
    EncoderView {
        fed: seq![],
        made: seq![],
        window: deflate::bits_of(config.client_max_window_bits) as nat,
        no_context_takeover: config.client_no_context_takeover,
        level: config.compression_level as nat,
        threshold: config.compression_threshold as nat,
    }
}

/// The decoder that begins with what a new encoder sends.
pub open spec fn decoder_for(encoder: EncoderView) -> DecoderView {
    DecoderView {
        fed: seq![],
        made: seq![],
        window: encoder.window,
        no_context_takeover: encoder.no_context_takeover,
    }
}

impl DeflateContext {
    /// The context of a server.
    pub fn server(config: DeflateConfig) -> (r: Self)
        requires
            config.compression_level <= 9,
        ensures
            r.config == config,
            r.encoder@ == server_encoder(config),
            r.decoder@ == decoder_for(client_encoder(config)),
    {
        let encoder = DeflateEncoder::new(
            config.server_max_window_bits,
            config.server_no_context_takeover,
            config.compression_level,
            config.compression_threshold,
        );
        let decoder = DeflateDecoder::new(
            config.client_max_window_bits,
            config.client_no_context_takeover,
        );
        DeflateContext { encoder, decoder, config }
    }

    /// The context of a client.
    pub fn client(config: DeflateConfig) -> (r: Self)
        requires
            config.compression_level <= 9,
        ensures
            r.config == config,
            r.encoder@ == client_encoder(config),
            r.decoder@ == decoder_for(server_encoder(config)),
    {
        let encoder = DeflateEncoder::new(
            config.client_max_window_bits,
            config.client_no_context_takeover,
            config.compression_level,
            config.compression_threshold,
        );
        let decoder = DeflateDecoder::new(
            config.server_max_window_bits,
            config.server_no_context_takeover,
        );
        DeflateContext { encoder, decoder, config }
    }

    /// Compresses a message where that helps.
    pub fn compress(&mut self, data: &[u8]) -> (r: Result<Option<Bytes>>)
        requires
            data@.len() + 64 <= isize::MAX,
        ensures
            compressed(old(self).encoder@, data@, final(self).encoder@, packed(r)),
            final(self).decoder@ == old(self).decoder@,
            final(self).config == old(self).config,
    {
        self.encoder.compress(data)
    }

    /// Decompresses a message.
    pub fn decompress(&mut self, data: &[u8], max_size: usize) -> (r: Result<Bytes>)
        requires
            4 * data@.len() <= isize::MAX,
            data@.len() + 4 <= isize::MAX,
        ensures
            decompressed(
                old(self).decoder@,
                data@,
                max_size as nat,
                final(self).decoder@,
                unpacked(r),
            ),
            final(self).encoder@ == old(self).encoder@,
            final(self).config == old(self).config,
    {
        self.decoder.decompress(data, max_size)
    }
}

/// Whether a stream that was fed so and has made this is complete: it is new, or
/// it stands for what it has made and ends with a complete flush.
pub open spec fn settled(window: nat, fed: Seq<u8>, made: Seq<u8>) -> bool {
    ||| fed.len() == 0 && made.len() == 0
    ||| codec::inflated(window, fed) == Some((made, true))
}

/// Whether a decoder has been given exactly what an encoder has sent, so that
/// the next message is understood. An encoder that began afresh meanwhile has
/// forgotten the earlier part of what the decoder was given; that part is
/// complete.
pub open spec fn in_step(encoder: EncoderView, decoder: DecoderView) -> bool {
    let e = encoder.begun();
    let d = decoder.begun();
    let fed = d.fed.len() - e.made.len();
    let made = d.made.len() - e.fed.len();
    &&& encoder.no_context_takeover == decoder.no_context_takeover
    &&& e.window <= d.window <= 15
    &&& 0 <= fed && d.fed.skip(fed) == e.made
    &&& 0 <= made && d.made.skip(made) == e.fed
    &&& settled(d.window, d.fed.take(fed), d.made.take(made))
    &&& settled(d.window, d.fed, d.made)
}

/// Two sides without history are in step.
pub(crate) proof fn lemma_fresh_in_step(encoder: EncoderView, decoder: DecoderView)
    requires
        encoder.no_context_takeover == decoder.no_context_takeover,
        encoder.window <= decoder.begun().window <= 15,
        encoder.begun().fed.len() == 0,
        encoder.begun().made.len() == 0,
        decoder.begun().fed.len() == 0,
        decoder.begun().made.len() == 0,
    ensures
        in_step(encoder, decoder),
{
    let e = encoder.begun();
    let d = decoder.begun();
    assert(d.fed.skip(0) =~= e.made);
    assert(d.made.skip(0) =~= e.fed);
}

/// The two sides of one configuration begin in step, in both directions.
pub proof fn law_contexts_begin_in_step(config: DeflateConfig)
    ensures
        in_step(server_encoder(config), decoder_for(server_encoder(config))),
        in_step(client_encoder(config), decoder_for(client_encoder(config))),
{
    lemma_fresh_in_step(server_encoder(config), decoder_for(server_encoder(config)));
    lemma_fresh_in_step(client_encoder(config), decoder_for(client_encoder(config)));
}

/// Bytes that stand for nothing are refused.
pub proof fn law_malformed_bytes_are_refused(
    decoder: DecoderView,
    data: Seq<u8>,
    max_size: nat,
    decoder_after: DecoderView,
    r: core::result::Result<Seq<u8>, Error>,
)
    requires
        decompressed(decoder, data, max_size, decoder_after, r),
        codec::inflated(15, decoder.begun().fed + data + codec::trailer()) is None,
    ensures
        r is Err,
{
}

/// A message is sent compressed only where that makes it shorter. One that is
/// sent as it is leaves nothing behind that later messages could refer to.
pub proof fn law_compression_only_shortens(
    encoder: EncoderView,
    data: Seq<u8>,
    encoder_after: EncoderView,
    r: core::result::Result<Option<Seq<u8>>, Error>,
)
    requires
        compressed(encoder, data, encoder_after, r),
    ensures
        r matches Ok(Some(small)) ==> small.len() < data.len(),
        r matches Ok(None) ==> encoder_after == encoder || encoder_after == encoder.cleared(),
{
}

/// A message that was compressed is read back as it was written, and leaves
/// both sides in step.
pub proof fn law_message_round_trip(
    encoder: EncoderView,
    data: Seq<u8>,
    encoder_after: EncoderView,
    small: Seq<u8>,
    decoder: DecoderView,
    max_size: nat,
    decoder_after: DecoderView,
    r: core::result::Result<Seq<u8>, Error>,
)
    requires
        in_step(encoder, decoder),
        compressed(
            encoder,
            data,
            encoder_after,
            Ok::<Option<Seq<u8>>, Error>(Some(small)),
        ),
        decompressed(decoder, small, max_size, decoder_after, r),
        within_means(decoder.begun(), small, data.len()),
        data.len() <= max_size,
    ensures
        r == Ok::<Seq<u8>, Error>(data),
        in_step(encoder_after, decoder_after),
{
    let e = encoder.begun();
    let d = decoder.begun();
    let a = encoder_after;
    let h = d.fed.take(d.fed.len() - e.made.len());
    let t = d.made.take(d.made.len() - e.fed.len());
    let stream = d.fed + small + codec::trailer();
    assert(taken_in(e, data, a));
    assert(d.fed =~= h + e.made);
    assert(d.made =~= t + e.fed);
    assert(stream =~= h + a.made);
    assert(codec::inflated(d.window, stream) == Some((t + a.fed, true))) by {
        if h.len() == 0 {
            assert(h + a.made =~= a.made);
            assert(t + a.fed =~= a.fed);
        }
    }
    assert(t + a.fed =~= d.made + data);
    assert(r is Ok);
    let after = decoder_after;
    assert(after.made == d.made + data);
    assert(r->Ok_0 =~= after.made.skip(d.made.len() as int));
    assert(data =~= (d.made + data).skip(d.made.len() as int));
    if encoder.no_context_takeover {
        assert(after.begun().fed.take(0) =~= after.begun().fed);
        assert(after.begun().made.take(0) =~= after.begun().made);
    } else {
        assert(after.fed.skip(h.len() as int) =~= a.made);
        assert(after.fed.take(h.len() as int) =~= h);
        assert(after.made.skip(t.len() as int) =~= a.fed);
        assert(after.made.take(t.len() as int) =~= t);
    }
}

/// A message that is sent as it is leaves both sides in step.
pub proof fn law_uncompressed_message_keeps_in_step(
    encoder: EncoderView,
    data: Seq<u8>,
    encoder_after: EncoderView,
    decoder: DecoderView,
)
    requires
        in_step(encoder, decoder),
        compressed(encoder, data, encoder_after, Ok::<Option<Seq<u8>>, Error>(None)),
    ensures
        in_step(encoder_after, decoder),
{
    let d = decoder.begun();
    if !skipped(encoder, data) {
        assert(d.fed.skip(d.fed.len() as int) =~= Seq::<u8>::empty());
        assert(d.made.skip(d.made.len() as int) =~= Seq::<u8>::empty());
        assert(d.fed.take(d.fed.len() as int) =~= d.fed);
        assert(d.made.take(d.made.len() as int) =~= d.made);
    }
}

} // verus!
