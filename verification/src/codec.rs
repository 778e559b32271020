//! The DEFLATE streams of the `flate2` crate, with contracts over what has
//! gone into them and what has come out.
//!
//! A `Compress` or a `Decompress` is opaque here. Each has a name for the
//! bytes it has consumed and a name for the bytes it has produced since it was
//! made or last reset. What a compressed stream stands for has a name of its
//! own, which both directions speak of.
use flate2::{Compress, Compression, Decompress, FlushCompress, FlushDecompress, Status};
use vstd::prelude::*;

verus! {

/// `flate2::Compress`, a compressing stream.
#[verifier::external_type_specification]
#[verifier::external_body]
pub struct ExCompress(Compress);

/// `flate2::Decompress`, a decompressing stream.
#[verifier::external_type_specification]
#[verifier::external_body]
pub struct ExDecompress(Decompress);

/// The bytes that a compressor has consumed since it was made or last reset.
pub uninterp spec fn deflate_fed(c: Compress) -> Seq<u8>;

/// The bytes that a compressor has produced since it was made or last reset.
pub uninterp spec fn deflate_made(c: Compress) -> Seq<u8>;

/// The base-2 logarithm of the window that a compressor was made with.
pub uninterp spec fn deflate_window(c: Compress) -> nat;

/// The level that a compressor was made with.
pub uninterp spec fn deflate_level(c: Compress) -> nat;

/// Whether the last step of a compressor filled its output, so that the flush
/// may not be complete.
pub uninterp spec fn deflate_unflushed(c: Compress) -> bool;

/// The bytes that a decompressor has consumed since it was made or last reset.
pub uninterp spec fn inflate_fed(d: Decompress) -> Seq<u8>;

/// The bytes that a decompressor has produced since it was made or last reset.
pub uninterp spec fn inflate_made(d: Decompress) -> Seq<u8>;

/// The base-2 logarithm of the history that a decompressor is sure to keep.
pub uninterp spec fn inflate_window(d: Decompress) -> nat;

/// What a raw DEFLATE stream, or the beginning of one, stands for.
///
/// It is there where the stream is well formed so far and none of its
/// back-references reaches further than two to the power of `window` bytes.
/// It holds the text that the stream encodes, and whether the stream, without
/// a final block so far, ends directly behind an empty stored block. Bytes
/// behind a final block do not count.
pub uninterp spec fn inflated(window: nat, stream: Seq<u8>) -> Option<(Seq<u8>, bool)>;

/// The end of an empty stored block.
pub open spec fn trailer() -> Seq<u8> {
    seq![0x00u8, 0x00u8, 0xffu8, 0xffu8]
}

/// The longest slice that one step looks at.
pub const STEP_LIMIT: usize = 0xffff_ffff;

/// How many bytes a stream may have taken in or given out for another step.
/// The counters of a stream are 64 bits wide, and overflow beyond.
pub const COUNTER_LIMIT: u64 = 0xffff_ffff_0000_0000;

/// How a step of a stream ended.
#[derive(Debug, Clone, Copy, PartialEq, Eq, Structural)]
pub enum Flow {
    /// The step made progress.
    More,
    /// The step could make no progress.
    Stuck,
    /// The stream is complete.
    End,
}

/// Whether a step on slices of these lengths looks at the whole of both.
pub open spec fn step_fits(input: nat, output: nat) -> bool {
    input <= STEP_LIMIT && output <= STEP_LIMIT
}

/// Whether a step has moved a stream of bytes on by a beginning of `slice`.
pub open spec fn extends(before: Seq<u8>, after: Seq<u8>, slice: Seq<u8>) -> bool {
    &&& before.len() <= after.len() <= before.len() + slice.len()
    &&& after == before + slice.take(after.len() - before.len())
}

/// Whether a step has moved a stream of bytes on by the whole of `slice`.
pub open spec fn used_up(before: Seq<u8>, after: Seq<u8>, slice: Seq<u8>) -> bool {
    after.len() == before.len() + slice.len()
}

/// Whether a step of a compressor has used up the input and left room in the
/// output, where there was an input or a flush to complete.
pub open spec fn flush_complete(
    before: Compress,
    after: Compress,
    input: Seq<u8>,
    output: Seq<u8>,
) -> bool {
    &&& input.len() > 0 || deflate_unflushed(before)
    &&& used_up(deflate_fed(before), deflate_fed(after), input)
    &&& !used_up(deflate_made(before), deflate_made(after), output)
}

/// Whether the bytes added to a stream end with the end of an empty stored block.
pub open spec fn ends_with_trailer(before: Seq<u8>, after: Seq<u8>) -> bool {
    &&& before.len() + 4 <= after.len()
    &&& after.skip(after.len() - 4) == trailer()
}

/// Whether all that a compressor has produced stands for all that it has
/// consumed, for every history that is no shorter than its window.
pub open spec fn stands_for_all(c: Compress) -> bool {
    forall|window: nat|
        deflate_window(c) <= window <= 15 ==> #[trigger] inflated(window, deflate_made(c)) == Some(
            (deflate_fed(c), true),
        )
}

/// Whether the same holds of it behind any stream that ends with a complete
/// flush: a stream that was begun afresh refers to nothing before it.
pub open spec fn stands_behind_others(c: Compress) -> bool {
    forall|window: nat, earlier: Seq<u8>|
        deflate_window(c) <= window <= 15 && (inflated(window, earlier) matches Some((_, true)))
            ==> #[trigger] inflated(window, earlier + deflate_made(c)) == Some(
            ((inflated(window, earlier)->0).0 + deflate_fed(c), true),
        )
}

/// `Compress::new_with_window_bits`, without a zlib header: nothing has gone in
/// or come out. It panics on window sizes outside 9 to 15 bits, and its backend
/// on levels above nine.
#[verifier::external_body]
pub(crate) fn new_compress(level: u32, window_bits: u8) -> (c: Compress)
    requires
        level <= 9,
        9 <= window_bits <= 15,
    ensures
        deflate_fed(c) == Seq::<u8>::empty(),
        deflate_made(c) == Seq::<u8>::empty(),
        deflate_window(c) == window_bits,
        deflate_level(c) == level,
{
    Compress::new_with_window_bits(Compression::new(level), false, window_bits)
}

/// `Decompress::new_with_window_bits`, without a zlib header: nothing has gone
/// in or come out. It panics on window sizes outside 9 to 15 bits.
pub assume_specification[ Decompress::new_with_window_bits ](
    zlib_header: bool,
    window_bits: u8,
) -> (d: Decompress)
    requires
        !zlib_header,
        9 <= window_bits <= 15,
    ensures
        inflate_fed(d) == Seq::<u8>::empty(),
        inflate_made(d) == Seq::<u8>::empty(),
        inflate_window(d) == window_bits,
;

/// `Compress::reset`: as good as a new compressor of the same window and level.
pub assume_specification[ Compress::reset ](c: &mut Compress)
    ensures
        deflate_fed(*final(c)) == Seq::<u8>::empty(),
        deflate_made(*final(c)) == Seq::<u8>::empty(),
        deflate_window(*final(c)) == deflate_window(*old(c)),
        deflate_level(*final(c)) == deflate_level(*old(c)),
;

/// `Decompress::reset`: as good as a new decompressor. The backend then keeps
/// the largest history, whatever the decompressor was made with.
pub assume_specification[ Decompress::reset ](d: &mut Decompress, zlib_header: bool)
    requires
        !zlib_header,
    ensures
        inflate_fed(*final(d)) == Seq::<u8>::empty(),
        inflate_made(*final(d)) == Seq::<u8>::empty(),
        inflate_window(*final(d)) == 15,
;

/// `Compress::total_in`: the number of bytes consumed. The counter is 64 bits wide.
pub assume_specification[ Compress::total_in ](c: &Compress) -> (n: u64)
    ensures
        n == deflate_fed(*c).len(),
;

/// `Compress::total_out`: the number of bytes produced. The counter is 64 bits wide.
pub assume_specification[ Compress::total_out ](c: &Compress) -> (n: u64)
    ensures
        n == deflate_made(*c).len(),
;

/// `Decompress::total_in`: the number of bytes consumed. The counter is 64 bits wide.
pub assume_specification[ Decompress::total_in ](d: &Decompress) -> (n: u64)
    ensures
        n == inflate_fed(*d).len(),
;

/// `Decompress::total_out`: the number of bytes produced. The counter is 64 bits wide.
pub assume_specification[ Decompress::total_out ](d: &Decompress) -> (n: u64)
    ensures
        n == inflate_made(*d).len(),
;

/// `Compress::compress` with a sync flush.
///
/// It consumes a beginning of the input and writes a beginning of the output,
/// and stops only where the input is used up or the output is full. Where it
/// has used up the input and left room in the output, the flush is complete:
/// the last bytes written are the end of an empty stored block, and all that it
/// has produced stands for all that it has consumed, for every decompressor
/// whose history is no shorter than its own window, alone and behind any stream
/// that ends with a complete flush. That is so of an input that is not empty, and of an empty one behind a step that filled its output. A
/// stream that is never finished does not end, and the call does not fail.
#[verifier::external_body]
pub(crate) fn deflate_step(c: &mut Compress, input: &[u8], output: &mut [u8]) -> (r: Result<
    Flow,
    String,
>)
    requires
        step_fits(input@.len(), old(output)@.len()),
        deflate_fed(*old(c)).len() <= COUNTER_LIMIT,
        deflate_made(*old(c)).len() <= COUNTER_LIMIT,
    ensures
        final(output)@.len() == old(output)@.len(),
        deflate_window(*final(c)) == deflate_window(*old(c)),
        deflate_level(*final(c)) == deflate_level(*old(c)),
        r is Ok,
        r->Ok_0 != Flow::End,
        extends(deflate_fed(*old(c)), deflate_fed(*final(c)), input@),
        extends(deflate_made(*old(c)), deflate_made(*final(c)), final(output)@),
        used_up(deflate_fed(*old(c)), deflate_fed(*final(c)), input@) || used_up(
            deflate_made(*old(c)),
            deflate_made(*final(c)),
            final(output)@,
        ),
        final(output)@.len() > 0 && used_up(
            deflate_made(*old(c)),
            deflate_made(*final(c)),
            final(output)@,
        ) ==> deflate_unflushed(*final(c)),
        flush_complete(*old(c), *final(c), input@, final(output)@) ==> ends_with_trailer(
            deflate_made(*old(c)),
            deflate_made(*final(c)),
        ),
        flush_complete(*old(c), *final(c), input@, final(output)@) ==> stands_for_all(*final(c)),
        flush_complete(*old(c), *final(c), input@, final(output)@) ==> stands_behind_others(
            *final(c),
        ),
{
    match c.compress(input, output, FlushCompress::Sync) {
        Ok(Status::Ok) => Ok(Flow::More),
        Ok(Status::BufError) => Ok(Flow::Stuck),
        Ok(Status::StreamEnd) => Ok(Flow::End),
        Err(e) => Err(e.to_string()),
    }
}

/// `Decompress::decompress` with a sync flush.
///
/// It consumes a beginning of the input and writes a beginning of the output.
/// With slices that one step can look at, it stops only where the input is
/// used up, the output is full, the stream has ended or is in error; it is
/// stuck only where it has done nothing. Where all that it has been given,
/// with the input, stands for some text within its history, it does not fail.
/// It has then produced that text where the stream has ended, and where it has
/// used up the input and left room in the output or has come to the end of an
/// empty stored block. A stream without a final block does not end. Where it
/// says that the stream has ended, or has used up the input and left room, all
/// that it was given stands for what it has produced, within the largest history
/// that there is: the backend may take references that reach further than it
/// was made for, and fails on all else.
#[verifier::external_body]
pub(crate) fn inflate_step(d: &mut Decompress, input: &[u8], output: &mut [u8]) -> (r: Result<
    Flow,
    String,
>)
    requires
        inflate_fed(*old(d)).len() <= COUNTER_LIMIT,
        inflate_made(*old(d)).len() <= COUNTER_LIMIT,
    ensures
        final(output)@.len() == old(output)@.len(),
        inflate_window(*final(d)) == inflate_window(*old(d)),
        extends(inflate_fed(*old(d)), inflate_fed(*final(d)), input@),
        extends(inflate_made(*old(d)), inflate_made(*final(d)), final(output)@),
        r is Ok && r->Ok_0 == Flow::Stuck ==> inflate_fed(*final(d)) == inflate_fed(*old(d))
            && inflate_made(*final(d)) == inflate_made(*old(d)),
        step_fits(input@.len(), final(output)@.len()) && r is Ok && r->Ok_0 != Flow::End
            ==> used_up(inflate_fed(*old(d)), inflate_fed(*final(d)), input@) || used_up(
            inflate_made(*old(d)),
            inflate_made(*final(d)),
            final(output)@,
        ),
        inflated(inflate_window(*old(d)), inflate_fed(*old(d)) + input@) is Some ==> r is Ok,
        inflated(inflate_window(*old(d)), inflate_fed(*old(d)) + input@) matches Some((_, true))
            ==> r->Ok_0 != Flow::End,
        inflated(inflate_window(*old(d)), inflate_fed(*old(d)) + input@) matches Some(
            (text, flushed),
        ) ==> inflate_made(*final(d)).is_prefix_of(text) && ((r is Ok && r->Ok_0 == Flow::End) || (
        used_up(inflate_fed(*old(d)), inflate_fed(*final(d)), input@) && (flushed || !used_up(
            inflate_made(*old(d)),
            inflate_made(*final(d)),
            final(output)@,
        ))) ==> inflate_made(*final(d)) == text),
        r is Ok && (r->Ok_0 == Flow::End || (used_up(
            inflate_fed(*old(d)),
            inflate_fed(*final(d)),
            input@,
        ) && !used_up(inflate_made(*old(d)), inflate_made(*final(d)), final(output)@))) ==> (
        inflated(15, inflate_fed(*old(d)) + input@) matches Some((text, _)) && inflate_made(
            *final(d),
        ) == text),
{
    match d.decompress(input, output, FlushDecompress::Sync) {
        Ok(Status::Ok) => Ok(Flow::More),
        Ok(Status::BufError) => Ok(Flow::Stuck),
        Ok(Status::StreamEnd) => Ok(Flow::End),
        Err(e) => Err(e.to_string()),
    }
}

} // verus!
