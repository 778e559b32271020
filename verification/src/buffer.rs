//! Byte buffers of the `bytes` crate, with contracts over the bytes they hold.
//!
//! `Bytes` and `BytesMut` are opaque here: each has a name for its contents,
//! and the methods that the library calls are described over those names. An
//! allocation that the machine cannot serve is outside these contracts, as it
//! is for `Vec`.
use bytes::{Buf, Bytes, BytesMut};
use vstd::prelude::*;
use vstd::utf8::*;

verus! {

/// `bytes::Bytes`, an immutable byte buffer.
#[verifier::external_type_specification]
#[verifier::external_body]
pub struct ExBytes(Bytes);

/// `bytes::BytesMut`, a growable byte buffer.
#[verifier::external_type_specification]
#[verifier::external_body]
pub struct ExBytesMut(BytesMut);

/// The bytes that a `Bytes` holds, in order.
pub uninterp spec fn bytes_content(b: Bytes) -> Seq<u8>;

/// The bytes that a `BytesMut` holds, in order.
pub uninterp spec fn bytes_mut_content(b: BytesMut) -> Seq<u8>;

/// Writes the contents of a buffer as its view.
pub trait BufferView {
    /// The bytes held, in order.
    spec fn view(&self) -> Seq<u8>;
}

impl BufferView for Bytes {
    open spec fn view(&self) -> Seq<u8> {
        bytes_content(*self)
    }
}

impl BufferView for BytesMut {
    open spec fn view(&self) -> Seq<u8> {
        bytes_mut_content(*self)
    }
}

/// Whether a buffer of `len` bytes can exist: no allocation exceeds `isize::MAX` bytes.
pub open spec fn allocatable(len: nat) -> bool {
    len <= isize::MAX
}

/// `BytesMut::new`: an empty buffer.
pub assume_specification[ BytesMut::new ]() -> (b: BytesMut)
    ensures
        bytes_mut_content(b) == Seq::<u8>::empty(),
;

/// `BytesMut::with_capacity`: an empty buffer, whatever room it has.
pub assume_specification[ BytesMut::with_capacity ](capacity: usize) -> (b: BytesMut)
    requires
        allocatable(capacity as nat),
    ensures
        bytes_mut_content(b) == Seq::<u8>::empty(),
;

/// `BytesMut::len`: the number of bytes held.
pub assume_specification[ BytesMut::len ](b: &BytesMut) -> (n: usize)
    ensures
        n == bytes_mut_content(*b).len(),
;

/// `BytesMut::is_empty`: whether no byte is held.
pub assume_specification[ BytesMut::is_empty ](b: &BytesMut) -> (r: bool)
    ensures
        r == (bytes_mut_content(*b).len() == 0),
;

/// `BytesMut::clear`: drops every byte.
pub assume_specification[ BytesMut::clear ](b: &mut BytesMut)
    ensures
        bytes_mut_content(*final(b)) == Seq::<u8>::empty(),
;

/// `BytesMut::split_to`: takes the first `at` bytes out. It panics past the end.
pub assume_specification[ BytesMut::split_to ](b: &mut BytesMut, at: usize) -> (head: BytesMut)
    requires
        at <= bytes_mut_content(*old(b)).len(),
    ensures
        bytes_mut_content(head) == bytes_mut_content(*old(b)).take(at as int),
        bytes_mut_content(*final(b)) == bytes_mut_content(*old(b)).skip(at as int),
;

/// `BytesMut::split`: takes all bytes out.
pub assume_specification[ BytesMut::split ](b: &mut BytesMut) -> (all: BytesMut)
    ensures
        bytes_mut_content(all) == bytes_mut_content(*old(b)),
        bytes_mut_content(*final(b)) == Seq::<u8>::empty(),
;

/// `BytesMut::freeze`: the same bytes, immutable.
pub assume_specification[ BytesMut::freeze ](b: BytesMut) -> (r: Bytes)
    ensures
        bytes_content(r) == bytes_mut_content(b),
;

/// `BytesMut::extend_from_slice`: appends a slice. It panics where the sum of
/// the lengths exceeds what can be allocated.
pub assume_specification[ BytesMut::extend_from_slice ](b: &mut BytesMut, extend: &[u8])
    requires
        allocatable(bytes_mut_content(*old(b)).len() + extend@.len()),
    ensures
        bytes_mut_content(*final(b)) == bytes_mut_content(*old(b)) + extend@,
;

/// `Deref` of `BytesMut`: the bytes held as a slice.
pub assume_specification[ <BytesMut as core::ops::Deref>::deref ](b: &BytesMut) -> (s: &[u8])
    ensures
        s@ == bytes_mut_content(*b),
;

/// `DerefMut` of `BytesMut`: the bytes held as a slice that writes through.
pub assume_specification[ <BytesMut as core::ops::DerefMut>::deref_mut ](
    b: &mut BytesMut,
) -> (s: &mut [u8])
    ensures
        s@ == bytes_mut_content(*old(b)),
        bytes_mut_content(*final(b)) == final(s)@,
;

/// `Bytes::new`: an empty buffer.
pub assume_specification[ Bytes::new ]() -> (b: Bytes)
    ensures
        bytes_content(b) == Seq::<u8>::empty(),
;

/// `Bytes::len`: the number of bytes held.
pub assume_specification[ Bytes::len ](b: &Bytes) -> (n: usize)
    ensures
        n == bytes_content(*b).len(),
;

/// `Bytes::is_empty`: whether no byte is held.
pub assume_specification[ Bytes::is_empty ](b: &Bytes) -> (r: bool)
    ensures
        r == (bytes_content(*b).len() == 0),
;

/// `Bytes::copy_from_slice`: a buffer that holds a copy of a slice.
pub assume_specification[ Bytes::copy_from_slice ](data: &[u8]) -> (b: Bytes)
    ensures
        bytes_content(b) == data@,
;

/// `Clone` of `Bytes`: another handle on the same bytes.
pub assume_specification[ <Bytes as Clone>::clone ](b: &Bytes) -> (r: Bytes)
    ensures
        bytes_content(r) == bytes_content(*b),
;

/// `Deref` of `Bytes`: the bytes held as a slice.
pub assume_specification[ <Bytes as core::ops::Deref>::deref ](b: &Bytes) -> (s: &[u8])
    ensures
        s@ == bytes_content(*b),
;

/// `Buf::advance` of `BytesMut`: drops the first `cnt` bytes. It panics past the end.
#[verifier::external_body]
pub(crate) fn advance(buf: &mut BytesMut, cnt: usize)
    requires
        cnt <= old(buf)@.len(),
    ensures
        final(buf)@ == old(buf)@.skip(cnt as int),
{
    buf.advance(cnt)
}

/// `From<Vec<u8>>` of `Bytes`: the bytes of the vector.
#[verifier::external_body]
pub(crate) fn bytes_from_vec(v: Vec<u8>) -> (b: Bytes)
    ensures
        b@ == v@,
{
    Bytes::from(v)
}

/// `From<String>` of `Bytes`: the UTF-8 bytes of the string.
#[verifier::external_body]
pub(crate) fn bytes_from_string(s: String) -> (b: Bytes)
    ensures
        b@ == encode_utf8(s@),
{
    Bytes::from(s)
}

} // verus!
