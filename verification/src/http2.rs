//! The buffers of WebSocket streams over HTTP/2 (RFC 8441).
use crate::buffer;
use crate::buffer::{advance, BufferView};
use crate::octets::{copy_front, least, smaller};
use bytes::BytesMut;
use vstd::prelude::*;

verus! {

/// What a stream has received and not handed on.
#[derive(Debug)]
pub struct RecvBuffer {
    buf: BytesMut,
    eof: bool,
}

/// What a stream has received, as a mathematical value.
#[verifier::ext_equal]
pub struct RecvModel {
    /// Bytes that were received and not handed on
    pub unread: Seq<u8>,
    /// Whether the end of the stream was received
    pub eof: bool,
}

/// What a reader with room for `room` bytes gets of `bytes`, and what is left.
pub open spec fn cut(bytes: Seq<u8>, room: nat) -> (Seq<u8>, Seq<u8>) {
    let n = least(bytes.len() as int, room as int);
    (bytes.take(n), bytes.skip(n))
}

impl RecvBuffer {
    /// What was received.
    pub closed spec fn view(&self) -> RecvModel {
        RecvModel { unread: self.buf@, eof: self.eof }
    }

    /// A stream that has received nothing
    pub fn new() -> (r: Self)
        ensures
            r@ == (RecvModel { unread: Seq::empty(), eof: false }),
    {
        RecvBuffer { buf: BytesMut::with_capacity(crate::RECV_BUFFER_SIZE), eof: false }
    }

    /// Get the number of bytes that were received and not handed on
    pub fn len(&self) -> (r: usize)
        ensures
            r == self@.unread.len(),
    {
        self.buf.len()
    }

    /// Check if nothing is left to hand on
    pub fn is_empty(&self) -> (r: bool)
        ensures
            r == (self@.unread.len() == 0),
    {
        self.buf.is_empty()
    }

    /// Check if the end of the stream was received
    pub fn is_eof(&self) -> (r: bool)
        ensures
            r == self@.eof,
    {
        self.eof
    }

    /// Hand on what was received: so many bytes, none at the end of the stream.
    /// `None` means that more has to be received first.
    pub fn fill(&mut self, out: &mut [u8]) -> (r: Option<usize>)
        ensures
            old(self)@.unread.len() > 0 ==> ({
                let (given, left) = cut(old(self)@.unread, old(out)@.len());
                &&& r == Some(given.len() as usize)
                &&& final(out)@ == given + old(out)@.skip(given.len() as int)
                &&& final(self)@ == (RecvModel { unread: left, ..old(self)@ })
            }),
            old(self)@.unread.len() == 0 ==> final(self)@ == old(self)@ && final(out)@ == old(
                out,
            )@ && r == if old(self)@.eof {
                Some(0usize)
            } else {
                None
            },
    {
        if !self.buf.is_empty() {
            let n: usize = copy_front(out, &self.buf);
            advance(&mut self.buf, n);
            return Some(n);
        }
        if self.eof {
            Some(0)
        } else {
            None
        }
    }

    /// Hand on bytes that were just received, and keep those that do not fit
    pub fn receive(&mut self, data: &[u8], out: &mut [u8]) -> (r: usize)
        requires
            buffer::allocatable(old(self)@.unread.len() + data@.len()),
        ensures
            ({
                let (given, left) = cut(data@, old(out)@.len());
                &&& r == given.len()
                &&& final(out)@ == given + old(out)@.skip(given.len() as int)
                &&& final(self)@ == (RecvModel {
                    unread: old(self)@.unread + left,
                    ..old(self)@
                })
            }),
    {
        let n: usize = copy_front(out, data);
        let (_given, left) = data.split_at(n);
        self.buf.extend_from_slice(left);
        assert(left@ =~= data@.skip(n as int));
        n
    }

    /// Keep bytes that were received in several pieces
    pub fn append(&mut self, data: &[u8])
        requires
            buffer::allocatable(old(self)@.unread.len() + data@.len()),
        ensures
            final(self)@ == (RecvModel { unread: old(self)@.unread + data@, ..old(self)@ }),
    {
        self.buf.extend_from_slice(data);
    }

    /// Check if so many more bytes can be kept
    pub fn can_keep(&self, len: usize) -> (r: bool)
        ensures
            r == buffer::allocatable(self@.unread.len() + len as nat),
    {
        let limit: usize = isize::MAX as usize;
        self.buf.len() <= limit && len <= limit - self.buf.len()
    }

    /// The end of the stream was received
    pub fn finish(&mut self)
        ensures
            final(self)@ == (RecvModel { eof: true, ..old(self)@ }),
    {
        self.eof = true;
    }
}

/// What a reader gets of received bytes and what is kept are together what was
/// received, in order.
pub proof fn law_received_bytes_are_kept_in_order(bytes: Seq<u8>, room: nat)
    ensures
        cut(bytes, room).0 + cut(bytes, room).1 == bytes,
        cut(bytes, room).0.len() <= room,
        bytes.len() > 0 && room > 0 ==> cut(bytes, room).0.len() > 0,
{
    assert(cut(bytes, room).0 + cut(bytes, room).1 =~= bytes);
}

/// Whether a write waits for the peer to grant capacity, and for how many bytes.
#[derive(Debug, Clone, Copy, PartialEq, Eq, Structural)]
pub struct SendCredit {
    /// The bytes that a write waits for, 0 where none waits
    pub needed: usize,
}

impl SendCredit {
    /// No write waits
    pub fn new() -> (r: Self)
        ensures
            r.needed == 0,
    {
        SendCredit { needed: 0 }
    }

    /// How much capacity to reserve for a write of `len` bytes, if any, where
    /// this much is available
    pub fn reserve(&mut self, len: usize, available: usize) -> (r: Option<usize>)
        ensures
            old(self).needed > 0 || available == 0 ==> r == Some(len) && final(self).needed == len,
            old(self).needed == 0 && available > 0 ==> r is None && *final(self) == *old(self),
    {
        if self.needed > 0 || available == 0 {
            self.needed = len;
            Some(len)
        } else {
            None
        }
    }

    /// How many of `len` bytes to send where this much capacity was granted
    pub fn granted(&self, len: usize, capacity: usize) -> (r: usize)
        ensures
            r == least(capacity as int, len as int),
    {
        smaller(capacity, len)
    }

    /// The write has to wait
    pub fn wait(&mut self, len: usize)
        ensures
            final(self).needed == len,
    {
        self.needed = len;
    }

    /// The write is done
    pub fn sent(&mut self)
        ensures
            final(self).needed == 0,
    {
        self.needed = 0;
    }
}

} // verus!
