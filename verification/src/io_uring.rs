//! Buffers for io_uring I/O, and what is known of the kernel it needs.
//!
//! The pool does not register buffers with an io_uring runtime. Callers that
//! need fixed-buffer operations must perform that registration separately.
use crate::octets::{copy_front, least, smaller};
use crate::strings;
use crate::strings::{chars_of, same};
use crate::text;
use std::collections::VecDeque;
use vstd::prelude::*;

verus! {

// ---------------------------------------------------------------------------
// Buffers
// ---------------------------------------------------------------------------

/// A buffer from the registered pool
///
/// This buffer can be used for io_uring read and write operations.
/// When done, return it to the pool using `RegisteredBufferPool::release`.
#[derive(Debug)]
pub struct RegisteredBuffer {
    /// Index in the pool (for identification)
    index: usize,
    /// The actual buffer data
    data: Vec<u8>,
    /// Current length of valid data
    len: usize,
    /// Read position for consuming data
    pos: usize,
}

/// A buffer as a mathematical value.
#[verifier::ext_equal]
pub struct BufferModel {
    /// Index in the pool
    pub index: usize,
    /// All bytes, valid or not
    pub data: Seq<u8>,
    /// How many of them are valid
    pub len: nat,
    /// How many of those were read
    pub pos: nat,
}

impl BufferModel {
    /// The valid bytes lie within the buffer, and those that were read within
    /// the valid ones.
    pub open spec fn sound(self) -> bool {
        self.pos <= self.len <= self.data.len()
    }

    /// The bytes that can be read.
    pub open spec fn unread(self) -> Seq<u8>
        recommends
            self.sound(),
    {
        self.data.subrange(self.pos as int, self.len as int)
    }

    /// How many bytes can be read.
    pub open spec fn left(self) -> nat {
        if self.pos <= self.len {
            (self.len - self.pos) as nat
        } else {
            0
        }
    }
}

/// Copies the bytes of `from` over those of `to` that start at `at`.
fn copy_at(to: &mut Vec<u8>, at: usize, from: &[u8], n: usize)
    requires
        n <= from@.len(),
        at + n <= old(to)@.len(),
    ensures
        final(to)@ == old(to)@.take(at as int) + from@.take(n as int) + old(to)@.skip(at + n),
{
    let size: usize = to.len();
    let mut i: usize = 0;
    while i < n
        invariant
            i <= n,
            n <= from@.len(),
            at + n <= size == to@.len(),
            to@.len() == old(to)@.len(),
            to@ == old(to)@.take(at as int) + from@.take(i as int) + old(to)@.skip(at + i),
        decreases n - i,
    {
        to.set(at + i, from[i]);
        i = i + 1;
        assert(to@ =~= old(to)@.take(at as int) + from@.take(i as int) + old(to)@.skip(at + i));
    }
}

impl RegisteredBuffer {
    /// The buffer as a mathematical value.
    pub closed spec fn view(&self) -> BufferModel {
        BufferModel {
            index: self.index,
            data: self.data@,
            len: self.len as nat,
            pos: self.pos as nat,
        }
    }

    /// Create a new registered buffer
    pub fn new(index: usize, size: usize) -> (r: Self)
        requires
            size <= isize::MAX,
        ensures
            r@ == (BufferModel { index, data: Seq::new(size as nat, |i: int| 0u8), len: 0, pos: 0 }),
    {
        let r = RegisteredBuffer { index, data: vec![0u8; size], len: 0, pos: 0 };
        assert(r@.data =~= Seq::new(size as nat, |i: int| 0u8));
        r
    }

    /// Get the buffer index
    pub fn index(&self) -> (r: usize)
        ensures
            r == self@.index,
    {
        self.index
    }

    /// Get the buffer capacity
    pub fn capacity(&self) -> (r: usize)
        ensures
            r == self@.data.len(),
    {
        self.data.len()
    }

    /// Get the current length of valid data
    pub fn len(&self) -> (r: usize)
        ensures
            r == self@.len,
    {
        self.len
    }

    /// Get the read position
    pub fn pos(&self) -> (r: usize)
        ensures
            r == self@.pos,
    {
        self.pos
    }

    /// Check if the buffer is empty
    pub fn is_empty(&self) -> (r: bool)
        ensures
            r == (self@.left() == 0),
    {
        self.len == 0 || self.pos >= self.len
    }

    /// Get the remaining bytes to read
    pub fn remaining(&self) -> (r: usize)
        ensures
            r == self@.left(),
    {
        if self.pos <= self.len {
            self.len - self.pos
        } else {
            0
        }
    }

    /// Get a slice of the unread data
    pub fn as_slice(&self) -> (r: &[u8])
        requires
            self@.sound(),
        ensures
            r@ == self@.unread(),
    {
        let (valid, _spare) = self.data.as_slice().split_at(self.len);
        let (_read, unread) = valid.split_at(self.pos);
        assert(unread@ =~= self@.unread());
        unread
    }

    /// Get a mutable slice for writing
    pub fn as_mut_slice(&mut self) -> (r: &mut [u8])
        ensures
            r@ == old(self)@.data,
            final(self)@ == (BufferModel { data: final(r)@, ..old(self)@ }),
    {
        self.data.as_mut_slice()
    }

    /// Get the spare capacity for writing
    pub fn spare_capacity(&self) -> (r: usize)
        requires
            self@.len <= self@.data.len(),
        ensures
            r == self@.data.len() - self@.len,
    {
        self.data.len() - self.len
    }

    /// Get a mutable slice of spare capacity
    pub fn spare_capacity_mut(&mut self) -> (r: &mut [u8])
        requires
            old(self)@.len <= old(self)@.data.len(),
        ensures
            r@ == old(self)@.data.skip(old(self)@.len as int),
            final(self)@ == (BufferModel {
                data: old(self)@.data.take(old(self)@.len as int) + final(r)@,
                ..old(self)@
            }),
    {
        let at: usize = self.len;
        self.data.as_mut_slice().split_at_mut(at).1
    }

    /// Set the length of valid data (after a read operation)
    pub fn set_len(&mut self, len: usize)
        requires
            len <= old(self)@.data.len(),
        ensures
            final(self)@ == (BufferModel { len: len as nat, ..old(self)@ }),
    {
        self.len = len;
    }

    /// Add to the length (after appending data)
    pub fn add_len(&mut self, additional: usize)
        requires
            old(self)@.len + additional <= usize::MAX,
        ensures
            final(self)@ == (BufferModel {
                len: least(
                    old(self)@.len + additional,
                    old(self)@.data.len() as int,
                ) as nat,
                ..old(self)@
            }),
    {
        self.len = smaller(self.len + additional, self.data.len());
    }

    /// Advance the read position
    pub fn advance(&mut self, count: usize)
        requires
            old(self)@.pos + count <= usize::MAX,
        ensures
            final(self)@ == (BufferModel {
                pos: least(old(self)@.pos + count, old(self)@.len as int) as nat,
                ..old(self)@
            }),
    {
        self.pos = smaller(self.pos + count, self.len);
    }

    /// Clear the buffer (reset length and position)
    pub fn clear(&mut self)
        ensures
            final(self)@ == (BufferModel { len: 0, pos: 0, ..old(self)@ }),
    {
        self.len = 0;
        self.pos = 0;
    }

    /// Compact the buffer (move unread data to the beginning)
    pub fn compact(&mut self)
        requires
            old(self)@.len <= old(self)@.data.len(),
        ensures
            final(self)@ == compacted(old(self)@),
    {
        if self.pos > 0 && self.pos < self.len {
            let from: usize = self.pos;
            let n: usize = self.len - self.pos;
            let mut i: usize = 0;
            while i < n
                invariant
                    0 < from,
                    from + n == self.len <= self.data@.len(),
                    i <= n,
                    self.pos == from,
                    self.index == old(self).index,
                    self.len == old(self).len,
                    self.data@.len() == old(self).data@.len(),
                    forall|j: int| 0 <= j < i ==> self.data@[j] == old(self).data@[from + j],
                    forall|j: int|
                        i <= j < self.data@.len() ==> self.data@[j] == old(self).data@[j],
                decreases n - i,
            {
                let byte: u8 = self.data[from + i];
                self.data.set(i, byte);
                i = i + 1;
            }
            self.len = n;
            self.pos = 0;
            assert(self@.data =~= compacted(old(self)@).data);
        } else if self.pos >= self.len {
            self.clear();
        }
    }

    /// Write data to the buffer
    ///
    /// Returns the number of bytes written.
    pub fn write(&mut self, data: &[u8]) -> (r: usize)
        requires
            old(self)@.len <= old(self)@.data.len(),
        ensures
            r == least(data@.len() as int, old(self)@.data.len() - old(self)@.len),
            final(self)@ == written(old(self)@, data@.take(r as int)),
    {
        let size: usize = self.data.len();
        let to_write: usize = smaller(data.len(), size - self.len);
        copy_at(&mut self.data, self.len, data, to_write);
        self.len = self.len + to_write;
        to_write
    }

    /// Read data from the buffer
    ///
    /// Returns the number of bytes read.
    pub fn read(&mut self, buf: &mut [u8]) -> (r: usize)
        requires
            old(self)@.pos <= old(self)@.data.len(),
            old(self)@.len <= old(self)@.data.len(),
        ensures
            r == least(old(buf)@.len() as int, old(self)@.left() as int),
            final(buf)@ == old(self)@.data.subrange(
                old(self)@.pos as int,
                old(self)@.pos + r,
            ) + old(buf)@.skip(r as int),
            final(self)@ == (BufferModel { pos: old(self)@.pos + r as nat, ..old(self)@ }),
    {
        let left: usize = self.remaining();
        let (_read, rest) = self.data.as_slice().split_at(self.pos);
        let (unread, _spare) = rest.split_at(left);
        let to_read: usize = copy_front(buf, unread);
        assert(unread@.take(to_read as int) =~= self.data@.subrange(
            self.pos as int,
            self.pos + to_read,
        ));
        self.pos = self.pos + to_read;
        to_read
    }

    /// Get the underlying Vec for io_uring operations
    ///
    /// The caller must ensure proper synchronization with io_uring operations.
    pub fn into_inner(self) -> (r: Vec<u8>)
        ensures
            r@ == self@.data,
    {
        self.data
    }

    /// Create from an existing Vec (for io_uring completion)
    ///
    /// `len` is the number of valid bytes in the buffer.
    pub fn from_vec(index: usize, data: Vec<u8>, len: usize) -> (r: Self)
        ensures
            r@ == (BufferModel { index, data: data@, len: len as nat, pos: 0 }),
    {
        RegisteredBuffer { index, data, len, pos: 0 }
    }
}

/// The buffer with its unread data at the beginning. What lies behind them is
/// what was there before.
pub open spec fn compacted(b: BufferModel) -> BufferModel {
    if b.pos >= b.len {
        BufferModel { len: 0, pos: 0, ..b }
    } else if b.pos == 0 {
        b
    } else {
        BufferModel {
            data: b.unread() + b.data.skip(b.left() as int),
            len: b.left(),
            pos: 0,
            ..b
        }
    }
}

/// The buffer with bytes appended to the valid ones.
pub open spec fn written(b: BufferModel, bytes: Seq<u8>) -> BufferModel {
    BufferModel {
        data: b.data.take(b.len as int) + bytes + b.data.skip((b.len + bytes.len()) as int),
        len: b.len + bytes.len(),
        ..b
    }
}

/// What is written comes out behind what was there, in order.
pub proof fn law_written_bytes_are_read_back(b: BufferModel, bytes: Seq<u8>)
    requires
        b.sound(),
        b.len + bytes.len() <= b.data.len(),
    ensures
        written(b, bytes).sound(),
        written(b, bytes).unread() == b.unread() + bytes,
{
    assert(written(b, bytes).unread() =~= b.unread() + bytes);
}

/// Compacting keeps the unread data and makes room for the bytes that were read.
pub proof fn law_compacting_keeps_unread_data(b: BufferModel)
    requires
        b.sound(),
    ensures
        compacted(b).sound(),
        compacted(b).unread() == b.unread(),
        compacted(b).pos == 0,
        compacted(b).data.len() == b.data.len(),
        compacted(b).data.len() - compacted(b).len == b.data.len() - b.len + b.pos,
{
    assert(compacted(b).unread() =~= b.unread());
}

// ---------------------------------------------------------------------------
// The pool
// ---------------------------------------------------------------------------

/// A pool of reusable owned buffers for io_uring operations
///
/// The pool only manages allocation and reuse. Its buffers are not registered
/// with the kernel by this type.
#[derive(Debug)]
pub struct RegisteredBufferPool {
    /// Free buffers available for use
    free_list: VecDeque<RegisteredBuffer>,
    /// Size of each buffer
    buffer_size: usize,
    /// Maximum number of buffers in the pool
    max_buffers: usize,
    /// Total number of allocated buffers
    allocated_count: usize,
}

/// A pool as a mathematical value.
#[verifier::ext_equal]
pub struct PoolModel {
    /// The free buffers, the one that is handed out next first
    pub free: Seq<BufferModel>,
    /// Size of each new buffer
    pub buffer_size: usize,
    /// Maximum number of buffers in the pool
    pub max_buffers: usize,
    /// How many buffers were made
    pub allocated: nat,
}

/// The buffers as mathematical values.
pub open spec fn buffer_models(s: Seq<RegisteredBuffer>) -> Seq<BufferModel> {
    s.map_values(|b: RegisteredBuffer| b@)
}

/// A new buffer.
pub open spec fn new_buffer(index: int, size: usize) -> BufferModel {
    BufferModel {
        index: index as usize,
        data: Seq::new(size as nat, |i: int| 0u8),
        len: 0,
        pos: 0,
    }
}

impl RegisteredBufferPool {
    /// The pool as a mathematical value.
    pub closed spec fn view(&self) -> PoolModel {
        PoolModel {
            free: buffer_models(self.free_list@),
            buffer_size: self.buffer_size,
            max_buffers: self.max_buffers,
            allocated: self.allocated_count as nat,
        }
    }

    /// The pool makes no more buffers than its maximum.
    pub closed spec fn wf(&self) -> bool {
        &&& self.buffer_size <= isize::MAX
        &&& self.allocated_count <= self.max_buffers
    }

    /// Create a new buffer pool
    ///
    /// It holds `count` buffers of `buffer_size` bytes.
    pub fn new(count: usize, buffer_size: usize) -> (r: Self)
        requires
            buffer_size <= isize::MAX,
        ensures
            r.wf(),
            r@ == (PoolModel {
                free: Seq::new(count as nat, |i: int| new_buffer(i, buffer_size)),
                buffer_size,
                max_buffers: count,
                allocated: count as nat,
            }),
    {
        let mut free_list: VecDeque<RegisteredBuffer> = VecDeque::new();
        let mut index: usize = 0;
        while index < count
            invariant
                index <= count,
                buffer_size <= isize::MAX,
                buffer_models(free_list@) == Seq::new(
                    index as nat,
                    |i: int| new_buffer(i, buffer_size),
                ),
            decreases count - index,
        {
            let ghost before = free_list@;
            let buf = RegisteredBuffer::new(index, buffer_size);
            free_list.push_back(buf);
            index = index + 1;
            assert(buffer_models(free_list@) =~= buffer_models(before).push(buf@));
            assert(buffer_models(free_list@) =~= Seq::new(
                index as nat,
                |i: int| new_buffer(i, buffer_size),
            ));
        }
        RegisteredBufferPool {
            free_list,
            buffer_size,
            max_buffers: count,
            allocated_count: count,
        }
    }

    /// Acquire a buffer from the pool
    ///
    /// Returns `None` if no buffers are available.
    pub fn acquire(&mut self) -> (r: Option<RegisteredBuffer>)
        requires
            old(self).wf(),
        ensures
            final(self).wf(),
            old(self)@.free.len() == 0 ==> r is None && final(self)@ == old(self)@,
            old(self)@.free.len() > 0 ==> r is Some && r->0@ == old(self)@.free[0] && final(self)@
                == (PoolModel { free: old(self)@.free.drop_first(), ..old(self)@ }),
    {
        let ghost before = self.free_list@;
        let r = self.free_list.pop_front();
        proof {
            if before.len() > 0 {
                assert(buffer_models(self.free_list@) =~= buffer_models(before).drop_first());
            } else {
                assert(buffer_models(self.free_list@) =~= buffer_models(before));
            }
        }
        r
    }

    /// Try to acquire a buffer, allocating a new one if the pool is empty
    ///
    /// This will allocate a new buffer if the pool is empty and we haven't
    /// reached the maximum buffer count.
    pub fn acquire_or_alloc(&mut self) -> (r: Option<RegisteredBuffer>)
        requires
            old(self).wf(),
        ensures
            final(self).wf(),
            old(self)@.free.len() > 0 ==> r is Some && r->0@ == old(self)@.free[0] && final(self)@
                == (PoolModel { free: old(self)@.free.drop_first(), ..old(self)@ }),
            old(self)@.free.len() == 0 && old(self)@.allocated < old(self)@.max_buffers
                ==> r is Some && r->0@ == new_buffer(
                old(self)@.allocated as int,
                old(self)@.buffer_size,
            ) && final(self)@ == (PoolModel { allocated: old(self)@.allocated + 1, ..old(self)@ }),
            old(self)@.free.len() == 0 && old(self)@.allocated >= old(self)@.max_buffers
                ==> r is None && final(self)@ == old(self)@,
    {
        if let Some(buf) = self.acquire() {
            return Some(buf);
        }
        // Try to allocate a new buffer

        if self.allocated_count < self.max_buffers {
            let buf = RegisteredBuffer::new(self.allocated_count, self.buffer_size);
            self.allocated_count = self.allocated_count + 1;
            return Some(buf);
        }
        None
    }

    /// Release a buffer back to the pool
    pub fn release(&mut self, buf: RegisteredBuffer)
        requires
            old(self).wf(),
        ensures
            final(self).wf(),
            final(self)@ == (PoolModel {
                free: old(self)@.free.push(BufferModel { len: 0, pos: 0, ..buf@ }),
                ..old(self)@
            }),
    {
        let mut buf = buf;
        buf.clear();
        let ghost before = self.free_list@;
        let ghost cleared = buf@;
        self.free_list.push_back(buf);
        assert(buffer_models(self.free_list@) =~= buffer_models(before).push(cleared));
    }

    /// Get the number of available buffers
    pub fn available(&self) -> (r: usize)
        ensures
            r == self@.free.len(),
    {
        self.free_list.len()
    }

    /// Get the buffer size
    pub fn buffer_size(&self) -> (r: usize)
        ensures
            r == self@.buffer_size,
    {
        self.buffer_size
    }

    /// Get the maximum number of buffers
    pub fn max_buffers(&self) -> (r: usize)
        ensures
            r == self@.max_buffers,
    {
        self.max_buffers
    }

    /// Check if the pool is empty
    pub fn is_empty(&self) -> (r: bool)
        ensures
            r == (self@.free.len() == 0),
    {
        self.free_list.len() == 0
    }
}

/// A pool hands its buffers out in the order in which they came back, cleared.
pub proof fn law_pool_reuses_in_order(p: PoolModel, buf: BufferModel)
    ensures
        p.free.push(BufferModel { len: 0, pos: 0, ..buf }).len() == p.free.len() + 1,
        p.free.len() > 0 ==> p.free.push(BufferModel { len: 0, pos: 0, ..buf })[0] == p.free[0],
        p.free.push(BufferModel { len: 0, pos: 0, ..buf }).last().left() == 0,
        p.free.push(BufferModel { len: 0, pos: 0, ..buf }).last().data == buf.data,
{
}

// ---------------------------------------------------------------------------
// Owned completion buffers behind borrowed ones
// ---------------------------------------------------------------------------

/// The size of the buffers that a stream reads into and writes from.
pub const IO_BUFFER_SIZE: usize = 65536;

/// What a stream that owns its read buffer does to fill a borrowed one.
#[derive(Debug, Clone, Copy, PartialEq, Eq, Structural)]
pub enum BridgeStep {
    /// This many bytes were copied, none at the end of the stream
    Copied(usize),
    /// Read into the owned buffer first
    Read,
}

/// The bytes that a borrowed buffer with this much room gets, and what is left.
pub open spec fn filled(m: BridgeModel, room: nat) -> (Seq<u8>, BridgeModel) {
    let n = least(room as int, m.unread.len() as int);
    (m.unread.take(n), BridgeModel { unread: m.unread.skip(n), ..m })
}

/// The read half of a stream that owns its buffers.
#[derive(Debug)]
pub struct ReadBridge {
    /// Buffer for read data, unless a read is under way
    buffer: Option<Vec<u8>>,
    /// Amount of valid data in buffer
    data_len: usize,
    /// Current read position
    read_pos: usize,
    /// EOF is permanent for the socket; do not resubmit completed reads.
    eof: bool,
}

/// The read half as a mathematical value.
#[verifier::ext_equal]
pub struct BridgeModel {
    /// Bytes that were read and not handed on
    pub unread: Seq<u8>,
    /// Whether the stream has ended
    pub eof: bool,
    /// Whether the buffer is there, and no read under way
    pub idle: bool,
    /// The length of the buffer, nothing while a read is under way
    pub size: nat,
}

impl ReadBridge {
    /// The read half as a mathematical value.
    pub closed spec fn view(&self) -> BridgeModel {
        BridgeModel {
            unread: match self.buffer {
                Some(buffer) => buffer@.subrange(self.read_pos as int, self.data_len as int),
                None => Seq::empty(),
            },
            eof: self.eof,
            idle: self.buffer is Some,
            size: match self.buffer {
                Some(buffer) => buffer@.len(),
                None => 0,
            },
        }
    }

    /// The positions lie within the buffer.
    pub closed spec fn wf(&self) -> bool {
        match self.buffer {
            Some(buffer) => self.read_pos <= self.data_len <= buffer@.len(),
            None => self.read_pos == self.data_len,
        }
    }

    /// A stream from which nothing was read
    pub fn new() -> (r: Self)
        ensures
            r.wf(),
            r@ == (BridgeModel {
                unread: Seq::empty(),
                eof: false,
                idle: true,
                size: IO_BUFFER_SIZE as nat,
            }),
    {
        let r = ReadBridge {
            buffer: Some(vec![0u8; IO_BUFFER_SIZE]),
            data_len: 0,
            read_pos: 0,
            eof: false,
        };
        assert(r@.unread =~= Seq::<u8>::empty());
        r
    }

    /// Check if there's buffered data available for reading
    pub fn has_buffered_data(&self) -> (r: bool)
        requires
            self.wf(),
        ensures
            r == (self@.unread.len() > 0),
    {
        self.read_pos < self.data_len
    }

    /// Check if the stream has ended
    pub fn is_eof(&self) -> (r: bool)
        ensures
            r == self@.eof,
    {
        self.eof
    }

    /// Check if no read is under way
    pub fn is_idle(&self) -> (r: bool)
        ensures
            r == self@.idle,
    {
        self.buffer.is_some()
    }

    /// Get buffered data if available
    pub fn buffered_data(&self) -> (r: &[u8])
        requires
            self.wf(),
        ensures
            r@ == self@.unread,
    {
        match &self.buffer {
            Some(buffer) => {
                let (valid, _spare) = buffer.as_slice().split_at(self.data_len);
                let (_read, unread) = valid.split_at(self.read_pos);
                assert(unread@ =~= self@.unread);
                unread
            },
            None => {
                let none: &[u8] = &[];
                assert(none@ =~= self@.unread);
                none
            },
        }
    }

    /// Consume buffered data
    pub fn consume(&mut self, amt: usize)
        requires
            old(self).wf(),
        ensures
            final(self).wf(),
            final(self)@ == (BridgeModel {
                unread: old(self)@.unread.skip(
                    least(amt as int, old(self)@.unread.len() as int),
                ),
                ..old(self)@
            }),
    {
        let n: usize = smaller(amt, self.data_len - self.read_pos);
        self.read_pos = self.read_pos + n;
        assert(self@.unread =~= old(self)@.unread.skip(n as int));
    }

    /// Fill a borrowed buffer from what was read
    ///
    /// Where nothing is left, the caller reads into the buffer that
    /// [`ReadBridge::take_buffer`] gives, unless a read is under way already,
    /// and reports with [`ReadBridge::completed`].
    pub fn fill(&mut self, out: &mut [u8]) -> (r: BridgeStep)
        requires
            old(self).wf(),
        ensures
            final(self).wf(),
            final(out)@.len() == old(out)@.len(),
            old(out)@.len() == 0 || old(self)@.eof ==> r == BridgeStep::Copied(0) && final(self)@
                == old(self)@ && final(out)@ == old(out)@,
            old(out)@.len() > 0 && !old(self)@.eof && old(self)@.unread.len() == 0 ==> r
                == BridgeStep::Read && final(self)@ == old(self)@ && final(out)@ == old(out)@,
            old(out)@.len() > 0 && !old(self)@.eof && old(self)@.unread.len() > 0 ==> ({
                let (bytes, left) = filled(old(self)@, old(out)@.len());
                &&& r == BridgeStep::Copied(bytes.len() as usize)
                &&& final(out)@ == bytes + old(out)@.skip(bytes.len() as int)
                &&& final(self)@ == left
            }),
    {
        if out.len() == 0 || self.eof {
            return BridgeStep::Copied(0);
        }
        if self.read_pos >= self.data_len {
            return BridgeStep::Read;
        }
        let n: usize = copy_front(out, self.buffered_data());
        self.consume(n);
        BridgeStep::Copied(n)
    }

    /// Take the buffer, to read into it
    pub fn take_buffer(&mut self) -> (r: Option<Vec<u8>>)
        requires
            old(self).wf(),
            old(self)@.unread.len() == 0,
        ensures
            final(self).wf(),
            r is Some == old(self)@.idle,
            r matches Some(buffer) ==> buffer@.len() == old(self)@.size,
            final(self)@ == (BridgeModel { idle: false, size: 0, ..old(self)@ }),
    {
        self.read_pos = 0;
        self.data_len = 0;
        let r = self.buffer.take();
        assert(self@.unread =~= old(self)@.unread);
        r
    }

    /// Report a read: `n` bytes were read, or it failed
    pub fn completed(&mut self, buffer: Vec<u8>, n: Option<usize>)
        requires
            old(self).wf(),
            !old(self)@.idle,
            n matches Some(k) ==> k <= buffer@.len(),
        ensures
            final(self).wf(),
            final(self)@ == (BridgeModel {
                unread: match n {
                    Some(k) => buffer@.take(k as int),
                    None => Seq::empty(),
                },
                eof: old(self)@.eof || n == Some(0usize),
                idle: true,
                size: buffer@.len(),
            }),
    {
        self.read_pos = 0;
        self.data_len = 0;
        match n {
            Some(k) => {
                if k == 0 {
                    self.eof = true;
                }
                self.data_len = k;
            },
            None => {},
        }
        let ghost read = buffer@;
        self.buffer = Some(buffer);
        proof {
            match n {
                Some(k) => {
                    assert(self@.unread =~= read.take(k as int));
                },
                None => {
                    assert(self@.unread =~= Seq::<u8>::empty());
                },
            }
        }
    }
}

/// The write half of a stream that owns its buffers.
#[derive(Debug)]
pub struct WriteBridge {
    /// Data accepted and waiting to be flushed, unless a write is under way
    buffer: Option<Vec<u8>>,
}

impl WriteBridge {
    /// The bytes that wait, unless a write is under way.
    pub closed spec fn view(&self) -> Option<Seq<u8>> {
        match self.buffer {
            Some(buffer) => Some(buffer@),
            None => None,
        }
    }

    /// A stream to which nothing was written
    pub fn new() -> (r: Self)
        ensures
            r@ == Some(Seq::<u8>::empty()),
    {
        WriteBridge { buffer: Some(Vec::with_capacity(IO_BUFFER_SIZE)) }
    }

    /// Check if a write is under way
    pub fn is_writing(&self) -> (r: bool)
        ensures
            r == (self@ is None),
    {
        self.buffer.is_none()
    }

    /// Check if nothing more can be accepted before a flush
    pub fn is_full(&self) -> (r: bool)
        ensures
            r == (self@ is Some && self@->0.len() >= IO_BUFFER_SIZE),
    {
        match &self.buffer {
            Some(buffer) => buffer.len() >= IO_BUFFER_SIZE,
            None => false,
        }
    }

    /// Accept as many bytes as there is room for
    pub fn accept(&mut self, data: &[u8]) -> (r: usize)
        requires
            old(self)@ matches Some(waiting) && waiting.len() <= IO_BUFFER_SIZE,
        ensures
            r == least(data@.len() as int, IO_BUFFER_SIZE - old(self)@->0.len()),
            final(self)@ == Some(old(self)@->0 + data@.take(r as int)),
    {
        let mut n: usize = 0;
        if let Some(buffer) = &mut self.buffer {
            n = smaller(data.len(), IO_BUFFER_SIZE - buffer.len());
            let (head, _rest) = data.split_at(n);
            buffer.extend_from_slice(head);
            assert(head@ =~= data@.take(n as int));
        }
        n
    }

    /// Take what waits, to write it; nothing where nothing waits or a write is
    /// under way
    pub fn take_waiting(&mut self) -> (r: Option<Vec<u8>>)
        ensures
            old(self)@ matches Some(waiting) && waiting.len() > 0 ==> r is Some && r->0@
                == old(self)@->0 && final(self)@ is None,
            !(old(self)@ matches Some(waiting) && waiting.len() > 0) ==> r is None && final(self)@
                == old(self)@,
    {
        let waits = match &self.buffer {
            Some(buffer) => buffer.len() > 0,
            None => false,
        };
        if waits {
            self.buffer.take()
        } else {
            None
        }
    }

    /// Report that a write has ended
    pub fn completed(&mut self, buffer: Vec<u8>)
        ensures
            final(self)@ == Some(Seq::<u8>::empty()),
    {
        let mut buffer = buffer;
        buffer.clear();
        self.buffer = Some(buffer);
    }
}

/// Bytes come out of a read half in the order in which they were read, whatever
/// the sizes of the borrowed buffers.
pub proof fn law_fills_keep_order(m: BridgeModel, first: nat, second: nat)
    ensures
        filled(m, first).0 + filled(filled(m, first).1, second).0 == filled(m, first + second).0,
        filled(filled(m, first).1, second).1 == filled(m, first + second).1,
{
    let once = filled(m, first).1;
    let twice = filled(once, second).1;
    assert(filled(m, first).0 + filled(once, second).0 =~= filled(m, first + second).0);
    assert(twice.unread =~= filled(m, first + second).1.unread);
}

// ---------------------------------------------------------------------------
// The kernel
// ---------------------------------------------------------------------------

/// How many characters come before the first blank.
pub open spec fn word_len(s: Seq<char>) -> nat
    decreases s.len(),
{
    if s.len() == 0 || strings::is_space(s[0]) {
        0
    } else {
        1 + word_len(s.drop_first())
    }
}

/// The word of a text with this number, counted from 0, where words are
/// separated by blanks.
pub open spec fn nth_word(s: Seq<char>, n: nat) -> Option<Seq<char>>
    decreases n,
{
    let t = strings::trim_front(s, |c: char| strings::is_space(c));
    if t.len() == 0 {
        None
    } else if n == 0 {
        Some(t.take(word_len(t) as int))
    } else {
        nth_word(t.skip(word_len(t) as int), (n - 1) as nat)
    }
}

/// The number below 2 to the power of 32 that a text stands for.
pub open spec fn u32_of(s: Seq<char>) -> Option<u32> {
    match text::number(s, u32::MAX as nat) {
        Some(n) => Some(n as u32),
        None => None,
    }
}

/// How many digits a text begins with.
pub open spec fn digits_len(s: Seq<char>) -> nat
    decreases s.len(),
{
    if s.len() == 0 || !text::is_digit(s[0]) {
        0
    } else {
        1 + digits_len(s.drop_first())
    }
}

/// The digits that a text begins with.
pub open spec fn leading_digits(s: Seq<char>) -> Seq<char> {
    s.take(digits_len(s) as int)
}

/// The version in the line that the kernel gives of itself, the third word of
/// which is a version such as `6.8.0-45-generic`. A patch level that is missing
/// or no number counts as 0.
pub open spec fn version_of(text: Seq<char>) -> Option<(u32, u32, u32)> {
    match nth_word(text, 2) {
        None => None,
        Some(word) => {
            let parts = strings::split_on(word, '.');
            if parts.len() < 2 {
                None
            } else {
                match (u32_of(parts[0]), u32_of(leading_digits(parts[1]))) {
                    (Some(major), Some(minor)) => Some(
                        (
                            major,
                            minor,
                            if parts.len() < 3 {
                                0
                            } else {
                                match u32_of(leading_digits(parts[2])) {
                                    Some(patch) => patch,
                                    None => 0,
                                }
                            },
                        ),
                    ),
                    _ => None,
                }
            }
        },
    }
}

/// Whether a kernel has what io_uring needs: version 5.10 or higher.
pub open spec fn recommended(version: Option<(u32, u32, u32)>) -> bool {
    version matches Some((major, minor, _)) && (major > 5 || (major == 5 && minor >= 10))
}

proof fn lemma_trim_front_skip(s: Seq<char>, from: int)
    requires
        0 <= from <= s.len(),
        forall|i: int| 0 <= i < from ==> strings::is_space(#[trigger] s[i]),
        from < s.len() ==> !strings::is_space(s[from]),
    ensures
        strings::trim_front(s, |c: char| strings::is_space(c)) == s.skip(from),
    decreases from,
{
    if from == 0 {
        assert(s.skip(0) =~= s);
    } else {
        let t = s.drop_first();
        assert forall|i: int| 0 <= i < from - 1 implies strings::is_space(#[trigger] t[i]) by {
            assert(t[i] == s[i + 1]);
        }
        lemma_trim_front_skip(t, from - 1);
        assert(t.skip(from - 1) =~= s.skip(from));
    }
}

proof fn lemma_word_len(s: Seq<char>, n: int)
    requires
        0 <= n <= s.len(),
        forall|i: int| 0 <= i < n ==> !strings::is_space(#[trigger] s[i]),
        n < s.len() ==> strings::is_space(s[n]),
    ensures
        word_len(s) == n,
    decreases n,
{
    if n > 0 {
        let t = s.drop_first();
        assert forall|i: int| 0 <= i < n - 1 implies !strings::is_space(#[trigger] t[i]) by {
            assert(t[i] == s[i + 1]);
        }
        lemma_word_len(t, n - 1);
    }
}

proof fn lemma_digits_len(s: Seq<char>, n: int)
    requires
        0 <= n <= s.len(),
        forall|i: int| 0 <= i < n ==> text::is_digit(#[trigger] s[i]),
        n < s.len() ==> !text::is_digit(s[n]),
    ensures
        digits_len(s) == n,
    decreases n,
{
    if n > 0 {
        let t = s.drop_first();
        assert forall|i: int| 0 <= i < n - 1 implies text::is_digit(#[trigger] t[i]) by {
            assert(t[i] == s[i + 1]);
        }
        lemma_digits_len(t, n - 1);
    }
}

fn find_word<'a>(s: &'a str, n: usize) -> (r: Option<&'a str>)
    ensures
        match r {
            Some(word) => nth_word(s@, n as nat) == Some(word@),
            None => nth_word(s@, n as nat) is None,
        },
{
    let chars = chars_of(s);
    let mut i: usize = 0;
    let mut left: usize = n;
    assert(s@.skip(0) =~= s@);
    loop
        invariant
            chars@ == s@,
            i <= chars@.len(),
            left <= n,
            nth_word(s@, n as nat) == nth_word(s@.skip(i as int), left as nat),
        decreases left,
    {
        let ghost rest = s@.skip(i as int);
        let ghost begin = i;
        let mut start: usize = i;
        while start < chars.len() && strings::space_char(chars[start])
            invariant
                chars@ == s@,
                begin <= start <= chars@.len(),
                forall|j: int| begin <= j < start ==> strings::is_space(#[trigger] s@[j]),
            decreases chars@.len() - start,
        {
            start = start + 1;
        }
        let mut end: usize = start;
        while end < chars.len() && !strings::space_char(chars[end])
            invariant
                chars@ == s@,
                start <= end <= chars@.len(),
                forall|j: int| start <= j < end ==> !strings::is_space(#[trigger] s@[j]),
            decreases chars@.len() - end,
        {
            end = end + 1;
        }
        proof {
            assert forall|j: int| 0 <= j < start - begin implies strings::is_space(
                #[trigger] rest[j],
            ) by {
                assert(rest[j] == s@[begin + j]);
            }
            lemma_trim_front_skip(rest, start - begin);
            let t = s@.skip(start as int);
            assert(rest.skip(start - begin) =~= t);
            assert forall|j: int| 0 <= j < end - start implies !strings::is_space(
                #[trigger] t[j],
            ) by {
                assert(t[j] == s@[start + j]);
            }
            lemma_word_len(t, end - start);
            assert(t.take(end - start) =~= s@.subrange(start as int, end as int));
            assert(t.skip(end - start) =~= s@.skip(end as int));
        }
        if start >= chars.len() {
            return None;
        }
        if left == 0 {
            return Some(s.substring_char(start, end));
        }
        left = left - 1;
        i = end;
    }
}

fn leading_digits_of<'a>(s: &'a str) -> (r: &'a str)
    ensures
        r@ == leading_digits(s@),
{
    let chars = chars_of(s);
    let mut n: usize = 0;
    while n < chars.len() && text::digit_char(chars[n])
        invariant
            n <= chars@.len(),
            forall|j: int| 0 <= j < n ==> text::is_digit(#[trigger] chars@[j]),
        decreases chars@.len() - n,
    {
        n = n + 1;
    }
    proof {
        lemma_digits_len(s@, n as int);
        assert(s@.subrange(0, n as int) =~= s@.take(n as int));
    }
    s.substring_char(0, n)
}

fn parse_u32(s: &str) -> (r: Option<u32>)
    ensures
        r == u32_of(s@),
{
    match text::parse_number(s, u32::MAX as u64) {
        Some(n) => Some(n as u32),
        None => None,
    }
}

/// Check if io_uring is available on an operating system
///
/// It is on Linux. Runtime availability depends on kernel configuration,
/// security policy, and kernel version; runtime creation reports those failures.
pub fn is_available(target_os: &str) -> (r: bool)
    ensures
        r == (target_os@ == "linux"@),
{
    same(target_os, "linux")
}

/// The kernel version `(major, minor, patch)` in the line that the kernel gives
/// of itself, if it can be determined
pub fn kernel_version(version_str: &str) -> (r: Option<(u32, u32, u32)>)
    ensures
        r == version_of(version_str@),
{
    // "Linux version X.Y.Z-something ..."
    let version_part = match find_word(version_str, 2) {
        Some(word) => word,
        None => {
            return None;
        },
    };
    let parts = strings::split_all(version_part, '.');
    let ghost all = strings::split_on(version_part@, '.');
    assert(strings::views(parts@) == all);
    if parts.len() < 2 {
        return None;
    }
    assert(parts@[0]@ == all[0] && parts@[1]@ == all[1]);
    let major: u32 = match parse_u32(parts[0]) {
        Some(major) => major,
        None => {
            return None;
        },
    };
    let minor: u32 = match parse_u32(leading_digits_of(parts[1])) {
        Some(minor) => minor,
        None => {
            return None;
        },
    };
    let mut patch: u32 = 0;
    if parts.len() > 2 {
        assert(parts@[2]@ == all[2]);
        if let Some(level) = parse_u32(leading_digits_of(parts[2])) {
            patch = level;
        }
    }
    Some((major, minor, patch))
}

/// Check if a kernel version supports io_uring with recommended features
///
/// Returns true if the kernel is 5.10 or higher.
pub fn has_recommended_kernel(version: Option<(u32, u32, u32)>) -> (r: bool)
    ensures
        r == recommended(version),
{
    match version {
        Some((major, minor, _)) => major > 5 || (major == 5 && minor >= 10),
        None => false,
    }
}

} // verus!
