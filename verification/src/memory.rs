//! A guest's linear memory: bytes that the host reads and writes at offsets.
use vstd::prelude::*;
use crate::error::Error;

verus! {

/// The memory `m` after `data` is written into it at `offset`.
pub open spec fn write_bytes(m: Seq<u8>, offset: int, data: Seq<u8>) -> Seq<u8> {
    Seq::new(
        m.len(),
        |i: int|
            if offset <= i < offset + data.len() {
                data[i - offset]
            } else {
                m[i]
            },
    )
}

/// The `len` bytes of `m` that start at `offset`.
pub open spec fn read_bytes(m: Seq<u8>, offset: int, len: int) -> Seq<u8> {
    m.subrange(offset, offset + len)
}

/// The byte range `[offset, offset + len)` lies within a memory of `size` bytes.
pub open spec fn in_bounds(size: int, offset: int, len: int) -> bool {
    0 <= offset && 0 <= len && offset + len <= size
}

/// A linear memory: the bytes the guest sees, indexed from 0.
pub struct Memory {
    bytes: Vec<u8>,
}

impl View for Memory {
    type V = Seq<u8>;

    closed spec fn view(&self) -> Seq<u8> {
        self.bytes@
    }
}

/// The typed-array view over `len` bytes from `offset`, as 32-bit byte offset and
/// length: the addresses and sizes of a 32-bit memory.
pub fn view_bounds(offset: usize, len: usize) -> (r: (u32, u32))
    requires
        offset <= u32::MAX,
        len <= u32::MAX,
    ensures
        r.0 == offset,
        r.1 == len,
{
    (offset as u32, len as u32)
}

impl Memory {
    /// A memory holding these bytes.
    pub fn new(bytes: Vec<u8>) -> (m: Memory)
        ensures
            m@ == bytes@,
    {
        Memory { bytes }
    }

    /// The number of bytes in the memory.
    pub fn data_size(&self) -> (r: usize)
        ensures
            r == self@.len(),
    {
        self.bytes.len()
    }

    /// Writes `buffer` into the memory at `offset`. The store argument is not used.
    pub fn write<S>(&mut self, _store: S, offset: usize, buffer: &[u8]) -> (r: Result<(), Error>)
        requires
            in_bounds(old(self)@.len() as int, offset as int, buffer@.len() as int),
            offset <= u32::MAX,
            buffer@.len() <= u32::MAX,
        ensures
            r is Ok,
            final(self)@ == write_bytes(old(self)@, offset as int, buffer@),
    {
        self.write_impl(offset, buffer)
    }

    /// Writes `buffer` into the view of the memory that starts at `offset`.
    pub fn write_impl(&mut self, offset: usize, buffer: &[u8]) -> (r: Result<(), Error>)
        requires
            in_bounds(old(self)@.len() as int, offset as int, buffer@.len() as int),
            offset <= u32::MAX,
            buffer@.len() <= u32::MAX,
        ensures
            r is Ok,
            final(self)@ == write_bytes(old(self)@, offset as int, buffer@),
    {
        let (start, len) = view_bounds(offset, buffer.len());
        let start = start as usize;
        let len = len as usize;
        let size = self.bytes.len();
        let mut i: usize = 0;
        while i < len
            invariant
                start == offset,
                len == buffer@.len(),
                size == self@.len(),
                i <= len,
                start + len <= self@.len(),
                self@.len() == old(self)@.len(),
                forall|j: int|
                    0 <= j < self@.len() ==> #[trigger] self@[j] == if start <= j < start + i {
                        buffer@[j - start]
                    } else {
                        old(self)@[j]
                    },
            decreases len - i,
        {
            self.bytes.set(start + i, buffer[i]);
            i += 1;
        }
        assert(self@ =~= write_bytes(old(self)@, offset as int, buffer@));
        Ok(())
    }

    /// Reads the bytes at `offset` into `buffer`, as many as it holds. The store
    /// argument is not used.
    pub fn read<S>(&self, _store: S, offset: usize, buffer: &mut [u8]) -> (r: Result<(), Error>)
        requires
            in_bounds(self@.len() as int, offset as int, old(buffer)@.len() as int),
            offset <= u32::MAX,
            old(buffer)@.len() <= u32::MAX,
        ensures
            r is Ok,
            final(buffer)@ == read_bytes(self@, offset as int, old(buffer)@.len() as int),
    {
        self.read_impl(offset, buffer)
    }

    /// Copies the view of the memory that starts at `offset` into `buffer`.
    pub fn read_impl(&self, offset: usize, buffer: &mut [u8]) -> (r: Result<(), Error>)
        requires
            in_bounds(self@.len() as int, offset as int, old(buffer)@.len() as int),
            offset <= u32::MAX,
            old(buffer)@.len() <= u32::MAX,
        ensures
            r is Ok,
            final(buffer)@ == read_bytes(self@, offset as int, old(buffer)@.len() as int),
    {
        let (start, len) = view_bounds(offset, buffer.len());
        let start = start as usize;
        let len = len as usize;
        let size = self.bytes.len();
        let mut i: usize = 0;
        while i < len
            invariant
                start == offset,
                len == buffer@.len(),
                len == old(buffer)@.len(),
                size == self@.len(),
                i <= len,
                start + len <= self@.len(),
                forall|j: int| 0 <= j < i ==> #[trigger] buffer@[j] == self@[start + j],
            decreases len - i,
        {
            buffer[i] = self.bytes[start + i];
            i += 1;
        }
        assert(buffer@ =~= read_bytes(self@, offset as int, len as int));
        Ok(())
    }
}

/// What a read gives back of a write: reading the bytes just written at an
/// offset yields exactly those bytes.
pub proof fn law_read_after_write(m: Seq<u8>, offset: int, data: Seq<u8>)
    requires
        in_bounds(m.len() as int, offset, data.len() as int),
    ensures
        read_bytes(write_bytes(m, offset, data), offset, data.len() as int) == data,
{
    assert(read_bytes(write_bytes(m, offset, data), offset, data.len() as int) =~= data);
}

/// A write leaves every byte outside its range as it was: a read of a range
/// disjoint from the write gives what it gave before.
pub proof fn law_write_keeps_other_bytes(
    m: Seq<u8>,
    offset: int,
    data: Seq<u8>,
    other: int,
    len: int,
)
    requires
        in_bounds(m.len() as int, offset, data.len() as int),
        in_bounds(m.len() as int, other, len),
        other + len <= offset || offset + data.len() <= other,
    ensures
        read_bytes(write_bytes(m, offset, data), other, len) == read_bytes(m, other, len),
{
    assert(read_bytes(write_bytes(m, offset, data), other, len) =~= read_bytes(m, other, len));
}

/// A write never changes the size of the memory.
pub proof fn law_write_keeps_size(m: Seq<u8>, offset: int, data: Seq<u8>)
    ensures
        write_bytes(m, offset, data).len() == m.len(),
{
}

/// Writing back what was just read leaves the memory unchanged.
pub proof fn law_write_back_read(m: Seq<u8>, offset: int, len: int)
    requires
        in_bounds(m.len() as int, offset, len),
    ensures
        write_bytes(m, offset, read_bytes(m, offset, len)) == m,
{
    assert(write_bytes(m, offset, read_bytes(m, offset, len)) =~= m);
}

/// Of two writes of the same length at the same offset, the second one wins.
pub proof fn law_last_write_wins(m: Seq<u8>, offset: int, first: Seq<u8>, second: Seq<u8>)
    requires
        first.len() == second.len(),
    ensures
        write_bytes(write_bytes(m, offset, first), offset, second) == write_bytes(m, offset, second),
{
    assert(write_bytes(write_bytes(m, offset, first), offset, second) =~= write_bytes(
        m,
        offset,
        second,
    ));
}

} // verus!
