//! Memory buffers with guaranteed alignment.

use vstd::prelude::*;

use crate::sizes::TWO_MIB;

verus! {

/// Relies on `<[u8]>::as_ptr`: the address where the bytes of `s` start. Where
/// that is depends on the allocator; as the memory of an allocation never
/// wraps around the end of the address space, its end is an address too.
#[verifier::external_body]
pub(crate) fn address_of(s: &[u8]) -> (r: usize)
    ensures
        r + s@.len() <= usize::MAX,
{
    s.as_ptr() as usize
}

/// How far `addr` is below the next multiple of `alignment` (zero if it is
/// one).
pub open spec fn align_offset(addr: int, alignment: int) -> int {
    if addr % alignment == 0 {
        0
    } else {
        alignment - addr % alignment
    }
}

/// `addr` plus its offset to the next multiple of `alignment` is a multiple of
/// `alignment`.
pub proof fn lemma_align_offset(addr: int, alignment: int)
    requires
        addr >= 0,
        alignment >= 1,
    ensures
        0 <= align_offset(addr, alignment) < alignment,
        (addr + align_offset(addr, alignment)) % alignment == 0,
{
    vstd::arithmetic::div_mod::lemma_fundamental_div_mod(addr, alignment);
    vstd::arithmetic::div_mod::lemma_mod_pos_bound(addr, alignment);
    let q = addr / alignment;
    vstd::arithmetic::div_mod::lemma_mod_multiples_basic(q, alignment);
    vstd::arithmetic::div_mod::lemma_mod_multiples_basic(q + 1, alignment);
    assert(alignment * q == q * alignment) by (nonlinear_arith);
    assert((q + 1) * alignment == q * alignment + alignment) by (nonlinear_arith);
}

/// Returns the offset from `addr` to the next multiple of `alignment`.
fn offset_to_alignment(addr: usize, alignment: usize) -> (r: usize)
    requires
        alignment >= 1,
    ensures
        r == align_offset(addr as int, alignment as int),
        r < alignment,
        (addr + r) as int % (alignment as int) == 0,
{
    proof {
        lemma_align_offset(addr as int, alignment as int);
    }
    let rem = addr % alignment;
    if rem == 0 {
        0
    } else {
        alignment - rem
    }
}

/// An aligned buffer. Similar to `Box<[T]>` but with guaranteed alignment of
/// its first element.
///
/// The buffer holds `alignment - 1` more elements than asked for, and uses the
/// window that starts at the first aligned address.
#[derive(Debug)]
pub struct AlignedBuffer<T> {
    data: Vec<T>,
    offset: usize,
    capacity: usize,
    alignment: usize,
    start: usize,
}

impl<T> View for AlignedBuffer<T> {
    type V = Seq<T>;

    closed spec fn view(&self) -> Seq<T> {
        self.data@.subrange(self.offset as int, self.offset + self.capacity)
    }
}

impl<T> AlignedBuffer<T> {
    /// The invariant of the buffer.
    pub closed spec fn wf(&self) -> bool {
        &&& self.offset + self.capacity <= self.data@.len()
        &&& self.alignment >= 1
        &&& self.start as int % (self.alignment as int) == 0
    }

    /// The address of the first element.
    pub closed spec fn spec_start(&self) -> usize {
        self.start
    }

    /// The alignment the buffer was created with.
    pub closed spec fn spec_alignment(&self) -> usize {
        self.alignment
    }

    /// Returns the address of the first element, a multiple of the
    /// alignment.
    pub fn start_addr(&self) -> (r: usize)
        requires
            self.wf(),
        ensures
            r == self.spec_start(),
            r as int % (self.spec_alignment() as int) == 0,
    {
        self.start
    }

    /// Returns the number of elements.
    pub fn len(&self) -> (r: usize)
        requires
            self.wf(),
        ensures
            r == self@.len(),
    {
        self.capacity
    }

    /// Returns the elements as slice.
    pub fn as_slice(&self) -> (r: &[T])
        requires
            self.wf(),
        ensures
            r@ == self@,
    {
        let n = self.data.len();
        assert(self.offset + self.capacity <= n);
        vstd::slice::slice_subrange(self.data.as_slice(), self.offset, self.offset + self.capacity)
    }
}

impl AlignedBuffer<u8> {
    /// Creates a new zeroed buffer of `capacity` bytes whose first byte has an
    /// address that is a multiple of `alignment`.
    pub fn new(capacity: usize, alignment: usize) -> (r: Self)
        requires
            alignment >= 1,
            capacity + alignment <= usize::MAX,
        ensures
            r.wf(),
            r@.len() == capacity,
            forall|i: int| 0 <= i < capacity ==> #[trigger] r@[i] == 0u8,
            r.spec_alignment() == alignment,
            r.spec_start() as int % (alignment as int) == 0,
    {
        let total = capacity + (alignment - 1);
        let mut data: Vec<u8> = Vec::new();
        let mut i: usize = 0;
        while i < total
            invariant
                i <= total,
                data@.len() == i,
                forall|j: int| 0 <= j < i ==> #[trigger] data@[j] == 0u8,
            decreases total - i,
        {
            data.push(0u8);
            i = i + 1;
        }
        let addr = address_of(data.as_slice());
        let offset = offset_to_alignment(addr, alignment);
        let buffer = AlignedBuffer { data, offset, capacity, alignment, start: addr + offset };
        proof {
            assert forall|i: int| 0 <= i < capacity implies #[trigger] buffer@[i] == 0u8 by {
                assert(buffer@[i] == buffer.data@[offset + i]);
            }
        }
        buffer
    }

    /// Returns the byte at `index`.
    pub fn get(&self, index: usize) -> (r: u8)
        requires
            self.wf(),
            index < self@.len(),
        ensures
            r == self@[index as int],
    {
        let n = self.data.len();
        assert(self.offset + index < n);
        self.data[self.offset + index]
    }

    /// Writes `value` to the byte at `index`.
    pub fn set(&mut self, index: usize, value: u8)
        requires
            old(self).wf(),
            index < old(self)@.len(),
        ensures
            final(self).wf(),
            final(self)@ == old(self)@.update(index as int, value),
            final(self).spec_start() == old(self).spec_start(),
            final(self).spec_alignment() == old(self).spec_alignment(),
    {
        let n = self.data.len();
        assert(self.offset + index < n);
        let i = self.offset + index;
        self.data.set(i, value);
        proof {
            assert(self@ =~= old(self)@.update(index as int, value));
        }
    }

    /// Copies `src` to the bytes starting at `at`.
    pub fn copy_from(&mut self, at: usize, src: &[u8])
        requires
            old(self).wf(),
            at + src@.len() <= old(self)@.len(),
        ensures
            final(self).wf(),
            final(self)@.len() == old(self)@.len(),
            final(self)@.subrange(at as int, at + src@.len()) == src@,
            forall|i: int|
                0 <= i < old(self)@.len() && !(at <= i < at + src@.len())
                    ==> #[trigger] final(self)@[i] == old(self)@[i],
            final(self).spec_start() == old(self).spec_start(),
            final(self).spec_alignment() == old(self).spec_alignment(),
    {
        let mut k: usize = 0;
        while k < src.len()
            invariant
                self.wf(),
                at + src@.len() <= self@.len(),
                self@.len() == old(self)@.len(),
                k <= src@.len(),
                forall|i: int| at <= i < at + k ==> #[trigger] self@[i] == src@[i - at],
                forall|i: int|
                    0 <= i < old(self)@.len() && !(at <= i < at + k) ==> #[trigger] self@[i]
                        == old(self)@[i],
                self.spec_start() == old(self).spec_start(),
                self.spec_alignment() == old(self).spec_alignment(),
            decreases src@.len() - k,
        {
            self.set(at + k, src[k]);
            k = k + 1;
        }
        assert(self@.subrange(at as int, at + src@.len()) =~= src@);
    }
}

/// Reading a byte of an aligned buffer after writing it gives the written
/// value, and the other bytes stay as they were.
pub proof fn lemma_write_then_read(bytes: Seq<u8>, index: int, value: u8)
    requires
        0 <= index < bytes.len(),
    ensures
        bytes.update(index, value)[index] == value,
        forall|i: int| 0 <= i < bytes.len() && i != index ==> #[trigger] bytes.update(index, value)[i] == bytes[i],
{
}

/// Places `bytes`, which start at address `bytes_addr`, at a 2 MiB aligned
/// address: as they are if `bytes_addr` is aligned, else in a new zeroed
/// allocation that is big enough to hold them behind its first aligned
/// address.
///
/// Returns the allocation, the begin and end index of the data in it, and the
/// address of the allocation's first byte.
pub fn realign_2mib(bytes: Vec<u8>, bytes_addr: usize) -> (r: (Vec<u8>, usize, usize, usize))
    requires
        bytes@.len() + TWO_MIB <= usize::MAX,
    ensures
        r.1 <= r.2 <= r.0@.len(),
        r.2 - r.1 == bytes@.len(),
        r.1 < TWO_MIB,
        (r.3 + r.1) % (TWO_MIB as int) == 0,
        r.0@.subrange(r.1 as int, r.2 as int) == bytes@,
        forall|i: int| 0 <= i < r.1 ==> #[trigger] r.0@[i] == 0u8,
        forall|i: int| r.2 <= i < r.0@.len() ==> #[trigger] r.0@[i] == 0u8,
        bytes_addr % TWO_MIB == 0 ==> r.0@ == bytes@ && r.1 == 0 && r.3 == bytes_addr,
        bytes_addr % TWO_MIB != 0 ==> r.0@.len() == bytes@.len() + TWO_MIB - 1,
{
    let len = bytes.len();
    if bytes_addr % TWO_MIB == 0 {
        assert(bytes@.subrange(0, len as int) =~= bytes@);
        return (bytes, 0, len, bytes_addr);
    }
    let alloc_size = len + (TWO_MIB - 1);
    let mut alloc: Vec<u8> = Vec::new();
    let mut i: usize = 0;
    while i < alloc_size
        invariant
            i <= alloc_size,
            alloc@.len() == i,
            forall|j: int| 0 <= j < i ==> #[trigger] alloc@[j] == 0u8,
        decreases alloc_size - i,
    {
        alloc.push(0u8);
        i = i + 1;
    }
    let alloc_addr = address_of(alloc.as_slice());
    let offset = offset_to_alignment(alloc_addr, TWO_MIB);
    let mut k: usize = 0;
    while k < len
        invariant
            len == bytes@.len(),
            alloc@.len() == alloc_size,
            alloc_size == len + TWO_MIB - 1,
            offset < TWO_MIB,
            k <= len,
            forall|j: int| offset <= j < offset + k ==> #[trigger] alloc@[j] == bytes@[j - offset],
            forall|j: int|
                0 <= j < alloc_size && !(offset <= j < offset + k) ==> #[trigger] alloc@[j] == 0u8,
        decreases len - k,
    {
        alloc.set(offset + k, bytes[k]);
        k = k + 1;
    }
    assert(alloc@.subrange(offset as int, offset + len) =~= bytes@);
    (alloc, offset, offset + len, alloc_addr)
}

/// Reallocates `bytes` so that they start at a 2 MiB aligned address, unless
/// they already do (see [`realign_2mib`]).
///
/// Returns the allocation, the begin and end index of the data in it, and the
/// address of the allocation's first byte; the data starts at a 2 MiB aligned
/// address. The allocation is zeroed before and after the data.
pub fn realloc_align_up_2mib(bytes: Vec<u8>) -> (r: (Vec<u8>, usize, usize, usize))
    requires
        bytes@.len() + TWO_MIB <= usize::MAX,
    ensures
        r.1 <= r.2 <= r.0@.len(),
        r.2 - r.1 == bytes@.len(),
        r.1 < TWO_MIB,
        (r.3 + r.1) % (TWO_MIB as int) == 0,
        r.0@.subrange(r.1 as int, r.2 as int) == bytes@,
        forall|i: int| 0 <= i < r.1 ==> #[trigger] r.0@[i] == 0u8,
        forall|i: int| r.2 <= i < r.0@.len() ==> #[trigger] r.0@[i] == 0u8,
        r.0@ == bytes@ && r.1 == 0 || r.0@.len() == bytes@.len() + TWO_MIB - 1,
{
    let addr = address_of(bytes.as_slice());
    realign_2mib(bytes, addr)
}

} // verus!
