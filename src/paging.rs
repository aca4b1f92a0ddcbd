//! Module for x86_64 4-level paging.

use vstd::prelude::*;

use crate::sizes::{ONE_GIB, TWO_MIB};

verus! {

pub const PAGE_SIZE: usize = 4096;

pub const PAGE_MASK: usize = 0xfff;

const PAGE_BITS: usize = 12;

const LEVEL_BITS: usize = 9;

const LEVEL_BITS_MASK: usize = 0x1ff;

/// Exclusive upper bound of physical addresses with 4-level paging (52 bits).
pub const PHYS_ADDR_LIMIT: u64 = 0x10_0000_0000_0000;

/// Wrapper around a `u64` marking this data as physical address.
#[derive(Clone, Copy, Debug, PartialEq, Eq, Structural, PartialOrd, Ord, Hash)]
pub struct PhysAddress(pub u64);

impl From<u64> for PhysAddress {
    fn from(value: u64) -> (r: PhysAddress)
        ensures
            r.0 == value,
    {
        PhysAddress(value)
    }
}

impl vstd::std_specs::convert::FromSpecImpl<u64> for PhysAddress {
    open spec fn obeys_from_spec() -> bool {
        true
    }

    open spec fn from_spec(v: u64) -> PhysAddress {
        PhysAddress(v)
    }
}

/// Wrapper around a `u64` marking this data as virtual address.
#[derive(Clone, Copy, Debug, PartialEq, Eq, Structural, PartialOrd, Ord, Hash)]
pub struct VirtAddress(pub u64);

impl From<u64> for VirtAddress {
    fn from(value: u64) -> (r: VirtAddress)
        ensures
            r.0 == value,
    {
        VirtAddress(value)
    }
}

impl vstd::std_specs::convert::FromSpecImpl<u64> for VirtAddress {
    open spec fn obeys_from_spec() -> bool {
        true
    }

    open spec fn from_spec(v: u64) -> VirtAddress {
        VirtAddress(v)
    }
}

/// Number of bits the index of `level` is shifted by in a virtual address.
pub open spec fn level_shift(level: int) -> u64 {
    (12 + 9 * (level - 1)) as u64
}

/// The 9-bit page-table index of `addr` for paging level `level`, i.e., bits
/// `[12 + 9 * (level - 1), 12 + 9 * level)`.
pub open spec fn table_index(addr: u64, level: int) -> usize {
    ((addr >> level_shift(level)) & 0x1ff) as usize
}

/// A page-table index is below 512.
pub proof fn lemma_table_index_bound(addr: u64, level: int)
    ensures
        table_index(addr, level) < 512,
{
    let x: u64 = addr >> level_shift(level);
    assert(x & 0x1ff < 512) by (bit_vector);
}

impl VirtAddress {
    /// Returns the index into the page table for the given level.
    ///
    /// The level must be either `1`, `2`, `3`, or `4`.
    pub fn index(&self, level: usize) -> (r: usize)
        requires
            1 <= level <= 4,
        ensures
            r == table_index(self.0, level as int),
            r < 512,
    {
        let raw: u64 = self.0;
        let shift: u64 = ((level - 1) * LEVEL_BITS + PAGE_BITS) as u64;
        let index: u64 = (raw >> shift) & (LEVEL_BITS_MASK as u64);
        assert(index < 512) by (bit_vector)
            requires
                index == (raw >> shift) & 0x1ff,
        ;
        index as usize
    }
}

/// Companion for [`PageTableEntry`].
#[derive(Clone, Copy, Debug, Default, PartialEq, Eq, Structural, PartialOrd, Ord, Hash)]
pub struct PageTableEntryFlags {
    pub present: bool,
    pub write: bool,
    pub superuser: bool,
    pub write_through: bool,
    pub cache_disable: bool,
    pub hugepage: bool,
    pub execute_disable: bool,
}

/// Mask of the physical address bits 12 to 51 of an entry.
pub const ENTRY_ADDR_MASK: u64 = 0x000f_ffff_ffff_f000;

/// Whether `addr` can be stored in a page-table entry: 4 KiB aligned and
/// inside the 52-bit physical address space.
pub open spec fn is_frame_address(addr: u64) -> bool {
    addr % 4096 == 0 && addr < PHYS_ADDR_LIMIT
}

/// `bit` if `set` holds, else zero.
pub open spec fn bit_if(set: bool, bit: u64) -> u64 {
    if set {
        bit
    } else {
        0
    }
}

/// The raw value of the entry pointing to `addr` with the given flags.
pub open spec fn entry_bits(addr: u64, flags: PageTableEntryFlags) -> u64 {
    bit_if(flags.present, 1u64 << 0) | bit_if(flags.write, 1u64 << 1) | bit_if(
        flags.superuser,
        1u64 << 2,
    ) | bit_if(flags.write_through, 1u64 << 3) | bit_if(flags.cache_disable, 1u64 << 4)
        | bit_if(flags.hugepage, 1u64 << 7) | addr | bit_if(flags.execute_disable, 1u64 << 63)
}

/// The flags that the raw entry value `v` carries.
pub open spec fn decode_flags(v: u64) -> PageTableEntryFlags {
    PageTableEntryFlags {
        present: v & (1u64 << 0) != 0,
        write: v & (1u64 << 1) != 0,
        superuser: v & (1u64 << 2) != 0,
        write_through: v & (1u64 << 3) != 0,
        cache_disable: v & (1u64 << 4) != 0,
        hugepage: v & (1u64 << 7) != 0,
        execute_disable: v & (1u64 << 63) != 0,
    }
}

/// Hardware page-table entry of x86_64 4-level paging.
#[derive(Clone, Copy, Debug, Default, PartialEq, Eq, Structural, PartialOrd, Ord)]
pub struct PageTableEntry(pub u64);

impl PageTableEntry {
    pub const BIT_PRESENT: u64 = 1 << 0;

    pub const BIT_WRITE: u64 = 1 << 1;

    pub const BIT_SUPERUSER: u64 = 1 << 2;

    pub const BIT_WRITE_THROUGH: u64 = 1 << 3;

    pub const BIT_CACHE_DISABLE: u64 = 1 << 4;

    /// Huge page (page size) bit. Only valid in levels 2 and 3.
    pub const BIT_HUGEPAGE: u64 = 1 << 7;

    pub const BIT_EXECUTE_DISABLE: u64 = 1 << 63;

    /// Creates an entry pointing to `addr` with the given flags.
    ///
    /// `addr` must be 4 KiB aligned and below the 52-bit physical limit.
    pub fn new(addr: PhysAddress, flags: PageTableEntryFlags) -> (r: Self)
        requires
            is_frame_address(addr.0),
        ensures
            r.0 == entry_bits(addr.0, flags),
    {
        let value: u64 = (if flags.present {
            Self::BIT_PRESENT
        } else {
            0
        }) | (if flags.write {
            Self::BIT_WRITE
        } else {
            0
        }) | (if flags.superuser {
            Self::BIT_SUPERUSER
        } else {
            0
        }) | (if flags.write_through {
            Self::BIT_WRITE_THROUGH
        } else {
            0
        }) | (if flags.cache_disable {
            Self::BIT_CACHE_DISABLE
        } else {
            0
        }) | (if flags.hugepage {
            Self::BIT_HUGEPAGE
        } else {
            0
        }) | addr.0 | (if flags.execute_disable {
            Self::BIT_EXECUTE_DISABLE
        } else {
            0
        });
        PageTableEntry(value)
    }

    /// Returns the underlying flags.
    pub fn flags(&self) -> (r: PageTableEntryFlags)
        ensures
            r == decode_flags(self.0),
    {
        PageTableEntryFlags {
            present: self.0 & Self::BIT_PRESENT != 0,
            write: self.0 & Self::BIT_WRITE != 0,
            superuser: self.0 & Self::BIT_SUPERUSER != 0,
            write_through: self.0 & Self::BIT_WRITE_THROUGH != 0,
            cache_disable: self.0 & Self::BIT_CACHE_DISABLE != 0,
            hugepage: self.0 & Self::BIT_HUGEPAGE != 0,
            execute_disable: self.0 & Self::BIT_EXECUTE_DISABLE != 0,
        }
    }

    /// Returns the physical address this is pointing to (bits 12 to 51).
    pub fn paddr(&self) -> (r: PhysAddress)
        ensures
            r.0 == self.0 & ENTRY_ADDR_MASK,
            is_frame_address(r.0),
    {
        let low: u64 = low_mask(40);
        assert((1u64 << 40u64) == 0x100_0000_0000u64) by (bit_vector);
        let mask: u64 = low << 12u64;
        assert(mask == 0x000f_ffff_ffff_f000u64) by (bit_vector)
            requires
                low == 0xff_ffff_ffffu64,
                mask == low << 12u64,
        ;
        let raw: u64 = self.0;
        let v: u64 = raw & mask;
        assert(v % 4096 == 0 && v < 0x10_0000_0000_0000u64) by (bit_vector)
            requires
                v == raw & 0x000f_ffff_ffff_f000u64,
        ;
        PhysAddress(v)
    }

    /// Returns the physical address this is pointing to; same as
    /// [`Self::paddr`].
    pub fn addr(&self) -> (r: PhysAddress)
        ensures
            r.0 == self.0 & ENTRY_ADDR_MASK,
            is_frame_address(r.0),
    {
        self.paddr()
    }
}

/// Relies on `bit_ops::bitops_u64::create_mask`: the lowest `bits` bits set.
/// It panics for more than 64 bits.
#[verifier::external_body]
fn low_mask(bits: u64) -> (r: u64)
    requires
        bits < 64,
    ensures
        r == (1u64 << bits) - 1u64,
{
    bit_ops::bitops_u64::create_mask(bits)
}

/// Decoding an entry built from a frame address and a flag set gives back
/// exactly that flag set and that address.
pub proof fn lemma_entry_round_trip(addr: u64, flags: PageTableEntryFlags)
    requires
        is_frame_address(addr),
    ensures
        decode_flags(entry_bits(addr, flags)) == flags,
        entry_bits(addr, flags) & ENTRY_ADDR_MASK == addr,
{
    let p = bit_if(flags.present, 1u64 << 0);
    let w = bit_if(flags.write, 1u64 << 1);
    let s = bit_if(flags.superuser, 1u64 << 2);
    let t = bit_if(flags.write_through, 1u64 << 3);
    let c = bit_if(flags.cache_disable, 1u64 << 4);
    let h = bit_if(flags.hugepage, 1u64 << 7);
    let x = bit_if(flags.execute_disable, 1u64 << 63);
    let v = entry_bits(addr, flags);
    assert((1u64 << 0) == 1 && (1u64 << 1) == 2 && (1u64 << 2) == 4 && (1u64 << 3) == 8 && (1u64
        << 4) == 16 && (1u64 << 7) == 128 && (1u64 << 63) == 0x8000_0000_0000_0000u64)
        by (bit_vector);
    assert(v == p | w | s | t | c | h | addr | x);
    assert(addr & 0xfff == 0 && addr >> 52u64 == 0) by (bit_vector)
        requires
            addr % 4096 == 0 && addr < 0x10_0000_0000_0000u64,
    ;
    assert(v & 1 == p && v & 2 == w && v & 4 == s && v & 8 == t && v & 16 == c && v & 128 == h
        && v & 0x8000_0000_0000_0000u64 == x && v & 0x000f_ffff_ffff_f000u64 == addr)
        by (bit_vector)
        requires
            p == 0 || p == 1,
            w == 0 || w == 2,
            s == 0 || s == 4,
            t == 0 || t == 8,
            c == 0 || c == 16,
            h == 0 || h == 128,
            x == 0 || x == 0x8000_0000_0000_0000u64,
            addr & 0xfff == 0,
            addr >> 52u64 == 0,
            v == p | w | s | t | c | h | addr | x,
    ;
    assert(decode_flags(v) =~= flags);
}

/// Generic page (backing memory).
#[derive(Clone, Copy, Debug, PartialEq, Eq, PartialOrd, Ord)]
pub struct Page(pub [u8; 4096]);

impl Page {
    /// A page with all bytes zero.
    pub fn zero() -> (r: Self)
        ensures
            forall|i: int| 0 <= i < 4096 ==> r.0[i] == 0u8,
    {
        Page([0u8; 4096])
    }

    /// Returns the physical address of the page (identity mapping).
    pub fn as_paddr(&self) -> (r: PhysAddress) {
        PhysAddress(crate::mem::address_of(self.0.as_slice()) as u64)
    }

    /// Returns the virtual address of the page.
    pub fn as_vaddr(&self) -> (r: VirtAddress) {
        VirtAddress(crate::mem::address_of(self.0.as_slice()) as u64)
    }
}

impl Default for Page {
    fn default() -> (r: Self)
        ensures
            forall|i: int| 0 <= i < 4096 ==> r.0[i] == 0u8,
    {
        Self::zero()
    }
}

/// Generic page table (backing memory): 512 entries.
#[derive(Clone, Copy, Debug, PartialEq, Eq, PartialOrd, Ord)]
pub struct PageTable(pub [PageTableEntry; 512]);

impl View for PageTable {
    type V = Seq<PageTableEntry>;

    open spec fn view(&self) -> Seq<PageTableEntry> {
        self.0@
    }
}

impl PageTable {
    /// A page table with all entries zero, i.e., nothing mapped.
    pub fn zero() -> (r: Self)
        ensures
            r@.len() == 512,
            forall|i: int| 0 <= i < 512 ==> r@[i] == PageTableEntry(0),
    {
        PageTable([PageTableEntry(0); 512])
    }

    /// Returns the entry at `index`.
    pub fn entry(&self, index: usize) -> (r: PageTableEntry)
        requires
            index < 512,
        ensures
            r == self@[index as int],
    {
        self.0[index]
    }
}

/// Byte `k` (little endian) of the 64-bit value `v`.
pub open spec fn le_byte(v: u64, k: int) -> u8 {
    ((v >> ((8 * k) as u64)) & 0xff) as u8
}

/// The little-endian value of the 8 bytes of `b` from `at`.
pub open spec fn le_u64(b: Seq<u8>, at: int) -> u64 {
    (b[at] as u64) | ((b[at + 1] as u64) << 8u64) | ((b[at + 2] as u64) << 16u64) | ((b[at
        + 3] as u64) << 24u64) | ((b[at + 4] as u64) << 32u64) | ((b[at + 5] as u64) << 40u64) | ((
    b[at + 6] as u64) << 48u64) | ((b[at + 7] as u64) << 56u64)
}

impl PageTable {
    /// The same memory viewed as page: each entry as 8 little-endian bytes.
    pub fn as_page(&self) -> (r: Page)
        ensures
            forall|i: int| 0 <= i < 4096 ==> #[trigger] r.0@[i] == le_byte(self@[i / 8].0, i % 8),
    {
        let mut bytes = [0u8; 4096];
        let mut j: usize = 0;
        while j < 512
            invariant
                j <= 512,
                forall|i: int| 0 <= i < 8 * j ==> #[trigger] bytes@[i] == le_byte(self@[i / 8].0, i % 8),
            decreases 512 - j,
        {
            let v = self.0[j];
            let mut k: usize = 0;
            while k < 8
                invariant
                    j < 512,
                    k <= 8,
                    v == self@[j as int],
                    forall|i: int| 0 <= i < 8 * j + k ==> #[trigger] bytes@[i] == le_byte(self@[i / 8].0, i % 8),
                decreases 8 - k,
            {
                let b: u8 = ((v.0 >> ((8 * k) as u64)) & 0xff) as u8;
                bytes[8 * j + k] = b;
                proof {
                    let at = 8 * j + k;
                    assert((at as int) / 8 == j as int && (at as int) % 8 == k as int);
                }
                k = k + 1;
            }
            j = j + 1;
        }
        Page(bytes)
    }
}

impl Page {
    /// The same memory viewed as page table: each 8 little-endian bytes as
    /// one entry.
    pub fn as_page_table(&self) -> (r: PageTable)
        ensures
            forall|j: int| 0 <= j < 512 ==> #[trigger] r@[j].0 == le_u64(self.0@, 8 * j),
    {
        let mut entries = [PageTableEntry(0); 512];
        let mut j: usize = 0;
        while j < 512
            invariant
                j <= 512,
                forall|i: int| 0 <= i < j ==> #[trigger] entries@[i].0 == le_u64(self.0@, 8 * i),
            decreases 512 - j,
        {
            let at = 8 * j;
            let v: u64 = (self.0[at] as u64) | ((self.0[at + 1] as u64) << 8u64) | ((self.0[at
                + 2] as u64) << 16u64) | ((self.0[at + 3] as u64) << 24u64) | ((self.0[at + 4] as u64)
                << 32u64) | ((self.0[at + 5] as u64) << 40u64) | ((self.0[at + 6] as u64) << 48u64)
                | ((self.0[at + 7] as u64) << 56u64);
            entries[j] = PageTableEntry(v);
            j = j + 1;
        }
        PageTable(entries)
    }
}

/// Viewing a page table as page and back gives the same entries.
pub proof fn lemma_page_table_bytes_round_trip(t: PageTable, p: Page)
    requires
        forall|i: int| 0 <= i < 4096 ==> #[trigger] p.0@[i] == le_byte(t@[i / 8].0, i % 8),
    ensures
        forall|j: int| 0 <= j < 512 ==> #[trigger] le_u64(p.0@, 8 * j) == t@[j].0,
{
    assert forall|j: int| 0 <= j < 512 implies #[trigger] le_u64(p.0@, 8 * j) == t@[j].0 by {
        let v = t@[j].0;
        assert forall|k: int| 0 <= k < 8 implies #[trigger] p.0@[8 * j + k] == le_byte(v, k) by {
            assert((8 * j + k) / 8 == j && (8 * j + k) % 8 == k);
        }
        let b0 = p.0@[8 * j];
        let b1 = p.0@[8 * j + 1];
        let b2 = p.0@[8 * j + 2];
        let b3 = p.0@[8 * j + 3];
        let b4 = p.0@[8 * j + 4];
        let b5 = p.0@[8 * j + 5];
        let b6 = p.0@[8 * j + 6];
        let b7 = p.0@[8 * j + 7];
        assert(b0 == le_byte(v, 0) && b1 == le_byte(v, 1) && b2 == le_byte(v, 2) && b3 == le_byte(v, 3));
        assert(b4 == le_byte(v, 4) && b5 == le_byte(v, 5) && b6 == le_byte(v, 6) && b7 == le_byte(v, 7));
        assert((b0 as u64) | ((b1 as u64) << 8u64) | ((b2 as u64) << 16u64) | ((b3 as u64) << 24u64)
            | ((b4 as u64) << 32u64) | ((b5 as u64) << 40u64) | ((b6 as u64) << 48u64) | ((b7 as u64)
            << 56u64) == v) by (bit_vector)
            requires
                b0 == ((v >> 0u64) & 0xff) as u8,
                b1 == ((v >> 8u64) & 0xff) as u8,
                b2 == ((v >> 16u64) & 0xff) as u8,
                b3 == ((v >> 24u64) & 0xff) as u8,
                b4 == ((v >> 32u64) & 0xff) as u8,
                b5 == ((v >> 40u64) & 0xff) as u8,
                b6 == ((v >> 48u64) & 0xff) as u8,
                b7 == ((v >> 56u64) & 0xff) as u8,
        ;
    }
}

impl Default for PageTable {
    fn default() -> (r: Self)
        ensures
            r@.len() == 512,
            forall|i: int| 0 <= i < 512 ==> r@[i] == PageTableEntry(0),
    {
        Self::zero()
    }
}

/// The physical destination of a mapping step: an existing page or a bare
/// address.
#[derive(Clone, Copy, Debug)]
pub enum PhysMappingDest<'a> {
    Page(&'a Page),
    Addr(u64),
}

impl<'a> From<&'a Page> for PhysMappingDest<'a> {
    fn from(page: &'a Page) -> (r: Self)
        ensures
            r == PhysMappingDest::Page(page),
    {
        PhysMappingDest::Page(page)
    }
}

impl<'a> vstd::std_specs::convert::FromSpecImpl<&'a Page> for PhysMappingDest<'a> {
    open spec fn obeys_from_spec() -> bool {
        true
    }

    open spec fn from_spec(page: &'a Page) -> PhysMappingDest<'a> {
        PhysMappingDest::Page(page)
    }
}

impl<'a> PhysMappingDest<'a> {
    /// Returns the physical address of the destination.
    pub fn to_phys_addr(&self) -> (r: u64)
        ensures
            self is Addr ==> r == self->Addr_0,
    {
        match self {
            PhysMappingDest::Addr(addr) => *addr,
            PhysMappingDest::Page(page) => page.as_paddr().0,
        }
    }
}

/// Whether a mapping step at `level` with the given huge-page request may
/// point to `dest`: huge pages exist only at level 2 (2 MiB aligned) and
/// level 3 (1 GiB aligned).
pub open spec fn step_allowed(level: int, hugepage: bool, dest: u64) -> bool {
    hugepage ==> ((level == 2 && dest % (TWO_MIB as u64) == 0) || (level == 3 && dest % (
    ONE_GIB as u64) == 0))
}

/// The flags that [`map_address_step`] writes.
pub open spec fn step_flags(
    write: bool,
    hugepage: bool,
    execute_disable: bool,
) -> PageTableEntryFlags {
    PageTableEntryFlags {
        present: true,
        write,
        superuser: true,
        write_through: false,
        cache_disable: false,
        hugepage,
        execute_disable,
    }
}

/// The entry that [`map_address_step`] writes.
pub open spec fn step_entry(
    dest: u64,
    write: bool,
    hugepage: bool,
    execute_disable: bool,
) -> PageTableEntry {
    PageTableEntry(entry_bits(dest, step_flags(write, hugepage, execute_disable)))
}

/// Performs a single mapping step.
///
/// Overwrites the slot of `phys_src` that `vaddr` indexes at `level` with a
/// present entry to `phys_dest` carrying the given rights.
pub fn map_address_step(
    vaddr: VirtAddress,
    phys_src: &mut PageTable,
    phys_dest: PhysAddress,
    level: usize,
    write: bool,
    hugepage: bool,
    execute_disable: bool,
)
    requires
        1 <= level <= 4,
        is_frame_address(phys_dest.0),
        step_allowed(level as int, hugepage, phys_dest.0),
    ensures
        final(phys_src)@ == old(phys_src)@.update(
            table_index(vaddr.0, level as int) as int,
            step_entry(phys_dest.0, write, hugepage, execute_disable),
        ),
{
    let index = vaddr.index(level);
    let flags = PageTableEntryFlags {
        present: true,
        write,
        superuser: true,
        write_through: false,
        cache_disable: false,
        hugepage,
        execute_disable,
    };
    let entry = PageTableEntry::new(phys_dest, flags);
    phys_src.0[index] = entry;
}

/// Huge pages are never valid at level 1 (nor at the root level 4): the
/// precondition of [`map_address_step`] excludes every such step.
pub proof fn lemma_no_hugepage_at_level_one(dest: u64)
    ensures
        !step_allowed(1, true, dest),
        !step_allowed(4, true, dest),
{
}

} // verus!
