//! The boot information: what the loader hands over to the kernel.

use vstd::prelude::*;
use vstd::string::StringSliceAdditionalSpecFns;

use crate::codec::{
    lemma_u32_round_trip, lemma_u64_round_trip, le_u32, push_u32, push_u64, read_u32, read_u64,
    u32_bytes, u64_bytes,
};
use crate::memory_map::{
    decodes_to, entries_wf, entry_valid, lemma_entry_round_trip, lemma_map_bytes_at,
    lemma_map_bytes_len, map_bytes, push_entry, read_entry, MemoryMapEntry,
};
use crate::paging::le_u64;
use crate::sizes::TWO_MIB;

verus! {

/// Offset of the command line in the raw bytes.
pub const CMDLINE_OFFSET: usize = 20;

/// Offset of the firmware table pointers in the raw bytes.
pub const POINTERS_OFFSET: usize = 4120;

/// Offset of the number of memory map entries in the raw bytes.
pub const MMAP_LEN_OFFSET: usize = 4148;

/// Offset of the memory map entries in the raw bytes.
pub const MMAP_OFFSET: usize = 4152;

/// `n` zero bytes.
pub open spec fn zeros(n: int) -> Seq<u8> {
    Seq::new(n as nat, |i: int| 0u8)
}

/// The boot information of the kernel.
///
/// Its raw form has a fixed size of [`BootInformation::SIZE`] bytes, which is
/// no larger than two MiB, i.e., one huge page.
///
/// # Structure (raw bytes)
/// ```text
/// - u64: Magic
/// - u32: Version
/// - u32: Total Length
/// - u32: Length of command line
/// - [u8; 4096]: UTF-8 command line (without terminating NUL), zero padded
/// - [u8; 4]: Alignment to an 8-byte boundary
/// - u64: Physical address of the ACPI RSDP (0 if unknown)
/// - u64: Physical address of the UEFI system table (0 if unknown)
/// - u64: UEFI image handle (0 if unknown)
/// - [u8; 4]: Padding
/// - u32: Number of memory map entries
/// - [mmap entry; 1024]: memory map, 24 bytes each, zero padded
/// ```
#[derive(Clone, Debug)]
pub struct BootInformation {
    pub magic: u64,
    version: u32,
    cmdline: Vec<u8>,
    rsdp_addr: u64,
    efi_system_table: u64,
    efi_image_handle: u64,
    mmap: Vec<MemoryMapEntry>,
}

impl BootInformation {
    pub const MAGIC: u64 = 0xdead_beef_1337_1337;

    pub const VERSION: u32 = 1;

    /// The maximum length of the command line in bytes.
    pub const MAX_CMDLINE_LEN: usize = 4096;

    /// The maximum number of memory map entries.
    pub const MAX_MMAP_ENTRIES: usize = 1024;

    /// The size of the raw form in bytes.
    pub const SIZE: usize = 28728;

    pub closed spec fn spec_magic(&self) -> u64 {
        self.magic
    }

    pub closed spec fn spec_version(&self) -> u32 {
        self.version
    }

    pub closed spec fn spec_cmdline(&self) -> Seq<u8> {
        self.cmdline@
    }

    pub closed spec fn spec_pointers(&self) -> (u64, u64, u64) {
        (self.rsdp_addr, self.efi_system_table, self.efi_image_handle)
    }

    pub closed spec fn spec_mmap(&self) -> Seq<MemoryMapEntry> {
        self.mmap@
    }

    /// The bounds of the raw form.
    pub open spec fn wf(&self) -> bool {
        &&& self.spec_cmdline().len() <= Self::MAX_CMDLINE_LEN
        &&& self.spec_mmap().len() <= Self::MAX_MMAP_ENTRIES
        &&& entries_wf(self.spec_mmap())
    }

    /// Creates the boot information with the given command line, no firmware
    /// pointers and an empty memory map.
    pub fn new(cmdline: &str) -> (r: Self)
        requires
            cmdline.spec_bytes().len() <= Self::MAX_CMDLINE_LEN,
        ensures
            r.wf(),
            r.spec_magic() == Self::MAGIC,
            r.spec_version() == Self::VERSION,
            r.spec_cmdline() == cmdline.spec_bytes(),
            r.spec_pointers() == (0u64, 0u64, 0u64),
            r.spec_mmap().len() == 0,
    {
        let bytes = cmdline.as_bytes();
        let mut buffer: Vec<u8> = Vec::new();
        let mut i: usize = 0;
        while i < bytes.len()
            invariant
                i <= bytes@.len(),
                buffer@ == bytes@.subrange(0, i as int),
            decreases bytes@.len() - i,
        {
            buffer.push(bytes[i]);
            proof {
                assert(buffer@ =~= bytes@.subrange(0, i as int + 1));
            }
            i = i + 1;
        }
        assert(bytes@.subrange(0, bytes@.len() as int) =~= bytes@);
        BootInformation {
            magic: Self::MAGIC,
            version: Self::VERSION,
            cmdline: buffer,
            rsdp_addr: 0,
            efi_system_table: 0,
            efi_image_handle: 0,
            mmap: Vec::new(),
        }
    }

    /// Replaces the memory map.
    pub fn set_memory_map(&mut self, mmap: Vec<MemoryMapEntry>)
        requires
            old(self).wf(),
            mmap@.len() <= Self::MAX_MMAP_ENTRIES,
            entries_wf(mmap@),
        ensures
            final(self).wf(),
            final(self).spec_mmap() == mmap@,
            final(self).spec_magic() == old(self).spec_magic(),
            final(self).spec_version() == old(self).spec_version(),
            final(self).spec_cmdline() == old(self).spec_cmdline(),
            final(self).spec_pointers() == old(self).spec_pointers(),
    {
        self.mmap = mmap;
    }

    /// Returns the version.
    pub fn version(&self) -> (r: u32)
        ensures
            r == self.spec_version(),
    {
        self.version
    }

    /// Returns the command line (UTF-8, without terminating NUL).
    pub fn cmdline(&self) -> (r: &[u8])
        ensures
            r@ == self.spec_cmdline(),
    {
        self.cmdline.as_slice()
    }

    /// Returns the memory map entries.
    pub fn memory_map(&self) -> (r: &[MemoryMapEntry])
        ensures
            r@ == self.spec_mmap(),
    {
        self.mmap.as_slice()
    }

    /// Returns the physical address of the ACPI RSDP, if known.
    pub fn rsdp_addr(&self) -> (r: Option<u64>)
        ensures
            r == (if self.spec_pointers().0 == 0 {
                None
            } else {
                Some(self.spec_pointers().0)
            }),
    {
        if self.rsdp_addr == 0 {
            None
        } else {
            Some(self.rsdp_addr)
        }
    }

    /// Returns the raw form of the boot information.
    pub fn to_bytes(&self) -> (r: Vec<u8>)
        requires
            self.wf(),
        ensures
            r@ == boot_bytes(*self),
            r@.len() == Self::SIZE,
    {
        let mut out: Vec<u8> = Vec::new();
        push_u64(&mut out, self.magic);
        push_u32(&mut out, self.version);
        push_u32(&mut out, Self::SIZE as u32);
        push_u32(&mut out, self.cmdline.len() as u32);
        assert(out@ =~= boot_head(*self));
        let mut i: usize = 0;
        let ghost head = out@;
        while i < self.cmdline.len()
            invariant
                i <= self.cmdline@.len(),
                out@ == head + self.cmdline@.subrange(0, i as int),
            decreases self.cmdline@.len() - i,
        {
            out.push(self.cmdline[i]);
            proof {
                assert(out@ =~= head + self.cmdline@.subrange(0, i as int + 1));
            }
            i = i + 1;
        }
        assert(self.cmdline@.subrange(0, self.cmdline@.len() as int) =~= self.cmdline@);
        push_zeros(&mut out, Self::MAX_CMDLINE_LEN - self.cmdline.len() + 4);
        assert(out@ =~= boot_head(*self) + boot_cmdline(*self));
        let ghost head = out@;
        push_u64(&mut out, self.rsdp_addr);
        push_u64(&mut out, self.efi_system_table);
        push_u64(&mut out, self.efi_image_handle);
        push_zeros(&mut out, 4);
        push_u32(&mut out, self.mmap.len() as u32);
        assert(out@ =~= head + boot_pointers(*self));
        let ghost head = out@;
        let mut j: usize = 0;
        while j < self.mmap.len()
            invariant
                j <= self.mmap@.len(),
                out@ == head + map_bytes(self.mmap@.subrange(0, j as int)),
            decreases self.mmap@.len() - j,
        {
            push_entry(&mut out, &self.mmap[j]);
            proof {
                let s = self.mmap@.subrange(0, j as int + 1);
                assert(s.drop_last() =~= self.mmap@.subrange(0, j as int));
                assert(s.last() == self.mmap@[j as int]);
            }
            j = j + 1;
        }
        assert(self.mmap@.subrange(0, self.mmap@.len() as int) =~= self.mmap@);
        push_zeros(&mut out, 24 * (Self::MAX_MMAP_ENTRIES - self.mmap.len()));
        assert(out@ =~= head + boot_mmap(*self));
        proof {
            lemma_boot_bytes_len(*self);
        }
        out
    }

    /// Reads the boot information from its raw form. Fails if `bytes` are too
    /// short, the magic is wrong, the command line or the memory map are too
    /// long, or a memory map entry is invalid.
    pub fn from_bytes(bytes: &[u8]) -> (r: Option<Self>)
        ensures
            r is Some <==> boot_bytes_valid(bytes@),
            r matches Some(bi) ==> bi.wf() && decodes_boot_information(bytes@, bi),
    {
        let len = bytes.len();
        if len < Self::SIZE {
            return None;
        }
        let magic = read_u64(bytes, 0);
        if magic != Self::MAGIC {
            return None;
        }
        let version = read_u32(bytes, 8);
        let cmdline_len = read_u32(bytes, 16) as usize;
        if cmdline_len > Self::MAX_CMDLINE_LEN {
            return None;
        }
        let mut cmdline: Vec<u8> = Vec::new();
        let mut i: usize = 0;
        while i < cmdline_len
            invariant
                cmdline_len <= 4096,
                bytes@.len() >= Self::SIZE,
                i <= cmdline_len,
                cmdline@ == bytes@.subrange(20, 20 + i),
            decreases cmdline_len - i,
        {
            cmdline.push(bytes[CMDLINE_OFFSET + i]);
            proof {
                assert(cmdline@ =~= bytes@.subrange(20, 20 + i + 1));
            }
            i = i + 1;
        }
        let rsdp_addr = read_u64(bytes, POINTERS_OFFSET);
        let efi_system_table = read_u64(bytes, POINTERS_OFFSET + 8);
        let efi_image_handle = read_u64(bytes, POINTERS_OFFSET + 16);
        let n = read_u32(bytes, MMAP_LEN_OFFSET) as usize;
        if n > Self::MAX_MMAP_ENTRIES {
            return None;
        }
        let mut mmap: Vec<MemoryMapEntry> = Vec::new();
        let mut j: usize = 0;
        while j < n
            invariant
                n <= 1024,
                n == le_u32(bytes@, 4148),
                len == bytes@.len(),
                bytes@.len() >= Self::SIZE,
                j <= n,
                mmap@.len() == j,
                entries_wf(mmap@),
                forall|k: int| 0 <= k < j ==> #[trigger] entry_valid(bytes@, 4152 + 24 * k),
                forall|k: int| 0 <= k < j ==> #[trigger] decodes_to(bytes@, 4152 + 24 * k, mmap@[k]),
            decreases n - j,
        {
            match read_entry(bytes, MMAP_OFFSET + 24 * j) {
                Some(e) => {
                    mmap.push(e);
                },
                None => {
                    return None;
                },
            }
            j = j + 1;
        }
        Some(
            BootInformation {
                magic,
                version,
                cmdline,
                rsdp_addr,
                efi_system_table,
                efi_image_handle,
                mmap,
            },
        )
    }
}

/// Appends `n` zero bytes.
fn push_zeros(out: &mut Vec<u8>, n: usize)
    ensures
        final(out)@ == old(out)@ + zeros(n as int),
{
    let mut i: usize = 0;
    while i < n
        invariant
            i <= n,
            out@ == old(out)@ + zeros(i as int),
        decreases n - i,
    {
        out.push(0u8);
        proof {
            assert(out@ =~= old(out)@ + zeros(i as int + 1));
        }
        i = i + 1;
    }
}

/// The header of the raw form: magic, version, size, command line length.
pub open spec fn boot_head(bi: BootInformation) -> Seq<u8> {
    u64_bytes(bi.spec_magic()) + u32_bytes(bi.spec_version()) + u32_bytes(
        BootInformation::SIZE as u32,
    ) + u32_bytes(bi.spec_cmdline().len() as u32)
}

/// The command line of the raw form, zero padded, and the padding after it.
pub open spec fn boot_cmdline(bi: BootInformation) -> Seq<u8> {
    bi.spec_cmdline() + zeros(4096 - bi.spec_cmdline().len() + 4)
}

/// The firmware pointers of the raw form, the padding, and the number of
/// memory map entries.
pub open spec fn boot_pointers(bi: BootInformation) -> Seq<u8> {
    u64_bytes(bi.spec_pointers().0) + u64_bytes(bi.spec_pointers().1) + u64_bytes(
        bi.spec_pointers().2,
    ) + zeros(4) + u32_bytes(bi.spec_mmap().len() as u32)
}

/// The memory map of the raw form, zero padded.
pub open spec fn boot_mmap(bi: BootInformation) -> Seq<u8> {
    map_bytes(bi.spec_mmap()) + zeros(24 * (1024 - bi.spec_mmap().len()))
}

/// The raw form of `bi`.
pub open spec fn boot_bytes(bi: BootInformation) -> Seq<u8> {
    boot_head(bi) + boot_cmdline(bi) + boot_pointers(bi) + boot_mmap(bi)
}

/// Whether `b` is the raw form of some boot information.
pub open spec fn boot_bytes_valid(b: Seq<u8>) -> bool {
    &&& b.len() >= BootInformation::SIZE
    &&& le_u64(b, 0) == BootInformation::MAGIC
    &&& le_u32(b, 16) <= BootInformation::MAX_CMDLINE_LEN
    &&& le_u32(b, 4148) <= BootInformation::MAX_MMAP_ENTRIES
    &&& forall|k: int| 0 <= k < le_u32(b, 4148) ==> #[trigger] entry_valid(b, 4152 + 24 * k)
}

/// Whether `bi` is what the raw form `b` holds.
pub open spec fn decodes_boot_information(b: Seq<u8>, bi: BootInformation) -> bool {
    &&& bi.spec_magic() == le_u64(b, 0)
    &&& bi.spec_version() == le_u32(b, 8)
    &&& bi.spec_cmdline() == b.subrange(20, 20 + le_u32(b, 16))
    &&& bi.spec_pointers() == (le_u64(b, 4120), le_u64(b, 4128), le_u64(b, 4136))
    &&& bi.spec_mmap().len() == le_u32(b, 4148)
    &&& forall|k: int|
        0 <= k < bi.spec_mmap().len() ==> #[trigger] decodes_to(b, 4152 + 24 * k, bi.spec_mmap()[k])
}

proof fn lemma_boot_bytes_len(bi: BootInformation)
    requires
        bi.wf(),
    ensures
        boot_bytes(bi).len() == BootInformation::SIZE,
{
    lemma_map_bytes_len(bi.spec_mmap());
}

/// Where each field of the raw form of `bi` lies.
proof fn lemma_boot_bytes_layout(bi: BootInformation)
    requires
        bi.wf(),
    ensures
        boot_bytes(bi).len() == BootInformation::SIZE,
        boot_bytes(bi).subrange(0, 8) == u64_bytes(bi.spec_magic()),
        boot_bytes(bi).subrange(8, 12) == u32_bytes(bi.spec_version()),
        boot_bytes(bi).subrange(16, 20) == u32_bytes(bi.spec_cmdline().len() as u32),
        boot_bytes(bi).subrange(20, 20 + bi.spec_cmdline().len() as int) == bi.spec_cmdline(),
        boot_bytes(bi).subrange(4120, 4128) == u64_bytes(bi.spec_pointers().0),
        boot_bytes(bi).subrange(4128, 4136) == u64_bytes(bi.spec_pointers().1),
        boot_bytes(bi).subrange(4136, 4144) == u64_bytes(bi.spec_pointers().2),
        boot_bytes(bi).subrange(4148, 4152) == u32_bytes(bi.spec_mmap().len() as u32),
        boot_bytes(bi).subrange(4152, 4152 + 24 * bi.spec_mmap().len() as int) == map_bytes(
            bi.spec_mmap(),
        ),
{
    let h = boot_head(bi);
    let c = boot_cmdline(bi);
    let p = boot_pointers(bi);
    let m = boot_mmap(bi);
    let b = boot_bytes(bi);
    lemma_map_bytes_len(bi.spec_mmap());
    assert(h.len() == 20);
    assert(c.len() == 4100);
    assert(p.len() == 32);
    assert(m.len() == 24576);
    assert(b.subrange(0, 20) =~= h);
    assert(b.subrange(20, 4120) =~= c);
    assert(b.subrange(4120, 4152) =~= p);
    assert(b.subrange(4152, 28728) =~= m);
    assert(h.subrange(0, 8) =~= u64_bytes(bi.spec_magic()));
    assert(h.subrange(8, 12) =~= u32_bytes(bi.spec_version()));
    assert(h.subrange(16, 20) =~= u32_bytes(bi.spec_cmdline().len() as u32));
    assert(c.subrange(0, bi.spec_cmdline().len() as int) =~= bi.spec_cmdline());
    assert(p.subrange(0, 8) =~= u64_bytes(bi.spec_pointers().0));
    assert(p.subrange(8, 16) =~= u64_bytes(bi.spec_pointers().1));
    assert(p.subrange(16, 24) =~= u64_bytes(bi.spec_pointers().2));
    assert(p.subrange(28, 32) =~= u32_bytes(bi.spec_mmap().len() as u32));
    assert(m.subrange(0, 24 * bi.spec_mmap().len() as int) =~= map_bytes(bi.spec_mmap()));
    lemma_subrange_of_subrange(b, 0, 20, 0, 8);
    lemma_subrange_of_subrange(b, 0, 20, 8, 12);
    lemma_subrange_of_subrange(b, 0, 20, 16, 20);
    lemma_subrange_of_subrange(b, 20, 4120, 0, bi.spec_cmdline().len() as int);
    lemma_subrange_of_subrange(b, 4120, 4152, 0, 8);
    lemma_subrange_of_subrange(b, 4120, 4152, 8, 16);
    lemma_subrange_of_subrange(b, 4120, 4152, 16, 24);
    lemma_subrange_of_subrange(b, 4120, 4152, 28, 32);
    lemma_subrange_of_subrange(b, 4152, 28728, 0, 24 * bi.spec_mmap().len() as int);
}

/// A subrange of a subrange is a subrange.
proof fn lemma_subrange_of_subrange(s: Seq<u8>, lo: int, hi: int, a: int, b: int)
    requires
        0 <= lo <= hi <= s.len(),
        0 <= a <= b <= hi - lo,
    ensures
        s.subrange(lo, hi).subrange(a, b) == s.subrange(lo + a, lo + b),
{
    assert(s.subrange(lo, hi).subrange(a, b) =~= s.subrange(lo + a, lo + b));
}

/// Reading back the raw form of boot information gives the same magic,
/// version, command line, firmware pointers and memory map; the raw form is
/// no larger than one 2 MiB huge page.
pub proof fn lemma_boot_information_round_trip(bi: BootInformation, b: Seq<u8>)
    requires
        bi.wf(),
        bi.spec_magic() == BootInformation::MAGIC,
        b == boot_bytes(bi),
    ensures
        BootInformation::SIZE <= TWO_MIB,
        b.len() == BootInformation::SIZE,
        boot_bytes_valid(b),
        forall|bj: BootInformation| #[trigger]
            decodes_boot_information(b, bj) ==> bj.spec_magic() == BootInformation::MAGIC
                && bj.spec_version() == bi.spec_version() && bj.spec_cmdline() == bi.spec_cmdline()
                && bj.spec_pointers() == bi.spec_pointers() && bj.spec_mmap() == bi.spec_mmap(),
{
    let clen = bi.spec_cmdline().len() as int;
    let n = bi.spec_mmap().len() as int;
    lemma_boot_bytes_layout(bi);
    lemma_u64_round_trip(bi.spec_magic(), b, 0);
    lemma_u32_round_trip(bi.spec_version(), b, 8);
    lemma_u32_round_trip(clen as u32, b, 16);
    lemma_u64_round_trip(bi.spec_pointers().0, b, 4120);
    lemma_u64_round_trip(bi.spec_pointers().1, b, 4128);
    lemma_u64_round_trip(bi.spec_pointers().2, b, 4136);
    lemma_u32_round_trip(n as u32, b, 4148);
    lemma_map_bytes_len(bi.spec_mmap());
    assert forall|k: int| 0 <= k < n implies #[trigger] entry_valid(b, 4152 + 24 * k) by {
        lemma_mmap_entry_in_boot_bytes(bi, b, k);
    }
    assert forall|bj: BootInformation| #[trigger] decodes_boot_information(b, bj) implies bj.spec_magic()
        == BootInformation::MAGIC && bj.spec_version() == bi.spec_version() && bj.spec_cmdline()
        == bi.spec_cmdline() && bj.spec_pointers() == bi.spec_pointers() && bj.spec_mmap()
        == bi.spec_mmap() by {
        assert forall|k: int| 0 <= k < n implies bj.spec_mmap()[k] == bi.spec_mmap()[k] by {
            lemma_mmap_entry_in_boot_bytes(bi, b, k);
            assert(decodes_to(b, 4152 + 24 * k, bj.spec_mmap()[k]));
        }
        assert(bj.spec_mmap() =~= bi.spec_mmap());
    }
}

/// Memory map entry `k` of `bi` is read back from its raw form.
proof fn lemma_mmap_entry_in_boot_bytes(bi: BootInformation, b: Seq<u8>, k: int)
    requires
        bi.wf(),
        b == boot_bytes(bi),
        0 <= k < bi.spec_mmap().len(),
    ensures
        entry_valid(b, 4152 + 24 * k),
        forall|f: MemoryMapEntry| #[trigger] decodes_to(b, 4152 + 24 * k, f) ==> f == bi.spec_mmap()[k],
{
    let n = bi.spec_mmap().len() as int;
    lemma_boot_bytes_layout(bi);
    lemma_map_bytes_len(bi.spec_mmap());
    lemma_map_bytes_at(bi.spec_mmap(), k);
    assert(24 * k + 24 <= 24 * n) by (nonlinear_arith)
        requires
            k < n,
    ;
    lemma_subrange_of_subrange(b, 4152, 4152 + 24 * n, 24 * k, 24 * k + 24);
    lemma_entry_round_trip(bi.spec_mmap()[k], b, 4152 + 24 * k);
}

} // verus!
