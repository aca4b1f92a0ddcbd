//! The physical memory map handed to the kernel.

use vstd::prelude::*;

use crate::codec::{lemma_u64_round_trip, push_u64, read_u64, u64_bytes};
use crate::paging::le_u64;

verus! {

/// Protection flags of a memory region.
#[derive(Clone, Copy, Debug, Default, PartialEq, Eq, Structural, PartialOrd, Ord, Hash)]
pub struct MemoryMapEntryFlags {
    bits: u8,
}

impl MemoryMapEntryFlags {
    /// Bit of executable regions.
    pub const EXECUTABLE: u8 = 1 << 0;

    /// Bit of writable regions.
    pub const WRITE: u8 = 1 << 1;

    /// Bit of readable regions.
    pub const READ: u8 = 1 << 2;

    pub closed spec fn spec_bits(&self) -> u8 {
        self.bits
    }

    /// The flags with exactly the given bits, known or not.
    pub fn from_bits_retain(bits: u8) -> (r: Self)
        ensures
            r.spec_bits() == bits,
    {
        MemoryMapEntryFlags { bits }
    }

    /// No flag set.
    pub fn empty() -> (r: Self)
        ensures
            r.spec_bits() == 0,
    {
        MemoryMapEntryFlags { bits: 0 }
    }

    /// The raw bits.
    pub fn bits(&self) -> (r: u8)
        ensures
            r == self.spec_bits(),
    {
        self.bits
    }

    /// The flags of both.
    pub fn union(self, other: Self) -> (r: Self)
        ensures
            r.spec_bits() == self.spec_bits() | other.spec_bits(),
    {
        MemoryMapEntryFlags { bits: self.bits | other.bits }
    }

    /// Whether all flags of `other` are set.
    pub fn contains(&self, other: Self) -> (r: bool)
        ensures
            r == (self.spec_bits() & other.spec_bits() == other.spec_bits()),
    {
        self.bits & other.bits == other.bits
    }
}

/// The type of a memory region.
#[derive(Clone, Copy, Debug, PartialEq, Eq, Structural, PartialOrd, Ord, Hash)]
pub enum MemoryMapEntryType {
    AvailableRam,
    /// The kernel itself (all LOAD segments).
    Kernel,
    /// Data from the OS loader, such as the page tables of the kernel and
    /// the boot information.
    LoaderData,
    /// Firmware runtime information, such as UEFI runtime services.
    Firmware,
    /// ACPI tables that are reclaimable memory after parsing.
    AcpiReclaim,
    /// ACPI backing storage.
    AcpiNvs,
    /// MMIO space or otherwise reserved regions.
    MMIO,
}

/// The raw value of a region type.
pub open spec fn type_raw(t: MemoryMapEntryType) -> u8 {
    match t {
        MemoryMapEntryType::AvailableRam => 0,
        MemoryMapEntryType::Kernel => 1,
        MemoryMapEntryType::LoaderData => 2,
        MemoryMapEntryType::Firmware => 3,
        MemoryMapEntryType::AcpiReclaim => 4,
        MemoryMapEntryType::AcpiNvs => 5,
        MemoryMapEntryType::MMIO => 6,
    }
}

/// The region type with raw value `v`, if any.
pub open spec fn type_from_raw(v: u8) -> Option<MemoryMapEntryType> {
    if v == 0 {
        Some(MemoryMapEntryType::AvailableRam)
    } else if v == 1 {
        Some(MemoryMapEntryType::Kernel)
    } else if v == 2 {
        Some(MemoryMapEntryType::LoaderData)
    } else if v == 3 {
        Some(MemoryMapEntryType::Firmware)
    } else if v == 4 {
        Some(MemoryMapEntryType::AcpiReclaim)
    } else if v == 5 {
        Some(MemoryMapEntryType::AcpiNvs)
    } else if v == 6 {
        Some(MemoryMapEntryType::MMIO)
    } else {
        None
    }
}

impl MemoryMapEntryType {
    /// Returns the underlying raw value.
    pub fn val(self) -> (r: u8)
        ensures
            r == type_raw(self),
    {
        match self {
            MemoryMapEntryType::AvailableRam => 0,
            MemoryMapEntryType::Kernel => 1,
            MemoryMapEntryType::LoaderData => 2,
            MemoryMapEntryType::Firmware => 3,
            MemoryMapEntryType::AcpiReclaim => 4,
            MemoryMapEntryType::AcpiNvs => 5,
            MemoryMapEntryType::MMIO => 6,
        }
    }

    /// Returns the type with the raw value `v`, if there is one.
    pub fn from_raw(v: u8) -> (r: Option<Self>)
        ensures
            r == type_from_raw(v),
    {
        match v {
            0 => Some(MemoryMapEntryType::AvailableRam),
            1 => Some(MemoryMapEntryType::Kernel),
            2 => Some(MemoryMapEntryType::LoaderData),
            3 => Some(MemoryMapEntryType::Firmware),
            4 => Some(MemoryMapEntryType::AcpiReclaim),
            5 => Some(MemoryMapEntryType::AcpiNvs),
            6 => Some(MemoryMapEntryType::MMIO),
            _ => None,
        }
    }
}

/// The raw value of a type gives back that type.
pub proof fn lemma_type_raw_round_trip(t: MemoryMapEntryType)
    ensures
        type_from_raw(type_raw(t)) == Some(t),
{
}

/// One region of the physical memory map: `[from, from + length)`.
#[derive(Clone, Copy, Debug, PartialEq, Eq, Structural, PartialOrd, Ord, Hash)]
pub struct MemoryMapEntry {
    from: u64,
    length: u64,
    typ: MemoryMapEntryType,
    prot: MemoryMapEntryFlags,
}

impl MemoryMapEntry {
    pub closed spec fn spec_from(&self) -> u64 {
        self.from
    }

    pub closed spec fn spec_length(&self) -> u64 {
        self.length
    }

    pub closed spec fn spec_typ(&self) -> MemoryMapEntryType {
        self.typ
    }

    pub closed spec fn spec_prot(&self) -> MemoryMapEntryFlags {
        self.prot
    }

    /// The region ends inside the 64-bit address space.
    pub open spec fn wf(&self) -> bool {
        self.spec_from() + self.spec_length() <= u64::MAX
    }

    /// Creates an entry of a region that ends inside the address space.
    pub fn new(
        from: u64,
        length: u64,
        typ: MemoryMapEntryType,
        prot: MemoryMapEntryFlags,
    ) -> (r: Self)
        requires
            from + length <= u64::MAX,
        ensures
            r.wf(),
            r.spec_from() == from,
            r.spec_length() == length,
            r.spec_typ() == typ,
            r.spec_prot() == prot,
    {
        MemoryMapEntry { from, length, typ, prot }
    }

    /// Returns the type of the memory map entry.
    pub fn typ(&self) -> (r: MemoryMapEntryType)
        ensures
            r == self.spec_typ(),
    {
        self.typ
    }

    /// Returns the inclusive begin of the memory map entry.
    pub fn from(&self) -> (r: u64)
        ensures
            r == self.spec_from(),
    {
        self.from
    }

    /// Returns the length.
    pub fn length(&self) -> (r: u64)
        ensures
            r == self.spec_length(),
    {
        self.length
    }

    /// Returns the exclusive end of the memory map entry.
    pub fn to(&self) -> (r: u64)
        requires
            self.wf(),
        ensures
            r == self.spec_from() + self.spec_length(),
    {
        self.from + self.length
    }

    /// Returns the protection bits of the region.
    pub fn prot(&self) -> (r: MemoryMapEntryFlags)
        ensures
            r == self.spec_prot(),
    {
        self.prot
    }
}

/// The 24 bytes of an entry: `from` and `length` as little-endian `u64`, the
/// raw type, the protection bits, 6 zero bytes.
pub open spec fn entry_bytes(e: MemoryMapEntry) -> Seq<u8> {
    u64_bytes(e.spec_from()) + u64_bytes(e.spec_length()) + seq![
        type_raw(e.spec_typ()),
        e.spec_prot().spec_bits(),
    ] + Seq::new(6, |i: int| 0u8)
}

/// Whether `e` is what the 24 bytes of `b` from `at` encode.
pub open spec fn decodes_to(b: Seq<u8>, at: int, e: MemoryMapEntry) -> bool {
    &&& e.spec_from() == le_u64(b, at)
    &&& e.spec_length() == le_u64(b, at + 8)
    &&& type_from_raw(b[at + 16]) == Some(e.spec_typ())
    &&& e.spec_prot().spec_bits() == b[at + 17]
}

/// Whether the 24 bytes of `b` from `at` encode an entry: a known type and a
/// region that ends inside the address space.
pub open spec fn entry_valid(b: Seq<u8>, at: int) -> bool {
    &&& type_from_raw(b[at + 16]) is Some
    &&& le_u64(b, at) + le_u64(b, at + 8) <= u64::MAX
}

/// Appends the 24 bytes of `e`.
pub fn push_entry(out: &mut Vec<u8>, e: &MemoryMapEntry)
    ensures
        final(out)@ == old(out)@ + entry_bytes(*e),
{
    push_u64(out, e.from);
    push_u64(out, e.length);
    out.push(e.typ.val());
    out.push(e.prot.bits);
    let mut k: usize = 0;
    while k < 6
        invariant
            k <= 6,
            out@ == old(out)@ + u64_bytes(e.spec_from()) + u64_bytes(e.spec_length()) + seq![
                type_raw(e.spec_typ()),
                e.spec_prot().spec_bits(),
            ] + Seq::new(k as nat, |i: int| 0u8),
        decreases 6 - k,
    {
        let ghost prev = out@;
        out.push(0u8);
        proof {
            assert(out@ =~= old(out)@ + u64_bytes(e.spec_from()) + u64_bytes(e.spec_length())
                + seq![type_raw(e.spec_typ()), e.spec_prot().spec_bits()] + Seq::new(
                (k + 1) as nat,
                |i: int| 0u8,
            ));
        }
        k = k + 1;
    }
}

/// Reads the entry encoded by the 24 bytes of `b` from `at`, if they encode
/// one.
pub fn read_entry(b: &[u8], at: usize) -> (r: Option<MemoryMapEntry>)
    requires
        at + 24 <= b@.len(),
    ensures
        r is Some <==> entry_valid(b@, at as int),
        r matches Some(e) ==> e.wf() && decodes_to(b@, at as int, e),
{
    let len = b.len();
    assert(at + 24 <= len);
    let from = read_u64(b, at);
    let length = read_u64(b, at + 8);
    let typ = match MemoryMapEntryType::from_raw(b[at + 16]) {
        Some(t) => t,
        None => {
            return None;
        },
    };
    if from > u64::MAX - length {
        return None;
    }
    Some(MemoryMapEntry::new(from, length, typ, MemoryMapEntryFlags::from_bits_retain(b[at + 17])))
}

/// Reading the bytes of an entry gives back the entry.
pub proof fn lemma_entry_round_trip(e: MemoryMapEntry, b: Seq<u8>, at: int)
    requires
        e.wf(),
        0 <= at,
        at + 24 <= b.len(),
        b.subrange(at, at + 24) == entry_bytes(e),
    ensures
        entry_valid(b, at),
        decodes_to(b, at, e),
        forall|f: MemoryMapEntry| #[trigger] decodes_to(b, at, f) ==> f == e,
{
    let s = entry_bytes(e);
    assert(b.subrange(at, at + 8) =~= u64_bytes(e.spec_from())) by {
        assert forall|i: int| 0 <= i < 8 implies b.subrange(at, at + 8)[i] == u64_bytes(
            e.spec_from(),
        )[i] by {
            assert(b[at + i] == s[i]);
        }
    }
    assert(b.subrange(at + 8, at + 16) =~= u64_bytes(e.spec_length())) by {
        assert forall|i: int| 0 <= i < 8 implies b.subrange(at + 8, at + 16)[i] == u64_bytes(
            e.spec_length(),
        )[i] by {
            assert(b[at + 8 + i] == s[8 + i]);
        }
    }
    assert(b[at + 16] == s[16]);
    assert(b[at + 17] == s[17]);
    lemma_u64_round_trip(e.spec_from(), b, at);
    lemma_u64_round_trip(e.spec_length(), b, at + 8);
    lemma_type_raw_round_trip(e.spec_typ());
    assert forall|f: MemoryMapEntry| #[trigger] decodes_to(b, at, f) implies f == e by {
        assert(f.spec_prot() == e.spec_prot());
    }
}

/// A physical memory map: an ordered sequence of entries.
#[derive(Clone, Debug)]
pub struct MemoryMap {
    entries: Vec<MemoryMapEntry>,
}

impl View for MemoryMap {
    type V = Seq<MemoryMapEntry>;

    closed spec fn view(&self) -> Seq<MemoryMapEntry> {
        self.entries@
    }
}

/// The bytes of all entries, one after the other.
pub open spec fn map_bytes(es: Seq<MemoryMapEntry>) -> Seq<u8>
    decreases es.len(),
{
    if es.len() == 0 {
        Seq::empty()
    } else {
        map_bytes(es.drop_last()) + entry_bytes(es.last())
    }
}

/// Whether every entry of `es` ends inside the address space.
pub open spec fn entries_wf(es: Seq<MemoryMapEntry>) -> bool {
    forall|i: int| 0 <= i < es.len() ==> (#[trigger] es[i]).wf()
}

/// The bytes of a map are 24 for each entry.
pub proof fn lemma_map_bytes_len(es: Seq<MemoryMapEntry>)
    ensures
        map_bytes(es).len() == 24 * es.len(),
    decreases es.len(),
{
    if es.len() > 0 {
        lemma_map_bytes_len(es.drop_last());
    }
}

/// The bytes of entry `i` lie at `24 * i` in the bytes of the map.
pub proof fn lemma_map_bytes_at(es: Seq<MemoryMapEntry>, i: int)
    requires
        0 <= i < es.len(),
    ensures
        map_bytes(es).len() == 24 * es.len(),
        map_bytes(es).subrange(24 * i, 24 * i + 24) == entry_bytes(es[i]),
    decreases es.len(),
{
    lemma_map_bytes_len(es);
    lemma_map_bytes_len(es.drop_last());
    if i == es.len() - 1 {
        assert(map_bytes(es).subrange(24 * i, 24 * i + 24) =~= entry_bytes(es[i]));
    } else {
        lemma_map_bytes_at(es.drop_last(), i);
        assert(map_bytes(es).subrange(24 * i, 24 * i + 24) =~= map_bytes(es.drop_last()).subrange(
            24 * i,
            24 * i + 24,
        ));
    }
}

impl MemoryMap {
    /// Creates a map of the given entries.
    pub fn new(entries: Vec<MemoryMapEntry>) -> (r: Self)
        ensures
            r@ == entries@,
    {
        MemoryMap { entries }
    }

    /// Returns the entries.
    pub fn entries(&self) -> (r: &[MemoryMapEntry])
        ensures
            r@ == self@,
    {
        self.entries.as_slice()
    }

    /// Returns the bytes of all entries, 24 for each.
    pub fn to_bytes(&self) -> (r: Vec<u8>)
        ensures
            r@ == map_bytes(self@),
    {
        let mut out: Vec<u8> = Vec::new();
        let mut i: usize = 0;
        while i < self.entries.len()
            invariant
                i <= self@.len(),
                out@ == map_bytes(self@.subrange(0, i as int)),
            decreases self@.len() - i,
        {
            push_entry(&mut out, &self.entries[i]);
            proof {
                let s = self@.subrange(0, i as int + 1);
                assert(s.drop_last() =~= self@.subrange(0, i as int));
                assert(s.last() == self@[i as int]);
            }
            i = i + 1;
        }
        assert(self@.subrange(0, self@.len() as int) =~= self@);
        out
    }

    /// Reads a map from `bytes`: 24 bytes for each entry. Fails if the length
    /// is no multiple of 24 or some entry has an unknown type or a region that
    /// wraps around the address space.
    pub fn from_bytes(bytes: &[u8]) -> (r: Option<Self>)
        ensures
            r is Some <==> bytes@.len() % 24 == 0 && forall|i: int|
                0 <= i < bytes@.len() / 24 ==> #[trigger] entry_valid(bytes@, 24 * i),
            r matches Some(m) ==> {
                &&& m@.len() == bytes@.len() / 24
                &&& entries_wf(m@)
                &&& forall|i: int| 0 <= i < m@.len() ==> #[trigger] decodes_to(bytes@, 24 * i, m@[i])
            },
    {
        if bytes.len() % 24 != 0 {
            return None;
        }
        let len = bytes.len();
        let n = len / 24;
        let mut entries: Vec<MemoryMapEntry> = Vec::new();
        let mut i: usize = 0;
        while i < n
            invariant
                n == bytes@.len() / 24,
                len == bytes@.len(),
                bytes@.len() % 24 == 0,
                i <= n,
                entries@.len() == i,
                entries_wf(entries@),
                forall|j: int| 0 <= j < i ==> #[trigger] entry_valid(bytes@, 24 * j),
                forall|j: int| 0 <= j < i ==> #[trigger] decodes_to(bytes@, 24 * j, entries@[j]),
            decreases n - i,
        {
            assert(24 * i + 24 <= bytes@.len()) by (nonlinear_arith)
                requires
                    i < n,
                    n == bytes@.len() / 24,
                    bytes@.len() % 24 == 0,
            ;
            match read_entry(bytes, 24 * i) {
                Some(e) => {
                    entries.push(e);
                },
                None => {
                    return None;
                },
            }
            i = i + 1;
        }
        Some(MemoryMap { entries })
    }
}

/// Reading the bytes of a map gives back the map.
pub proof fn lemma_map_round_trip(es: Seq<MemoryMapEntry>)
    requires
        entries_wf(es),
    ensures
        map_bytes(es).len() == 24 * es.len(),
        forall|i: int| 0 <= i < es.len() ==> #[trigger] entry_valid(map_bytes(es), 24 * i),
        forall|i: int, f: MemoryMapEntry|
            0 <= i < es.len() && #[trigger] decodes_to(map_bytes(es), 24 * i, f) ==> f == es[i],
{
    lemma_map_bytes_len(es);
    assert forall|i: int| 0 <= i < es.len() implies #[trigger] entry_valid(map_bytes(es), 24 * i) by {
        lemma_map_bytes_at(es, i);
        lemma_entry_round_trip(es[i], map_bytes(es), 24 * i);
    }
    assert forall|i: int, f: MemoryMapEntry|
        0 <= i < es.len() && #[trigger] decodes_to(map_bytes(es), 24 * i, f) implies f == es[i] by {
        lemma_map_bytes_at(es, i);
        lemma_entry_round_trip(es[i], map_bytes(es), 24 * i);
    }
}

} // verus!
