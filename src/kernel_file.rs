//! Abstraction over the ELF file of the kernel.

use vstd::prelude::*;
use vstd::slice::slice_subrange;

use crate::paging::VirtAddress;
use crate::sizes::TWO_MIB;
use elf::endian::LittleEndian;
use elf::ElfBytes;

verus! {

#[verifier::external_type_specification]
#[verifier::external_body]
pub struct ExParseError(elf::ParseError);

/// Segment type of a loadable segment.
pub const PT_LOAD: u32 = 1;

/// Segment flag: executable.
pub const PF_X: u32 = 1;

/// Segment flag: writable.
pub const PF_W: u32 = 2;

/// Segment flag: readable.
pub const PF_R: u32 = 4;

/// The virtual address the kernel's first LOAD segment must be linked to.
pub const KERNEL_LINK_ADDR: u64 = 0xffff_ffff_8820_0000;

/// The fields of one ELF program header, in the order `p_type`, `p_flags`,
/// `p_offset`, `p_vaddr`, `p_paddr`, `p_filesz`, `p_memsz`, `p_align`.
pub type RawProgramHeader = (u32, u32, u64, u64, u64, u64, u64, u64);

/// What the `elf` crate reads from an image: `None` if it is no valid
/// little-endian ELF file, else its entry point and its program headers
/// (`None` if it has no program header table).
pub uninterp spec fn elf_parse(bytes: Seq<u8>) -> Option<(u64, Option<Seq<RawProgramHeader>>)>;

/// Relies on `elf::ElfBytes::<LittleEndian>::minimal_parse`, `ElfBytes::segments` and the
/// parsing iterator of its segment table: the result depends on the bytes alone.
#[verifier::external_body]
fn parse_elf(bytes: &[u8]) -> (r: Result<(u64, Option<Vec<RawProgramHeader>>), elf::ParseError>)
    ensures
        r is Ok <==> elf_parse(bytes@) is Some,
        r is Ok ==> r->Ok_0.0 == elf_parse(bytes@)->Some_0.0,
        r is Ok ==> (r->Ok_0.1 is Some <==> elf_parse(bytes@)->Some_0.1 is Some),
        r is Ok && r->Ok_0.1 is Some ==> r->Ok_0.1->Some_0@ == elf_parse(
            bytes@,
        )->Some_0.1->Some_0,
{
    let elf = ElfBytes::<LittleEndian>::minimal_parse(bytes)?;
    let headers = elf.segments().map(|table| {
        table.iter().map(|h| (h.p_type, h.p_flags, h.p_offset, h.p_vaddr, h.p_paddr,
            h.p_filesz, h.p_memsz, h.p_align)).collect()
    });
    Ok((elf.ehdr.e_entry, headers))
}

/// One program header of the kernel's ELF file.
#[derive(Clone, Copy, Debug, PartialEq, Eq, Structural)]
pub struct SegmentHeader {
    pub p_type: u32,
    pub p_flags: u32,
    pub p_offset: u64,
    pub p_vaddr: u64,
    pub p_paddr: u64,
    pub p_filesz: u64,
    pub p_memsz: u64,
    pub p_align: u64,
}

impl View for SegmentHeader {
    type V = RawProgramHeader;

    open spec fn view(&self) -> RawProgramHeader {
        (
            self.p_type,
            self.p_flags,
            self.p_offset,
            self.p_vaddr,
            self.p_paddr,
            self.p_filesz,
            self.p_memsz,
            self.p_align,
        )
    }
}

impl SegmentHeader {
    /// Builds a header from its raw fields.
    pub fn from_raw(raw: RawProgramHeader) -> (r: Self)
        ensures
            r@ == raw,
    {
        SegmentHeader {
            p_type: raw.0,
            p_flags: raw.1,
            p_offset: raw.2,
            p_vaddr: raw.3,
            p_paddr: raw.4,
            p_filesz: raw.5,
            p_memsz: raw.6,
            p_align: raw.7,
        }
    }
}

/// The headers as a sequence of raw fields.
pub open spec fn headers_view(hs: Seq<SegmentHeader>) -> Seq<RawProgramHeader> {
    hs.map_values(|h: SegmentHeader| h@)
}

/// Possible errors when creating a [`KernelFile`] via
/// [`KernelFile::from_bytes`].
#[derive(Debug)]
pub enum KernelFileError {
    /// The file is not a valid ELF.
    InvalidElf(elf::ParseError),
    /// The LOAD segments have invalid or unexpected properties (e.g., no 2 MiB
    /// alignment).
    InvalidLoadSegments,
}

impl KernelFileError {
    /// A human-readable description of the error.
    pub fn message(&self) -> (r: &'static str)
        ensures
            self is InvalidElf ==> r@ == "kernel is not a valid ELF"@,
            self is InvalidLoadSegments ==> r@
                == "LOAD segments have invalid properties (e.g., no 2 MiB alignment)"@,
    {
        match self {
            KernelFileError::InvalidElf(_) => "kernel is not a valid ELF",
            KernelFileError::InvalidLoadSegments =>
                "LOAD segments have invalid properties (e.g., no 2 MiB alignment)",
        }
    }
}

/// `x` rounded up to the next multiple of 2 MiB.
pub open spec fn align_up_2mib(x: int) -> int {
    if x % (TWO_MIB as int) == 0 {
        x
    } else {
        x - x % (TWO_MIB as int) + TWO_MIB as int
    }
}

/// Rounds `x` up to the next multiple of 2 MiB, if that fits into a `u64`.
pub fn checked_align_up_2mib(x: u64) -> (r: Option<u64>)
    ensures
        r is Some <==> align_up_2mib(x as int) <= u64::MAX,
        r is Some ==> r->Some_0 == align_up_2mib(x as int),
{
    let rem: u64 = x % (TWO_MIB as u64);
    proof {
        lemma_align_up_2mib(x as int);
    }
    assert(rem <= x) by (bit_vector)
        requires
            rem == x % 0x200000u64,
    ;
    if rem == 0 {
        Some(x)
    } else {
        (x - rem).checked_add(TWO_MIB as u64)
    }
}

/// Rounding up to 2 MiB gives the least multiple of 2 MiB that is not below
/// `x`.
pub proof fn lemma_align_up_2mib(x: int)
    requires
        x >= 0,
    ensures
        x <= align_up_2mib(x) < x + TWO_MIB as int,
        align_up_2mib(x) % (TWO_MIB as int) == 0,
        x % (TWO_MIB as int) == 0 ==> align_up_2mib(x) == x,
{
    let m = TWO_MIB as int;
    vstd::arithmetic::div_mod::lemma_fundamental_div_mod(x, m);
    vstd::arithmetic::div_mod::lemma_mod_pos_bound(x, m);
    vstd::arithmetic::div_mod::lemma_mod_multiples_basic(x / m, m);
    vstd::arithmetic::div_mod::lemma_mod_multiples_basic(x / m + 1, m);
    assert(x - x % m == (x / m) * m) by (nonlinear_arith)
        requires
            x == m * (x / m) + x % m,
    ;
    assert(x - x % m + m == (x / m + 1) * m) by (nonlinear_arith)
        requires
            x == m * (x / m) + x % m,
    ;
}

pub open spec fn is_load(h: SegmentHeader) -> bool {
    h.p_type == PT_LOAD
}

/// The LOAD segments among `hs`, in file order.
pub open spec fn load_filter(hs: Seq<SegmentHeader>) -> Seq<SegmentHeader> {
    hs.filter(|h: SegmentHeader| is_load(h))
}

/// Whether one of `ls` carries all flags of `mask`.
pub open spec fn has_flags(ls: Seq<SegmentHeader>, mask: u32) -> bool {
    exists|i: int| 0 <= i < ls.len() && #[trigger] (ls[i].p_flags & mask) == mask
}

/// Whether one of `ls` is read-only.
pub open spec fn has_read_only(ls: Seq<SegmentHeader>) -> bool {
    exists|i: int| 0 <= i < ls.len() && #[trigger] ls[i].p_flags == PF_R
}

/// The end of segment `h` in virtual memory, rounded up to 2 MiB.
pub open spec fn segment_end_2mib(h: SegmentHeader) -> int {
    align_up_2mib(h.p_vaddr + h.p_memsz)
}

/// The loader's assumptions on the LOAD segments `ls` of the kernel.
pub open spec fn load_segments_valid(ls: Seq<SegmentHeader>) -> bool {
    &&& has_flags(ls, PF_R | PF_X)
    &&& has_flags(ls, PF_R | PF_W)
    &&& has_read_only(ls)
    &&& ls.len() == 3
    &&& ls[0].p_vaddr == KERNEL_LINK_ADDR
    &&& forall|i: int| 0 <= i < ls.len() ==> #[trigger] ls[i].p_vaddr % (TWO_MIB as u64) == 0
    &&& forall|i: int| 0 <= i < ls.len() ==> #[trigger] ls[i].p_filesz == ls[i].p_memsz
    &&& forall|i: int| 0 <= i < ls.len() ==> #[trigger] segment_end_2mib(ls[i]) <= u64::MAX
    &&& forall|i: int|
        0 <= i < ls.len() - 1 ==> ls[i + 1].p_vaddr == #[trigger] segment_end_2mib(ls[i])
}

/// Whether the file contents of `h` lie inside an image of `len` bytes.
pub open spec fn in_file(h: SegmentHeader, len: int) -> bool {
    h.p_offset + h.p_filesz <= len
}

/// The checks that [`KernelFile::from_bytes`] performs on the program headers
/// of an image of `len` bytes.
pub open spec fn headers_valid(hs: Seq<SegmentHeader>, len: int) -> bool {
    &&& load_segments_valid(load_filter(hs))
    &&& forall|i: int| 0 <= i < hs.len() ==> #[trigger] in_file(hs[i], len)
}

/// The first check on the program headers of a kernel image that fails, with
/// the values it found.
#[derive(Clone, Copy, Debug, PartialEq, Eq, Structural)]
pub enum LoadSegmentsIssue {
    /// The image has no program header table.
    NoProgramHeaders,
    /// Not all of a read-execute, a read-write and a read-only LOAD segment
    /// exist; says which do.
    MissingSegmentKinds { read_execute: bool, read_write: bool, read_only: bool },
    /// There are not exactly three LOAD segments.
    WrongCount(usize),
    /// The first LOAD segment is not at the kernel's link address.
    WrongLinkAddress(u64),
    /// A LOAD segment is not 2 MiB aligned.
    Unaligned { segment: usize, vaddr: u64 },
    /// A LOAD segment's file size differs from its memory size.
    SizeMismatch { segment: usize, filesz: u64, memsz: u64 },
    /// A LOAD segment ends beyond the 64-bit address space.
    EndOutOfRange { segment: usize },
    /// A LOAD segment does not start where the one before it ends (rounded up
    /// to 2 MiB).
    NotContiguous { segment: usize, expected: u64, actual: u64 },
    /// The file contents of a program header lie outside the image.
    OutsideFile { header: usize, offset: u64, filesz: u64 },
}

/// Abstraction over the ELF file of the kernel.
#[derive(Debug)]
pub struct KernelFile<'a> {
    elf_bytes: &'a [u8],
    entry: u64,
    headers: Vec<SegmentHeader>,
}

impl<'a> KernelFile<'a> {
    /// The raw image bytes.
    pub closed spec fn bytes(&self) -> Seq<u8> {
        self.elf_bytes@
    }

    /// The program headers of the image.
    pub closed spec fn headers(&self) -> Seq<SegmentHeader> {
        self.headers@
    }

    /// The entry point that the ELF header declares.
    pub closed spec fn spec_entry(&self) -> u64 {
        self.entry
    }

    /// The invariant established by [`Self::from_bytes`].
    pub open spec fn wf(&self) -> bool {
        headers_valid(self.headers(), self.bytes().len() as int)
    }

    /// Returns the LOAD segments of `hs`, in file order.
    fn filter_load(hs: &Vec<SegmentHeader>) -> (r: Vec<SegmentHeader>)
        ensures
            r@ == load_filter(hs@),
    {
        let mut out: Vec<SegmentHeader> = Vec::new();
        let mut i: usize = 0;
        while i < hs.len()
            invariant
                i <= hs@.len(),
                out@ == load_filter(hs@.subrange(0, i as int)),
            decreases hs@.len() - i,
        {
            let h = hs[i];
            proof {
                let s = hs@.subrange(0, i as int + 1);
                assert(s.drop_last() =~= hs@.subrange(0, i as int));
                assert(s.last() == h);
                reveal(Seq::filter);
            }
            if h.p_type == PT_LOAD {
                out.push(h);
            }
            i = i + 1;
        }
        assert(hs@.subrange(0, hs@.len() as int) =~= hs@);
        out
    }

    /// Performs the checks on the LOAD segments `ls`; returns the first that
    /// fails, with its values.
    pub fn load_segments_issue(ls: &Vec<SegmentHeader>) -> (r: Option<LoadSegmentsIssue>)
        ensures
            r is None <==> load_segments_valid(ls@),
            r matches Some(LoadSegmentsIssue::MissingSegmentKinds { read_execute, read_write, read_only })
                ==> read_execute == has_flags(ls@, PF_R | PF_X) && read_write == has_flags(
                ls@,
                PF_R | PF_W,
            ) && read_only == has_read_only(ls@) && !(read_execute && read_write && read_only),
            r matches Some(LoadSegmentsIssue::WrongCount(n)) ==> n == ls@.len() && n != 3,
            r matches Some(LoadSegmentsIssue::WrongLinkAddress(v)) ==> ls@.len() == 3 && v
                == ls@[0].p_vaddr && v != KERNEL_LINK_ADDR,
            r matches Some(LoadSegmentsIssue::Unaligned { segment, vaddr }) ==> segment < ls@.len()
                && vaddr == ls@[segment as int].p_vaddr && vaddr % (TWO_MIB as u64) != 0,
            r matches Some(LoadSegmentsIssue::SizeMismatch { segment, filesz, memsz }) ==> segment
                < ls@.len() && filesz == ls@[segment as int].p_filesz && memsz == ls@[
                segment as int].p_memsz && filesz != memsz,
            r matches Some(LoadSegmentsIssue::EndOutOfRange { segment }) ==> segment < ls@.len()
                && segment_end_2mib(ls@[segment as int]) > u64::MAX,
            r matches Some(LoadSegmentsIssue::NotContiguous { segment, expected, actual }) ==> segment
                + 1 < ls@.len() && expected == segment_end_2mib(ls@[segment as int]) && actual
                == ls@[segment + 1].p_vaddr && actual != expected,
            !(r matches Some(LoadSegmentsIssue::NoProgramHeaders)),
            !(r matches Some(LoadSegmentsIssue::OutsideFile { .. })),
    {
        // check: have at least one rx, one rw, one ro segment
        let mut has_rx = false;
        let mut has_rw = false;
        let mut has_ro = false;
        let mut i: usize = 0;
        while i < ls.len()
            invariant
                i <= ls@.len(),
                has_rx <==> has_flags(ls@.subrange(0, i as int), PF_R | PF_X),
                has_rw <==> has_flags(ls@.subrange(0, i as int), PF_R | PF_W),
                has_ro <==> has_read_only(ls@.subrange(0, i as int)),
            decreases ls@.len() - i,
        {
            let flags = ls[i].p_flags;
            proof {
                let s = ls@.subrange(0, i as int);
                let t = ls@.subrange(0, i as int + 1);
                assert(t[i as int] == ls@[i as int]);
                assert forall|j: int| 0 <= j < s.len() implies #[trigger] s[j] == t[j] by {}
                if has_flags(t, PF_R | PF_X) {
                    let j = choose|j: int| 0 <= j < t.len() && #[trigger] (t[j].p_flags & (PF_R | PF_X)) == (PF_R | PF_X);
                    if j < i { assert(s[j] == t[j]); }
                }
                if has_flags(t, PF_R | PF_W) {
                    let j = choose|j: int| 0 <= j < t.len() && #[trigger] (t[j].p_flags & (PF_R | PF_W)) == (PF_R | PF_W);
                    if j < i { assert(s[j] == t[j]); }
                }
                if has_read_only(t) {
                    let j = choose|j: int| 0 <= j < t.len() && #[trigger] t[j].p_flags == PF_R;
                    if j < i { assert(s[j] == t[j]); }
                }
                if has_flags(s, PF_R | PF_X) {
                    let j = choose|j: int| 0 <= j < s.len() && #[trigger] (s[j].p_flags & (PF_R | PF_X)) == (PF_R | PF_X);
                    assert(t[j] == s[j]);
                }
                if has_flags(s, PF_R | PF_W) {
                    let j = choose|j: int| 0 <= j < s.len() && #[trigger] (s[j].p_flags & (PF_R | PF_W)) == (PF_R | PF_W);
                    assert(t[j] == s[j]);
                }
                if has_read_only(s) {
                    let j = choose|j: int| 0 <= j < s.len() && #[trigger] s[j].p_flags == PF_R;
                    assert(t[j] == s[j]);
                }
            }
            if flags & (PF_R | PF_X) == (PF_R | PF_X) {
                has_rx = true;
            }
            if flags & (PF_R | PF_W) == (PF_R | PF_W) {
                has_rw = true;
            }
            if flags == PF_R {
                has_ro = true;
            }
            i = i + 1;
        }
        assert(ls@.subrange(0, ls@.len() as int) =~= ls@);
        if !(has_ro && has_rx && has_rw) {
            return Some(
                LoadSegmentsIssue::MissingSegmentKinds {
                    read_execute: has_rx,
                    read_write: has_rw,
                    read_only: has_ro,
                },
            );
        }
        // check: we have three LOAD segments
        if ls.len() != 3 {
            return Some(LoadSegmentsIssue::WrongCount(ls.len()));
        }
        // check: we have the expected link address
        if ls[0].p_vaddr != KERNEL_LINK_ADDR {
            return Some(LoadSegmentsIssue::WrongLinkAddress(ls[0].p_vaddr));
        }
        // check: all LOAD segments are aligned to 2 MiB (for huge-page
        // mappings), have equal file and memory size, and end inside the
        // address space; the virtual address space is contiguous
        let mut i: usize = 0;
        while i < 3
            invariant
                ls@.len() == 3,
                i <= 3,
                forall|j: int| 0 <= j < i ==> #[trigger] ls@[j].p_vaddr % (TWO_MIB as u64) == 0,
                forall|j: int| 0 <= j < i ==> #[trigger] ls@[j].p_filesz == ls@[j].p_memsz,
                forall|j: int| 0 <= j < i ==> #[trigger] segment_end_2mib(ls@[j]) <= u64::MAX,
                forall|j: int|
                    0 <= j < i && j < 2 ==> ls@[j + 1].p_vaddr == #[trigger] segment_end_2mib(ls@[j]),
            decreases 3 - i,
        {
            let h = ls[i];
            proof {
                lemma_align_up_2mib(h.p_vaddr + h.p_memsz);
            }
            if h.p_vaddr % (TWO_MIB as u64) != 0 {
                return Some(LoadSegmentsIssue::Unaligned { segment: i, vaddr: h.p_vaddr });
            }
            if h.p_filesz != h.p_memsz {
                return Some(
                    LoadSegmentsIssue::SizeMismatch { segment: i, filesz: h.p_filesz, memsz: h.p_memsz },
                );
            }
            let end = match h.p_vaddr.checked_add(h.p_memsz) {
                Some(end) => end,
                None => {
                    assert(segment_end_2mib(ls@[i as int]) > u64::MAX);
                    return Some(LoadSegmentsIssue::EndOutOfRange { segment: i });
                },
            };
            let end = match checked_align_up_2mib(end) {
                Some(end) => end,
                None => {
                    assert(segment_end_2mib(ls@[i as int]) > u64::MAX);
                    return Some(LoadSegmentsIssue::EndOutOfRange { segment: i });
                },
            };
            if i < 2 && ls[i + 1].p_vaddr != end {
                return Some(
                    LoadSegmentsIssue::NotContiguous {
                        segment: i,
                        expected: end,
                        actual: ls[i + 1].p_vaddr,
                    },
                );
            }
            i = i + 1;
        }
        None
    }

    /// Performs checks on the program headers `hs` of an image of `len`
    /// bytes: the LOAD segments must meet the loader's assumptions and all
    /// segment contents must lie inside the file.
    /// Performs the checks on the program headers `hs` of an image of `len`
    /// bytes: the LOAD segments must meet the loader's assumptions and all
    /// segment contents must lie inside the file. Returns the first check
    /// that fails, with its values.
    pub fn headers_issue(hs: &Vec<SegmentHeader>, len: usize) -> (r: Option<LoadSegmentsIssue>)
        ensures
            r is None <==> headers_valid(hs@, len as int),
            r is Some && !(r matches Some(LoadSegmentsIssue::OutsideFile { .. }))
                ==> !load_segments_valid(load_filter(hs@)),
            r matches Some(LoadSegmentsIssue::OutsideFile { header, offset, filesz }) ==> header
                < hs@.len() && offset == hs@[header as int].p_offset && filesz == hs@[
                header as int].p_filesz && offset + filesz > len,
            !(r matches Some(LoadSegmentsIssue::NoProgramHeaders)),
    {
        let ls = Self::filter_load(hs);
        let issue = Self::load_segments_issue(&ls);
        if issue.is_some() {
            return issue;
        }
        let mut i: usize = 0;
        while i < hs.len()
            invariant
                i <= hs@.len(),
                load_segments_valid(load_filter(hs@)),
                forall|j: int| 0 <= j < i ==> #[trigger] in_file(hs@[j], len as int),
            decreases hs@.len() - i,
        {
            let h = hs[i];
            let in_range = match h.p_offset.checked_add(h.p_filesz) {
                Some(end) => end <= len as u64,
                None => false,
            };
            if !in_range {
                assert(!in_file(hs@[i as int], len as int));
                return Some(
                    LoadSegmentsIssue::OutsideFile { header: i, offset: h.p_offset, filesz: h.p_filesz },
                );
            }
            i = i + 1;
        }
        None
    }

    /// Performs the checks of [`Self::headers_issue`].
    fn check_elf(hs: &Vec<SegmentHeader>, len: usize) -> (r: Result<(), KernelFileError>)
        ensures
            r is Ok <==> headers_valid(hs@, len as int),
            r is Err ==> r->Err_0 is InvalidLoadSegments,
    {
        match Self::headers_issue(hs, len) {
            None => Ok(()),
            Some(_) => Err(KernelFileError::InvalidLoadSegments),
        }
    }

    /// The headers with the given raw fields.
    fn headers_from_raw(raw: &Vec<RawProgramHeader>) -> (r: Vec<SegmentHeader>)
        ensures
            headers_view(r@) == raw@,
    {
        let mut headers: Vec<SegmentHeader> = Vec::new();
        let mut i: usize = 0;
        while i < raw.len()
            invariant
                i <= raw@.len(),
                headers@.len() == i,
                headers_view(headers@) == raw@.subrange(0, i as int),
            decreases raw@.len() - i,
        {
            let ghost prev = headers@;
            headers.push(SegmentHeader::from_raw(raw[i]));
            proof {
                let hv = headers_view(headers@);
                let want = raw@.subrange(0, i as int + 1);
                assert forall|j: int| 0 <= j < i + 1 implies hv[j] == want[j] by {
                    if j < i {
                        assert(headers@[j] == prev[j]);
                        assert(headers_view(prev)[j] == raw@.subrange(0, i as int)[j]);
                    }
                }
                assert(hv =~= want);
            }
            i = i + 1;
        }
        assert(raw@.subrange(0, raw@.len() as int) =~= raw@);
        headers
    }

    /// Says which check [`Self::from_bytes`] fails on `elf_bytes`, with the
    /// values it found: `None` if it accepts them or they are no valid ELF file.
    pub fn diagnose(elf_bytes: &[u8]) -> (r: Option<LoadSegmentsIssue>)
        ensures
            r is Some <==> elf_parse(elf_bytes@) is Some && !(Self::from_bytes_accepts(elf_bytes@)),
            r == Some(LoadSegmentsIssue::NoProgramHeaders) <==> elf_parse(elf_bytes@) matches Some(
                (_, None),
            ),
    {
        let (_, raw) = match parse_elf(elf_bytes) {
            Ok(p) => p,
            Err(_) => {
                return None;
            },
        };
        let raw = match raw {
            Some(raw) => raw,
            None => {
                return Some(LoadSegmentsIssue::NoProgramHeaders);
            },
        };
        let headers = Self::headers_from_raw(&raw);
        proof {
            lemma_headers_view_injective(headers@);
        }
        Self::headers_issue(&headers, elf_bytes.len())
    }

    /// Whether [`Self::from_bytes`] accepts `bytes`.
    pub open spec fn from_bytes_accepts(bytes: Seq<u8>) -> bool {
        &&& elf_parse(bytes) matches Some((_, Some(raw)))
        &&& exists|hs: Seq<SegmentHeader>| headers_view(hs) == raw && headers_valid(hs, bytes.len() as int)
    }

    /// Creates a new kernel file wrapper and performs checks on the provided
    /// ELF.
    pub fn from_bytes(elf_bytes: &'a [u8]) -> (r: Result<Self, KernelFileError>)
        ensures
            elf_parse(elf_bytes@) is None <==> r matches Err(KernelFileError::InvalidElf(_)),
            r is Ok <==> Self::from_bytes_accepts(elf_bytes@),
            r is Ok ==> ({
                let k = r->Ok_0;
                &&& k.wf()
                &&& k.bytes() == elf_bytes@
                &&& elf_parse(elf_bytes@) == Some((k.spec_entry(), Some(headers_view(k.headers()))))
            }),
    {
        let parsed = parse_elf(elf_bytes);
        let (entry, raw) = match parsed {
            Ok(p) => p,
            Err(e) => {
                return Err(KernelFileError::InvalidElf(e));
            },
        };
        let raw = match raw {
            Some(raw) => raw,
            None => {
                return Err(KernelFileError::InvalidLoadSegments);
            },
        };
        let headers = Self::headers_from_raw(&raw);
        proof {
            lemma_headers_view_injective(headers@);
        }
        match Self::check_elf(&headers, elf_bytes.len()) {
            Ok(()) => Ok(KernelFile { elf_bytes, entry, headers }),
            Err(e) => Err(e),
        }
    }
}

/// The file contents of segment `h` in the image `bytes`.
pub open spec fn segment_data(bytes: Seq<u8>, h: SegmentHeader) -> Seq<u8> {
    bytes.subrange(h.p_offset as int, h.p_offset + h.p_filesz)
}

/// The sum of the memory sizes of `ls`, each rounded up to 2 MiB.
pub open spec fn runtime_memsize(ls: Seq<SegmentHeader>) -> int
    decreases ls.len(),
{
    if ls.len() == 0 {
        0
    } else {
        runtime_memsize(ls.drop_last()) + align_up_2mib(ls.last().p_memsz as int)
    }
}

/// Rounding up an offset from a 2 MiB aligned base keeps the base.
pub proof fn lemma_align_up_from_aligned(base: int, x: int)
    requires
        base >= 0,
        x >= 0,
        base % (TWO_MIB as int) == 0,
    ensures
        align_up_2mib(base + x) == base + align_up_2mib(x),
{
    let m = TWO_MIB as int;
    vstd::arithmetic::div_mod::lemma_add_mod_noop(base, x, m);
    vstd::arithmetic::div_mod::lemma_mod_twice(x, m);
}

/// A valid kernel image has exactly three LOAD segments; their virtual
/// addresses are 2 MiB aligned and, where no segment is empty, strictly
/// increasing.
pub proof fn lemma_valid_load_segments_ordered(ls: Seq<SegmentHeader>)
    requires
        load_segments_valid(ls),
        forall|i: int| 0 <= i < ls.len() ==> #[trigger] ls[i].p_memsz > 0,
    ensures
        ls.len() == 3,
        forall|i: int| 0 <= i < 3 ==> #[trigger] ls[i].p_vaddr % (TWO_MIB as u64) == 0,
        ls[0].p_vaddr < ls[1].p_vaddr < ls[2].p_vaddr,
{
    lemma_align_up_2mib(ls[0].p_vaddr + ls[0].p_memsz);
    lemma_align_up_2mib(ls[1].p_vaddr + ls[1].p_memsz);
    assert(ls[1].p_vaddr == segment_end_2mib(ls[0]));
    assert(ls[2].p_vaddr == segment_end_2mib(ls[1]));
    assert(ls[0].p_memsz > 0 && ls[1].p_memsz > 0);
}

/// An image whose program headers meet the loader's rules (all contents
/// inside the file, three LOAD segments as the kernel is linked) is accepted by
/// [`KernelFile::from_bytes`], and its LOAD segments, where none is empty, lie
/// at strictly increasing 2 MiB aligned addresses.
pub proof fn lemma_valid_image_accepted(bytes: Seq<u8>, entry: u64, hs: Seq<SegmentHeader>)
    requires
        elf_parse(bytes) == Some((entry, Some(headers_view(hs)))),
        headers_valid(hs, bytes.len() as int),
        forall|i: int| 0 <= i < load_filter(hs).len() ==> #[trigger] load_filter(hs)[i].p_memsz > 0,
    ensures
        KernelFile::from_bytes_accepts(bytes),
        load_filter(hs).len() == 3,
        forall|i: int| 0 <= i < 3 ==> #[trigger] load_filter(hs)[i].p_vaddr % (TWO_MIB as u64) == 0,
        load_filter(hs)[0].p_vaddr < load_filter(hs)[1].p_vaddr < load_filter(hs)[2].p_vaddr,
{
    lemma_valid_load_segments_ordered(load_filter(hs));
}

/// A set of LOAD segments that lacks an execute+read, a write+read or a
/// read-only segment, that does not have exactly three members, or whose
/// members are not contiguous in virtual memory is refused.
pub proof fn lemma_invalid_layout_refused(ls: Seq<SegmentHeader>)
    requires
        !has_flags(ls, PF_R | PF_X) || !has_flags(ls, PF_R | PF_W) || !has_read_only(ls)
            || ls.len() != 3 || exists|i: int|
            0 <= i < ls.len() - 1 && ls[i + 1].p_vaddr != #[trigger] segment_end_2mib(ls[i]),
    ensures
        !load_segments_valid(ls),
{
}

impl<'a> KernelFile<'a> {
    /// Returns the segments of the ELF file.
    ///
    /// For all segments, the corresponding content is emitted as well.
    pub fn segments(&self) -> (r: Vec<(SegmentHeader, &'a [u8])>)
        requires
            self.wf(),
        ensures
            r@.len() == self.headers().len(),
            forall|i: int|
                0 <= i < r@.len() ==> (#[trigger] r@[i]).0 == self.headers()[i] && r@[i].1@
                    == segment_data(self.bytes(), self.headers()[i]) && r@[i].1@.len()
                    == self.headers()[i].p_filesz,
    {
        let mut out: Vec<(SegmentHeader, &'a [u8])> = Vec::new();
        let mut i: usize = 0;
        while i < self.headers.len()
            invariant
                self.wf(),
                i <= self.headers@.len(),
                out@.len() == i,
                forall|j: int|
                    0 <= j < i ==> (#[trigger] out@[j]).0 == self.headers()[j] && out@[j].1@
                        == segment_data(self.bytes(), self.headers()[j]) && out@[j].1@.len()
                        == self.headers()[j].p_filesz,
            decreases self.headers@.len() - i,
        {
            let h = self.headers[i];
            assert(in_file(self.headers()[i as int], self.bytes().len() as int));
            assert(h == self.headers()[i as int]);
            let n = self.elf_bytes.len();
            assert(h.p_offset + h.p_filesz <= n);
            let start = h.p_offset as usize;
            let end = (h.p_offset + h.p_filesz) as usize;
            let data: &'a [u8] = slice_subrange(self.elf_bytes, start, end);
            out.push((h, data));
            i = i + 1;
        }
        out
    }

    /// Returns the LOAD segments of the ELF file.
    ///
    /// Filtered version of [`Self::segments`].
    pub fn load_segments(&self) -> (r: Vec<(SegmentHeader, &'a [u8])>)
        requires
            self.wf(),
        ensures
            r@.len() == load_filter(self.headers()).len(),
            forall|i: int|
                0 <= i < r@.len() ==> (#[trigger] r@[i]).0 == load_filter(self.headers())[i]
                    && r@[i].1@ == segment_data(self.bytes(), r@[i].0) && r@[i].1@.len()
                    == r@[i].0.p_filesz,
    {
        let all = self.segments();
        let mut out: Vec<(SegmentHeader, &'a [u8])> = Vec::new();
        let mut i: usize = 0;
        while i < all.len()
            invariant
                all@.len() == self.headers().len(),
                forall|j: int|
                    0 <= j < all@.len() ==> (#[trigger] all@[j]).0 == self.headers()[j]
                        && all@[j].1@ == segment_data(self.bytes(), self.headers()[j])
                        && all@[j].1@.len() == self.headers()[j].p_filesz,
                i <= all@.len(),
                out@.len() == load_filter(self.headers().subrange(0, i as int)).len(),
                forall|j: int|
                    0 <= j < out@.len() ==> (#[trigger] out@[j]).0 == load_filter(
                        self.headers().subrange(0, i as int),
                    )[j] && out@[j].1@ == segment_data(self.bytes(), out@[j].0) && out@[j].1@.len()
                        == out@[j].0.p_filesz,
            decreases all@.len() - i,
        {
            let (h, data) = all[i];
            let ghost prev = out@;
            proof {
                let s = self.headers().subrange(0, i as int + 1);
                assert(s.drop_last() =~= self.headers().subrange(0, i as int));
                assert(s.last() == h);
                reveal(Seq::filter);
            }
            if h.p_type == PT_LOAD {
                out.push((h, data));
                proof {
                    assert forall|j: int| 0 <= j < out@.len() implies (#[trigger] out@[j]).0
                        == load_filter(self.headers().subrange(0, i as int + 1))[j] && out@[j].1@
                        == segment_data(self.bytes(), out@[j].0) && out@[j].1@.len()
                        == out@[j].0.p_filesz by {
                        if j < prev.len() {
                            assert(out@[j] == prev[j]);
                        }
                    }
                }
            }
            i = i + 1;
        }
        assert(self.headers().subrange(0, self.headers().len() as int) =~= self.headers());
        out
    }

    /// Returns the virtual start address of the kernel: that of its first
    /// LOAD segment.
    ///
    /// Do not confuse this with [`Self::entry`] which is not guaranteed to be
    /// the same!
    pub fn virt_start(&self) -> (r: VirtAddress)
        requires
            self.wf(),
        ensures
            r.0 == load_filter(self.headers())[0].p_vaddr,
            r.0 == KERNEL_LINK_ADDR,
    {
        let ls = Self::filter_load(&self.headers);
        VirtAddress(ls[0].p_vaddr)
    }

    /// Returns the total memsize the kernel will use at runtime when it is
    /// mapped continuously into physical memory: the memory size of each LOAD
    /// segment rounded up to 2 MiB, summed up.
    pub fn total_runtime_memsize(&self) -> (r: u64)
        requires
            self.wf(),
        ensures
            r == runtime_memsize(load_filter(self.headers())),
    {
        let ls = Self::filter_load(&self.headers);
        let ghost g = ls@;
        proof {
            assert(g.len() == 3);
            assert(g.drop_last().drop_last().drop_last() =~= Seq::<SegmentHeader>::empty());
            assert(g.drop_last().drop_last().last() == g[0]);
            assert(g.drop_last().last() == g[1]);
            assert(g.last() == g[2]);
            lemma_align_up_2mib(g[0].p_memsz as int);
            lemma_align_up_2mib(g[1].p_memsz as int);
            lemma_align_up_2mib(g[2].p_memsz as int);
            assert(g[0].p_vaddr % (TWO_MIB as u64) == 0);
            assert(g[1].p_vaddr % (TWO_MIB as u64) == 0);
            assert(g[2].p_vaddr % (TWO_MIB as u64) == 0);
            lemma_align_up_from_aligned(g[0].p_vaddr as int, g[0].p_memsz as int);
            lemma_align_up_from_aligned(g[1].p_vaddr as int, g[1].p_memsz as int);
            lemma_align_up_from_aligned(g[2].p_vaddr as int, g[2].p_memsz as int);
            assert(g[1].p_vaddr == segment_end_2mib(g[0]));
            assert(g[2].p_vaddr == segment_end_2mib(g[1]));
            assert(segment_end_2mib(g[2]) <= u64::MAX);
            reveal_with_fuel(runtime_memsize, 4);
        }
        let s0 = checked_align_up_2mib(ls[0].p_memsz).unwrap();
        let s1 = checked_align_up_2mib(ls[1].p_memsz).unwrap();
        let s2 = checked_align_up_2mib(ls[2].p_memsz).unwrap();
        s0 + s1 + s2
    }

    /// Returns the address of the entry symbol.
    pub fn entry(&self) -> (r: VirtAddress)
        ensures
            r.0 == self.spec_entry(),
    {
        VirtAddress(self.entry)
    }
}

/// Headers are determined by their raw fields.
proof fn lemma_headers_view_injective(hs: Seq<SegmentHeader>)
    ensures
        forall|gs: Seq<SegmentHeader>| #[trigger] headers_view(gs) == headers_view(hs) ==> gs == hs,
{
    assert forall|gs: Seq<SegmentHeader>| #[trigger] headers_view(gs) == headers_view(hs) implies gs == hs by {
        assert(gs.len() == headers_view(gs).len());
        assert forall|i: int| 0 <= i < gs.len() implies gs[i] == hs[i] by {
            assert(headers_view(gs)[i] == gs[i]@);
            assert(headers_view(hs)[i] == hs[i]@);
        }
        assert(gs =~= hs);
    }
}

} // verus!
