//! Loading the kernel: physical layout of its LOAD segments and the page
//! tables of its address space.
//!
//! The loader runs with an identity mapping, so the address of a buffer is its
//! physical address.

use vstd::prelude::*;

use crate::kernel_file::{
    align_up_2mib, checked_align_up_2mib, lemma_align_up_2mib, load_filter, runtime_memsize,
    segment_data, KernelFile, PF_W, PF_X,
};
use crate::mapper::{
    is_huge, lemma_huge_failure_witness, lemma_huge_on_walk_fails, lemma_map_failure_only_huge,
    lemma_mapping_kept, lemma_walk_kept, lemma_walk_same_indices, lemma_walk_same_way, map_address,
    same_huge_slot, MapError, PageTableArena,
};
use crate::mem::AlignedBuffer;
use crate::paging::{
    le_byte, lemma_entry_round_trip, step_entry, step_flags, table_index, PhysAddress, VirtAddress,
    PAGE_MASK,
    PHYS_ADDR_LIMIT,
};
use crate::sizes::TWO_MIB;

verus! {

/// Number of page-table slots reserved for the kernel's address space: one
/// root, two tables for each of the three LOAD segments, three for the
/// trampoline, and some to spare.
pub const PAGE_TABLE_SLOTS: usize = 16;

/// Why the kernel's address space could not be built.
#[derive(Clone, Copy, Debug, PartialEq, Eq, Structural)]
pub enum LoaderError {
    /// A mapping could not be made.
    Mapping(MapError),
    /// A buffer lies outside the physical address space that page tables can
    /// reach, or is too large for this machine.
    AddressOutOfRange,
}

/// The kernel's address space, ready to be activated.
///
/// All memory in here must stay where it is for the kernel's lifetime: it is
/// referenced by the page tables.
#[derive(Debug)]
pub struct KernelAddressSpace {
    /// Physical address of the root page table (the new CR3 value).
    pub root: PhysAddress,
    /// The page tables of the address space.
    pub arena: PageTableArena,
    /// The memory that backs the page tables: slot `i` of the arena at byte
    /// `4096 * i`.
    pub page_tables: AlignedBuffer<u8>,
    /// The LOAD segments of the kernel, each at a 2 MiB aligned offset.
    pub image: AlignedBuffer<u8>,
}

/// The offset in the image buffer of the `i`-th LOAD segment of `ls`.
pub open spec fn segment_offset(ls: Seq<crate::kernel_file::SegmentHeader>, i: int) -> int {
    runtime_memsize(ls.subrange(0, i))
}

/// The entry that maps segment `i` of `ls` when the image buffer starts at
/// `start`: a 2 MiB page, writable and executable as the segment's flags say.
pub open spec fn segment_entry(
    ls: Seq<crate::kernel_file::SegmentHeader>,
    i: int,
    start: int,
) -> crate::paging::PageTableEntry {
    step_entry(
        (start + segment_offset(ls, i)) as u64,
        ls[i].p_flags & PF_W != 0,
        true,
        ls[i].p_flags & PF_X == 0,
    )
}

/// The entry of a segment is a present 2 MiB page to the segment's copy,
/// writable exactly if the segment is, and execute-disable exactly if the
/// segment is not executable, when the copy lies in the physical address
/// space.
pub proof fn lemma_segment_entry_rights(
    ls: Seq<crate::kernel_file::SegmentHeader>,
    i: int,
    start: int,
)
    requires
        0 <= i < ls.len(),
        start >= 0,
        start % (TWO_MIB as int) == 0,
        start + runtime_memsize(ls) < PHYS_ADDR_LIMIT,
    ensures
        ({
            let e = segment_entry(ls, i, start);
            let f = crate::paging::decode_flags(e.0);
            &&& f.present && f.hugepage
            &&& f.write == (ls[i].p_flags & PF_W != 0)
            &&& f.execute_disable == (ls[i].p_flags & PF_X == 0)
            &&& e.0 & crate::paging::ENTRY_ADDR_MASK == start + segment_offset(ls, i)
        }),
{
    lemma_segment_offsets(ls, i);
    let a = start + segment_offset(ls, i);
    vstd::arithmetic::div_mod::lemma_add_mod_noop(start, segment_offset(ls, i), TWO_MIB as int);
    let x = a as u64;
    assert(x % 4096 == 0) by (bit_vector)
        requires
            x % 0x200000 == 0,
    ;
    lemma_entry_round_trip(
        a as u64,
        step_flags(ls[i].p_flags & PF_W != 0, true, ls[i].p_flags & PF_X == 0),
    );
}

/// Whether no segment after `i` in `ls` uses the level-2 slot of segment `i`.
pub open spec fn slot_not_reused(ls: Seq<crate::kernel_file::SegmentHeader>, i: int, end: int) -> bool {
    forall|m: int| i < m < end ==> !same_huge_slot(#[trigger] ls[m].p_vaddr, ls[i].p_vaddr)
}

/// Whether the huge page in slot `j` of table `x` of `a` maps one of the first
/// `n` segments of `ls`, walking from table 0.
pub open spec fn huge_page_of_segment(
    a: PageTableArena,
    ls: Seq<crate::kernel_file::SegmentHeader>,
    x: int,
    j: int,
    n: int,
) -> bool {
    exists|k: int|
        0 <= k < n && #[trigger] a.walk_to(0, ls[k].p_vaddr, 4, 2) == Some(x) && j == table_index(
            ls[k].p_vaddr,
            2,
        )
}

/// A prefix of the segments takes one more segment's rounded size more than
/// the prefix one shorter, and the total is a multiple of 2 MiB.
proof fn lemma_segment_offsets(ls: Seq<crate::kernel_file::SegmentHeader>, i: int)
    requires
        0 <= i <= ls.len(),
    ensures
        segment_offset(ls, i) % (TWO_MIB as int) == 0,
        0 <= segment_offset(ls, i) <= runtime_memsize(ls),
        i < ls.len() ==> segment_offset(ls, i + 1) == segment_offset(ls, i) + align_up_2mib(
            ls[i].p_memsz as int,
        ),
    decreases ls.len() - i,
{
    if i < ls.len() {
        let s = ls.subrange(0, i + 1);
        assert(s.drop_last() =~= ls.subrange(0, i));
        assert(s.last() == ls[i]);
        lemma_align_up_2mib(ls[i].p_memsz as int);
        lemma_segment_offsets(ls, i + 1);
        vstd::arithmetic::div_mod::lemma_add_mod_noop(
            segment_offset(ls, i),
            align_up_2mib(ls[i].p_memsz as int),
            TWO_MIB as int,
        );
    } else {
        assert(ls.subrange(0, i) =~= ls);
    }
    lemma_runtime_memsize_aligned(ls.subrange(0, i));
}

/// The rounded sizes are multiples of 2 MiB, and so is their sum.
proof fn lemma_runtime_memsize_aligned(ls: Seq<crate::kernel_file::SegmentHeader>)
    ensures
        runtime_memsize(ls) % (TWO_MIB as int) == 0,
        runtime_memsize(ls) >= 0,
    decreases ls.len(),
{
    if ls.len() > 0 {
        lemma_runtime_memsize_aligned(ls.drop_last());
        lemma_align_up_2mib(ls.last().p_memsz as int);
        vstd::arithmetic::div_mod::lemma_add_mod_noop(
            runtime_memsize(ls.drop_last()),
            align_up_2mib(ls.last().p_memsz as int),
            TWO_MIB as int,
        );
    }
}

/// Whether the buffers of the page tables (at `tables_start`) and of the image
/// (at `image_start`, `total` bytes) and the trampoline's page lie in the
/// physical address space that page tables can reach.
pub open spec fn addresses_in_range(
    tables_start: int,
    image_start: int,
    total: int,
    trampoline_addr: u64,
) -> bool {
    &&& tables_start + 4096 * PAGE_TABLE_SLOTS <= PHYS_ADDR_LIMIT
    &&& image_start + total < PHYS_ADDR_LIMIT
    &&& (trampoline_addr & !(PAGE_MASK as u64)) < PHYS_ADDR_LIMIT
}

/// Whether the trampoline at `trampoline_addr` lies in the 2 MiB page of one of
/// the segments `ls`.
pub open spec fn trampoline_in_segment_page(
    ls: Seq<crate::kernel_file::SegmentHeader>,
    trampoline_addr: u64,
) -> bool {
    exists|i: int| 0 <= i < ls.len() && same_huge_slot(trampoline_addr, #[trigger] ls[i].p_vaddr)
}

/// What a built address space holds for the kernel image `bytes` with program
/// headers `headers` and the trampoline at `trampoline_addr`: the segments
/// copied to their 2 MiB aligned offsets and mapped as 2 MiB pages with their
/// rights, the trampoline's page mapped at its own address, and the page
/// tables written to their memory.
pub open spec fn address_space_built(
    space: KernelAddressSpace,
    headers: Seq<crate::kernel_file::SegmentHeader>,
    bytes: Seq<u8>,
    trampoline_addr: u64,
) -> bool {
    let ls = load_filter(headers);
    &&& space.arena.wf()
    &&& space.arena.is_root(space.root.0)
    &&& space.root.0 == space.arena.spec_base()
    &&& space.image.wf()
    &&& space.image.spec_start() as int % (TWO_MIB as int) == 0
    &&& space.image@.len() == runtime_memsize(ls)
    &&& addresses_in_range(
        space.page_tables.spec_start() as int,
        space.image.spec_start() as int,
        runtime_memsize(ls),
        trampoline_addr,
    )
    &&& forall|i: int|
        0 <= i < ls.len() ==> #[trigger] space.image@.subrange(
            segment_offset(ls, i),
            segment_offset(ls, i) + ls[i].p_filesz,
        ) == segment_data(bytes, ls[i])
    &&& forall|i: int|
        0 <= i < ls.len() && slot_not_reused(ls, i, ls.len() as int)
            ==> #[trigger] space.arena.mapping_of(space.root.0, ls[i].p_vaddr, 2) == Some(
            segment_entry(ls, i, space.image.spec_start() as int),
        )
    &&& space.arena.mapping_of(space.root.0, trampoline_addr, 1) == Some(
        step_entry(trampoline_addr & !(PAGE_MASK as u64), false, false, false),
    )
    &&& space.page_tables.wf()
    &&& space.page_tables.spec_start() == space.arena.spec_base()
    &&& forall|i: int|
        0 <= i < 4096 * space.arena.len() ==> #[trigger] space.page_tables@[i] == le_byte(
            space.arena.spec_tables()[i / 4096]@[(i % 4096) / 8].0,
            (i % 4096) % 8,
        )
}

/// Prepares the page tables for the kernel in ELF format.
///
/// Allocates the memory of the page tables and a 2 MiB aligned buffer for the
/// LOAD segments, then builds the address space in them with
/// [`build_address_space`]. Where the allocator puts the buffers decides
/// whether they can be reached by page tables.
///
/// ## Page Table Format
/// This uses x86_64 4-level page tables.
pub fn setup_page_tables(
    kernel: &KernelFile<'_>,
    trampoline_addr: VirtAddress,
    _boot_information: VirtAddress,
) -> (r: Result<KernelAddressSpace, LoaderError>)
    requires
        kernel.wf(),
    ensures
        runtime_memsize(load_filter(kernel.headers())) > usize::MAX - TWO_MIB ==> r == Err::<
            KernelAddressSpace,
            LoaderError,
        >(LoaderError::AddressOutOfRange),
        (trampoline_addr.0 & !(PAGE_MASK as u64)) >= PHYS_ADDR_LIMIT ==> r == Err::<
            KernelAddressSpace,
            LoaderError,
        >(LoaderError::AddressOutOfRange),
        r matches Err(LoaderError::Mapping(e)) ==> e == MapError::HugePageInTheWay
            && trampoline_in_segment_page(load_filter(kernel.headers()), trampoline_addr.0),
        trampoline_in_segment_page(load_filter(kernel.headers()), trampoline_addr.0) ==> r is Err,
        r matches Ok(space) ==> address_space_built(
            space,
            kernel.headers(),
            kernel.bytes(),
            trampoline_addr.0,
        ),
{
    let total = kernel.total_runtime_memsize();
    if total > (usize::MAX - TWO_MIB) as u64 {
        return Err(LoaderError::AddressOutOfRange);
    }
    let page_tables = AlignedBuffer::new(PAGE_TABLE_SLOTS * 4096, 4096);
    let image = AlignedBuffer::new(total as usize, TWO_MIB);
    build_address_space(kernel, trampoline_addr, page_tables, image)
}

/// Builds the kernel's address space in the memory `page_tables` (for the page
/// tables) and `image` (for the LOAD segments).
///
/// Copies the kernel's LOAD segments into `image`, each at the next 2 MiB
/// aligned offset, and maps each with a 2 MiB huge page at its virtual
/// address, writable and executable as its flags say. Then maps the 4 KiB page
/// of the trampoline at its own address, executable and read-only. Finally
/// writes the page tables into `page_tables`.
///
/// Fails if a buffer or the trampoline's page is out of reach of page tables,
/// or if the trampoline lies in the 2 MiB page of a segment.
#[verifier::rlimit(60)]
pub fn build_address_space(
    kernel: &KernelFile<'_>,
    trampoline_addr: VirtAddress,
    page_tables: AlignedBuffer<u8>,
    image: AlignedBuffer<u8>,
) -> (r: Result<KernelAddressSpace, LoaderError>)
    requires
        kernel.wf(),
        page_tables.wf(),
        page_tables@.len() == PAGE_TABLE_SLOTS * 4096,
        page_tables.spec_alignment() == 4096,
        image.wf(),
        image@.len() == runtime_memsize(load_filter(kernel.headers())),
        image.spec_alignment() == TWO_MIB,
    ensures
        r is Ok <==> addresses_in_range(
            page_tables.spec_start() as int,
            image.spec_start() as int,
            runtime_memsize(load_filter(kernel.headers())),
            trampoline_addr.0,
        ) && !trampoline_in_segment_page(load_filter(kernel.headers()), trampoline_addr.0),
        r == Err::<KernelAddressSpace, LoaderError>(LoaderError::AddressOutOfRange)
            <==> !addresses_in_range(
            page_tables.spec_start() as int,
            image.spec_start() as int,
            runtime_memsize(load_filter(kernel.headers())),
            trampoline_addr.0,
        ),
        r matches Err(LoaderError::Mapping(e)) ==> e == MapError::HugePageInTheWay,
        r matches Ok(space) ==> {
            &&& address_space_built(space, kernel.headers(), kernel.bytes(), trampoline_addr.0)
            &&& space.page_tables.spec_start() == page_tables.spec_start()
            &&& space.image.spec_start() == image.spec_start()
        },
{
    let mut page_tables = page_tables;
    let mut image = image;
    let ghost ls = load_filter(kernel.headers());
    let tables_base = page_tables.start_addr() as u64;
    if tables_base > PHYS_ADDR_LIMIT - (PAGE_TABLE_SLOTS as u64) * 4096 {
        return Err(LoaderError::AddressOutOfRange);
    }
    let total = kernel.total_runtime_memsize();
    let image_len = image.len();
    let image_start = image.start_addr() as u64;
    if total >= PHYS_ADDR_LIMIT || image_start >= PHYS_ADDR_LIMIT - total {
        return Err(LoaderError::AddressOutOfRange);
    }
    // The trampoline: its 4 KiB page, mapped at its current address.
    let trampoline_page = trampoline_addr.0 & !(PAGE_MASK as u64);
    if trampoline_page >= PHYS_ADDR_LIMIT {
        return Err(LoaderError::AddressOutOfRange);
    }
    let mut arena = PageTableArena::new(PhysAddress(tables_base), PAGE_TABLE_SLOTS);
    let root = match arena.new_root() {
        Ok(root) => root,
        Err(e) => {
            proof {
                assert(false);
            }
            return Err(LoaderError::Mapping(e));
        },
    };
    proof {
        assert(arena.table_at(root.0) == Some(0int));
        assert forall|x: int, j: int| 0 <= x < arena.len() && 0 <= j < 512 implies !is_huge(
            #[trigger] arena.spec_tables()[x]@[j],
        ) by {
            assert(x == 0);
        }
    }

    // Huge page mappings for each segment of the kernel, in the aligned buffer
    // that holds all LOAD segments.
    let segments = kernel.load_segments();
    proof {
        lemma_segment_offsets(ls, 0);
        assert(ls.subrange(0, 0) =~= Seq::<crate::kernel_file::SegmentHeader>::empty());
    }
    let mut offset: u64 = 0;
    let mut i: usize = 0;
    while i < segments.len()
        invariant
            kernel.wf(),
            segments@.len() == ls.len(),
            ls == load_filter(kernel.headers()),
            forall|j: int|
                0 <= j < segments@.len() ==> (#[trigger] segments@[j]).0 == ls[j] && segments@[j].1@
                    == segment_data(kernel.bytes(), segments@[j].0) && segments@[j].1@.len()
                    == segments@[j].0.p_filesz,
            i <= segments@.len(),
            offset == segment_offset(ls, i as int),
            total == runtime_memsize(ls),
            total == image_len,
            image.wf(),
            image@.len() == total,
            image.spec_start() == image_start,
            image_start as int % (TWO_MIB as int) == 0,
            image_start + total < PHYS_ADDR_LIMIT,
            forall|j: int|
                0 <= j < i ==> #[trigger] image@.subrange(
                    segment_offset(ls, j),
                    segment_offset(ls, j) + ls[j].p_filesz,
                ) == segment_data(kernel.bytes(), ls[j]),
            arena.wf(),
            arena.is_root(root.0),
            arena.table_at(root.0) == Some(0int),
            arena.spec_base() == tables_base,
            arena.spec_capacity() == PAGE_TABLE_SLOTS,
            arena.len() <= 1 + 2 * i,
            forall|x: int, j: int|
                0 <= x < arena.len() && 0 <= j < 512 && arena.spec_levels()[x] >= 3 ==> !is_huge(
                    #[trigger] arena.spec_tables()[x]@[j],
                ),
            forall|x: int, j: int|
                0 <= x < arena.len() && 0 <= j < 512 && is_huge(#[trigger] arena.spec_tables()[x]@[j])
                    ==> arena.spec_levels()[x] == 2 && huge_page_of_segment(arena, ls, x, j, i as int),
            forall|j: int|
                0 <= j < i && slot_not_reused(ls, j, i as int) ==> #[trigger] arena.mapping_of(
                    root.0,
                    ls[j].p_vaddr,
                    2,
                ) == Some(segment_entry(ls, j, image_start as int)),
        decreases segments@.len() - i,
    {
        let (hdr, data) = segments[i];
        proof {
            lemma_segment_offsets(ls, i as int);
            lemma_segment_offsets(ls, i as int + 1);
            lemma_align_up_2mib(hdr.p_memsz as int);
            assert(hdr.p_filesz == hdr.p_memsz);
        }
        // Step 1/2: Copy segment data to aligned memory
        let ghost before = image@;
        image.copy_from(offset as usize, data);
        proof {
            assert forall|j: int| 0 <= j < i + 1 implies #[trigger] image@.subrange(
                segment_offset(ls, j),
                segment_offset(ls, j) + ls[j].p_filesz,
            ) == segment_data(kernel.bytes(), ls[j]) by {
                if j < i {
                    lemma_segment_offsets(ls, j);
                    lemma_segment_offsets(ls, j + 1);
                    lemma_segment_offsets(ls, i as int);
                    assert forall|k: int|
                        segment_offset(ls, j) <= k < segment_offset(ls, j) + ls[j].p_filesz
                        implies image@[k] == before[k] by {
                        if j + 1 < i {
                            lemma_segment_offsets_grow(ls, j + 1, i as int);
                        }
                        lemma_align_up_2mib(ls[j].p_memsz as int);
                    }
                    assert(image@.subrange(segment_offset(ls, j), segment_offset(ls, j) + ls[j].p_filesz)
                        =~= before.subrange(segment_offset(ls, j), segment_offset(ls, j) + ls[j].p_filesz));
                }
            }
        }

        // Step 2/2: Create mapping to memory
        let phys_addr: u64 = image_start + offset;
        proof {
            vstd::arithmetic::div_mod::lemma_add_mod_noop(
                image_start as int,
                offset as int,
                TWO_MIB as int,
            );
            assert(phys_addr % 4096 == 0) by (bit_vector)
                requires
                    phys_addr % 0x200000 == 0,
            ;
        }
        let write = hdr.p_flags & PF_W != 0;
        let execute = hdr.p_flags & PF_X != 0;
        let ghost a_before = arena;
        proof {
            let free = arena.spec_capacity() - arena.len();
            lemma_map_failure_only_huge(arena, 0, hdr.p_vaddr, 4, 2, free);
            if arena.map_failure(0, hdr.p_vaddr, 4, 2, free) is Some {
                let w = lemma_huge_failure_witness(arena, 0, hdr.p_vaddr, 4, 2, free);
                crate::paging::lemma_table_index_bound(hdr.p_vaddr, w.0);
                assert(!is_huge(arena.spec_tables()[w.1]@[table_index(hdr.p_vaddr, w.0) as int]));
            }
        }
        match map_address(
            &mut arena,
            root,
            VirtAddress(hdr.p_vaddr),
            PhysAddress(phys_addr),
            write,
            execute,
            true,
        ) {
            Ok(()) => {},
            Err(e) => {
                proof {
                    assert(false);
                }
                return Err(LoaderError::Mapping(e));
            },
        }
        proof {
            assert(arena.spec_levels()[0] == a_before.spec_levels()[0]);
            lemma_entry_round_trip(phys_addr, step_flags(write, true, !execute));
            assert forall|x: int, j: int|
                0 <= x < arena.len() && 0 <= j < 512 && arena.spec_levels()[x] >= 3 implies !is_huge(
                #[trigger] arena.spec_tables()[x]@[j],
            ) by {
                if is_huge(arena.spec_tables()[x]@[j]) && x < a_before.len() {
                    assert(arena.spec_levels()[x] == a_before.spec_levels()[x]);
                }
            }
            assert forall|x: int, j: int|
                0 <= x < arena.len() && 0 <= j < 512 && is_huge(
                    #[trigger] arena.spec_tables()[x]@[j],
                ) implies arena.spec_levels()[x] == 2 && huge_page_of_segment(
                arena,
                ls,
                x,
                j,
                i as int + 1,
            ) by {
                if x < a_before.len() && arena.spec_tables()[x]@[j] == a_before.spec_tables()[x]@[j] {
                    assert(arena.spec_levels()[x] == a_before.spec_levels()[x]);
                    assert(huge_page_of_segment(a_before, ls, x, j, i as int));
                    let k = choose|k: int|
                        0 <= k < i && #[trigger] a_before.walk_to(0, ls[k].p_vaddr, 4, 2) == Some(x)
                            && j == table_index(ls[k].p_vaddr, 2);
                    lemma_walk_kept(a_before, arena, root.0, ls[k].p_vaddr, hdr.p_vaddr, 2);
                    assert(arena.walk_to(0, ls[k].p_vaddr, 4, 2) == Some(x));
                } else {
                    assert(arena.walk_to(0, ls[i as int].p_vaddr, 4, 2) == Some(x));
                }
            }
            assert forall|j: int|
                0 <= j < i + 1 && slot_not_reused(ls, j, i as int + 1) implies #[trigger] arena.mapping_of(
                root.0,
                ls[j].p_vaddr,
                2,
            ) == Some(segment_entry(ls, j, image_start as int)) by {
                if j < i {
                    assert(slot_not_reused(ls, j, i as int));
                    assert(!same_huge_slot(ls[i as int].p_vaddr, ls[j].p_vaddr));
                    let e = segment_entry(ls, j, image_start as int);
                    lemma_segment_offsets(ls, j);
                    lemma_segment_offsets_grow(ls, j, i as int);
                    lemma_entry_round_trip(
                        (image_start + segment_offset(ls, j)) as u64,
                        step_flags(ls[j].p_flags & PF_W != 0, true, ls[j].p_flags & PF_X == 0),
                    );
                    assert(!same_huge_slot(ls[j].p_vaddr, ls[i as int].p_vaddr));
                    lemma_mapping_kept(a_before, arena, root.0, ls[j].p_vaddr, hdr.p_vaddr, 2);
                }
            }
        }
        offset = offset + checked_align_up_2mib(hdr.p_memsz).unwrap();
        i = i + 1;
    }

    proof {
        let t = trampoline_addr.0;
        assert((t & !0xfffu64) % 4096 == 0) by (bit_vector);
    }
    let ghost a_before = arena;
    let ghost free = arena.spec_capacity() - arena.len();
    proof {
        lemma_map_failure_only_huge(arena, 0, trampoline_addr.0, 4, 1, free);
        // a huge page on the trampoline's walk is the page of a segment that
        // shares its level-2 slot
        if arena.map_failure(0, trampoline_addr.0, 4, 1, free) is Some {
            let w = lemma_huge_failure_witness(arena, 0, trampoline_addr.0, 4, 1, free);
            let j = table_index(trampoline_addr.0, w.0) as int;
            crate::paging::lemma_table_index_bound(trampoline_addr.0, w.0);
            assert(is_huge(arena.spec_tables()[w.1]@[j]));
            assert(huge_page_of_segment(arena, ls, w.1, j, 3));
            let k = choose|k: int|
                0 <= k < 3 && #[trigger] arena.walk_to(0, ls[k].p_vaddr, 4, 2) == Some(w.1) && j
                    == table_index(ls[k].p_vaddr, 2);
            lemma_walk_same_indices(arena, 0, trampoline_addr.0, ls[k].p_vaddr, 4, 2);
            assert(same_huge_slot(trampoline_addr.0, ls[k].p_vaddr));
        }
        // a segment that shares the trampoline's level-2 slot is in the way
        if exists|k: int| 0 <= k < 3 && same_huge_slot(trampoline_addr.0, #[trigger] ls[k].p_vaddr) {
            let t = trampoline_addr.0;
            let k = if same_huge_slot(t, ls[2].p_vaddr) {
                2int
            } else if same_huge_slot(t, ls[1].p_vaddr) {
                1int
            } else {
                0int
            };
            assert(same_huge_slot(t, ls[k].p_vaddr));
            assert(slot_not_reused(ls, k, 3)) by {
                assert forall|m: int| k < m < 3 implies !same_huge_slot(
                    #[trigger] ls[m].p_vaddr,
                    ls[k].p_vaddr,
                ) by {
                    if same_huge_slot(ls[m].p_vaddr, ls[k].p_vaddr) {
                        assert(same_huge_slot(t, ls[m].p_vaddr));
                    }
                }
            }
            lemma_segment_offsets(ls, k);
            lemma_segment_offsets_grow(ls, k, 3);
            lemma_entry_round_trip(
                (image_start + segment_offset(ls, k)) as u64,
                step_flags(ls[k].p_flags & PF_W != 0, true, ls[k].p_flags & PF_X == 0),
            );
            assert(arena.mapping_of(root.0, ls[k].p_vaddr, 2) == Some(
                segment_entry(ls, k, image_start as int),
            ));
            let x = arena.walk_to(0, ls[k].p_vaddr, 4, 2)->Some_0;
            lemma_walk_same_way(arena, 0, t, ls[k].p_vaddr, 4, 2);
            assert(arena.slot(x, t, 2) == arena.slot(x, ls[k].p_vaddr, 2));
            lemma_huge_on_walk_fails(arena, 0, t, 4, 2, 1, free);
        }
    }
    match map_address(
        &mut arena,
        root,
        trampoline_addr,
        PhysAddress(trampoline_page),
        false,
        true,
        false,
    ) {
        Ok(()) => {},
        Err(e) => {
            return Err(LoaderError::Mapping(e));
        },
    }
    proof {
        assert forall|j: int|
            0 <= j < ls.len() && slot_not_reused(ls, j, ls.len() as int) implies #[trigger] arena.mapping_of(
            root.0,
            ls[j].p_vaddr,
            2,
        ) == Some(segment_entry(ls, j, image_start as int)) by {
            lemma_segment_offsets(ls, j);
            lemma_segment_offsets_grow(ls, j, ls.len() as int);
            lemma_entry_round_trip(
                (image_start + segment_offset(ls, j)) as u64,
                step_flags(ls[j].p_flags & PF_W != 0, true, ls[j].p_flags & PF_X == 0),
            );
            lemma_mapping_kept(a_before, arena, root.0, ls[j].p_vaddr, trampoline_addr.0, 1);
        }
    }

    // Write the page tables into their memory.
    let count = arena.table_count();
    let mut t: usize = 0;
    while t < count
        invariant
            count == arena.len(),
            arena.len() <= PAGE_TABLE_SLOTS,
            t <= count,
            page_tables.wf(),
            page_tables@.len() == PAGE_TABLE_SLOTS * 4096,
            forall|i: int|
                0 <= i < 4096 * t ==> #[trigger] page_tables@[i] == le_byte(
                    arena.spec_tables()[i / 4096]@[(i % 4096) / 8].0,
                    (i % 4096) % 8,
                ),
            page_tables.spec_start() == tables_base,
        decreases count - t,
    {
        let page = arena.table(t).as_page();
        let ghost before = page_tables@;
        page_tables.copy_from(4096 * t, page.0.as_slice());
        proof {
            assert forall|i: int| 0 <= i < 4096 * (t + 1) implies #[trigger] page_tables@[i]
                == le_byte(
                arena.spec_tables()[i / 4096]@[(i % 4096) / 8].0,
                (i % 4096) % 8,
            ) by {
                if i >= 4096 * t {
                    let k = i - 4096 * t;
                    assert(page_tables@[i] == page_tables@.subrange(
                        4096 * t as int,
                        4096 * t + 4096,
                    )[k]);
                    assert(i / 4096 == t as int && i % 4096 == k) by (nonlinear_arith)
                        requires
                            k == i - 4096 * t,
                            0 <= k < 4096,
                    ;
                } else {
                    assert(page_tables@[i] == before[i]);
                }
            }
        }
        t = t + 1;
    }
    proof {
        assert(arena.spec_levels()[0] == 4);
    }
    Ok(KernelAddressSpace { root, arena, page_tables, image })
}

/// Offsets of later segments are not below those of earlier ones.
proof fn lemma_segment_offsets_grow(ls: Seq<crate::kernel_file::SegmentHeader>, a: int, b: int)
    requires
        0 <= a <= b <= ls.len(),
    ensures
        segment_offset(ls, a) <= segment_offset(ls, b),
    decreases b - a,
{
    if a < b {
        lemma_segment_offsets(ls, a);
        lemma_align_up_2mib(ls[a].p_memsz as int);
        lemma_segment_offsets_grow(ls, a + 1, b);
    }
}

} // verus!
