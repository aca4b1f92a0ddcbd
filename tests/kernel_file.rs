use phipsboot::kernel_file::{KernelFile, KernelFileError, LoadSegmentsIssue, PF_R, PF_W, PF_X, PT_LOAD};
use phipsboot::loader::setup_page_tables;
use phipsboot::paging::{PageTableEntry, VirtAddress};
use phipsboot::sizes::TWO_MIB;

const LINK_ADDR: u64 = 0xffff_ffff_8820_0000;

/// One program header: type, flags, file offset, virtual address, file size,
/// memory size.
struct Phdr {
    p_type: u32,
    p_flags: u32,
    offset: u64,
    vaddr: u64,
    filesz: u64,
    memsz: u64,
}

fn put(buf: &mut Vec<u8>, at: usize, bytes: &[u8]) {
    if buf.len() < at + bytes.len() {
        buf.resize(at + bytes.len(), 0);
    }
    buf[at..at + bytes.len()].copy_from_slice(bytes);
}

/// Builds a little-endian ELF64 image with the given program headers; the
/// contents of each segment are bytes of the value `0x10 * (index + 1)`.
fn build_elf(entry: u64, phdrs: &[Phdr]) -> Vec<u8> {
    let mut buf = vec![0u8; 64];
    put(&mut buf, 0, &[0x7f, b'E', b'L', b'F', 2, 1, 1, 0]);
    put(&mut buf, 16, &2u16.to_le_bytes());
    put(&mut buf, 18, &0x3eu16.to_le_bytes());
    put(&mut buf, 20, &1u32.to_le_bytes());
    put(&mut buf, 24, &entry.to_le_bytes());
    put(&mut buf, 32, &64u64.to_le_bytes());
    put(&mut buf, 40, &0u64.to_le_bytes());
    put(&mut buf, 52, &64u16.to_le_bytes());
    put(&mut buf, 54, &56u16.to_le_bytes());
    put(&mut buf, 56, &(phdrs.len() as u16).to_le_bytes());
    for (i, p) in phdrs.iter().enumerate() {
        let at = 64 + 56 * i;
        put(&mut buf, at, &p.p_type.to_le_bytes());
        put(&mut buf, at + 4, &p.p_flags.to_le_bytes());
        put(&mut buf, at + 8, &p.offset.to_le_bytes());
        put(&mut buf, at + 16, &p.vaddr.to_le_bytes());
        put(&mut buf, at + 24, &p.vaddr.to_le_bytes());
        put(&mut buf, at + 32, &p.filesz.to_le_bytes());
        put(&mut buf, at + 40, &p.memsz.to_le_bytes());
        put(&mut buf, at + 48, &0x20_0000u64.to_le_bytes());
    }
    for (i, p) in phdrs.iter().enumerate() {
        let data = vec![0x10 * (i as u8 + 1); p.filesz as usize];
        put(&mut buf, p.offset as usize, &data);
    }
    buf
}

fn load(flags: u32, index: u64, vaddr: u64, size: u64) -> Phdr {
    Phdr {
        p_type: PT_LOAD,
        p_flags: flags,
        offset: 0x1000 * (index + 1),
        vaddr,
        filesz: size,
        memsz: size,
    }
}

/// RX at the link address, RW and RO following, 2 MiB apart.
fn valid_phdrs() -> Vec<Phdr> {
    vec![
        load(PF_R | PF_X, 0, LINK_ADDR, 0x30),
        load(PF_R | PF_W, 1, LINK_ADDR + 0x20_0000, 0x20),
        load(PF_R, 2, LINK_ADDR + 0x40_0000, 0x10),
    ]
}

#[test]
fn valid_image_has_three_increasing_aligned_load_segments() {
    let bytes = build_elf(LINK_ADDR + 0x10, &valid_phdrs());
    let kernel = KernelFile::from_bytes(&bytes).unwrap();
    let segments = kernel.load_segments();
    assert_eq!(segments.len(), 3);
    for (hdr, _) in &segments {
        assert_eq!(hdr.p_vaddr % TWO_MIB as u64, 0);
    }
    assert!(segments[0].0.p_vaddr < segments[1].0.p_vaddr);
    assert!(segments[1].0.p_vaddr < segments[2].0.p_vaddr);
    assert_eq!(segments[0].1, &[0x10u8; 0x30][..]);
    assert_eq!(segments[1].1, &[0x20u8; 0x20][..]);
    assert_eq!(segments[2].1, &[0x30u8; 0x10][..]);
    assert_eq!(kernel.virt_start(), VirtAddress(LINK_ADDR));
    assert_eq!(kernel.entry(), VirtAddress(LINK_ADDR + 0x10));
    assert_eq!(kernel.total_runtime_memsize(), 3 * TWO_MIB as u64);
}

#[test]
fn segments_include_other_program_headers() {
    let mut phdrs = valid_phdrs();
    phdrs.push(Phdr { p_type: 0x6474e551, p_flags: PF_R | PF_W, offset: 0, vaddr: 0, filesz: 0, memsz: 0 });
    let bytes = build_elf(LINK_ADDR, &phdrs);
    let kernel = KernelFile::from_bytes(&bytes).unwrap();
    assert_eq!(kernel.segments().len(), 4);
    assert_eq!(kernel.load_segments().len(), 3);
}

#[test]
fn total_runtime_memsize_rounds_each_segment_up() {
    let phdrs = vec![
        load(PF_R | PF_X, 0, LINK_ADDR, 0x20_0001),
        load(PF_R | PF_W, 1, LINK_ADDR + 0x40_0000, 0x10),
        load(PF_R, 2, LINK_ADDR + 0x60_0000, 0x10),
    ];
    let bytes = build_elf(LINK_ADDR, &phdrs);
    let kernel = KernelFile::from_bytes(&bytes).unwrap();
    assert_eq!(kernel.total_runtime_memsize(), 4 * TWO_MIB as u64);
}

fn expect_invalid_load_segments(phdrs: &[Phdr]) {
    let bytes = build_elf(LINK_ADDR, phdrs);
    assert!(matches!(KernelFile::from_bytes(&bytes), Err(KernelFileError::InvalidLoadSegments)));
}

#[test]
fn missing_read_only_segment_is_refused() {
    expect_invalid_load_segments(&[
        load(PF_R | PF_X, 0, LINK_ADDR, 0x10),
        load(PF_R | PF_W, 1, LINK_ADDR + 0x20_0000, 0x10),
        load(PF_R | PF_W, 2, LINK_ADDR + 0x40_0000, 0x10),
    ]);
}

#[test]
fn missing_executable_segment_is_refused() {
    expect_invalid_load_segments(&[
        load(PF_R, 0, LINK_ADDR, 0x10),
        load(PF_R | PF_W, 1, LINK_ADDR + 0x20_0000, 0x10),
        load(PF_R, 2, LINK_ADDR + 0x40_0000, 0x10),
    ]);
}

#[test]
fn missing_writable_segment_is_refused() {
    expect_invalid_load_segments(&[
        load(PF_R | PF_X, 0, LINK_ADDR, 0x10),
        load(PF_R, 1, LINK_ADDR + 0x20_0000, 0x10),
        load(PF_R, 2, LINK_ADDR + 0x40_0000, 0x10),
    ]);
}

#[test]
fn four_load_segments_are_refused() {
    let mut phdrs = valid_phdrs();
    phdrs.push(load(PF_R, 3, LINK_ADDR + 0x60_0000, 0x10));
    expect_invalid_load_segments(&phdrs);
}

#[test]
fn two_load_segments_are_refused() {
    expect_invalid_load_segments(&[
        load(PF_R | PF_X, 0, LINK_ADDR, 0x10),
        load(PF_R | PF_W, 1, LINK_ADDR + 0x20_0000, 0x10),
    ]);
}

#[test]
fn non_contiguous_segments_are_refused() {
    expect_invalid_load_segments(&[
        load(PF_R | PF_X, 0, LINK_ADDR, 0x10),
        load(PF_R | PF_W, 1, LINK_ADDR + 0x40_0000, 0x10),
        load(PF_R, 2, LINK_ADDR + 0x60_0000, 0x10),
    ]);
}

#[test]
fn wrong_link_address_is_refused() {
    expect_invalid_load_segments(&[
        load(PF_R | PF_X, 0, LINK_ADDR + 0x20_0000, 0x10),
        load(PF_R | PF_W, 1, LINK_ADDR + 0x40_0000, 0x10),
        load(PF_R, 2, LINK_ADDR + 0x60_0000, 0x10),
    ]);
}

#[test]
fn unaligned_segment_is_refused() {
    expect_invalid_load_segments(&[
        load(PF_R | PF_X, 0, LINK_ADDR, 0x10),
        load(PF_R | PF_W, 1, LINK_ADDR + 0x20_1000, 0x10),
        load(PF_R, 2, LINK_ADDR + 0x40_0000, 0x10),
    ]);
}

#[test]
fn memsize_other_than_filesize_is_refused() {
    let mut phdrs = valid_phdrs();
    phdrs[1].memsz = 0x100;
    expect_invalid_load_segments(&phdrs);
}

#[test]
fn segment_beyond_file_end_is_refused() {
    let mut phdrs = valid_phdrs();
    let bytes_len = build_elf(LINK_ADDR, &phdrs).len() as u64;
    phdrs[2].offset = bytes_len;
    let mut bytes = build_elf(LINK_ADDR, &phdrs);
    bytes.truncate(bytes_len as usize);
    assert!(matches!(KernelFile::from_bytes(&bytes), Err(KernelFileError::InvalidLoadSegments)));
}

#[test]
fn garbage_is_no_elf() {
    let bytes = vec![0x42u8; 256];
    let result = KernelFile::from_bytes(&bytes);
    assert!(matches!(result, Err(KernelFileError::InvalidElf(_))));
    assert_eq!(result.unwrap_err().message(), "kernel is not a valid ELF");
}

/// Reads the entry of `vaddr` at `level` by walking the tables from the root.
fn walk(space: &phipsboot::loader::KernelAddressSpace, vaddr: u64, level: usize) -> PageTableEntry {
    let base = space.arena.base().0;
    let mut table = space.arena.table(((space.root.0 - base) / 4096) as usize);
    let va = VirtAddress(vaddr);
    let mut l = 4;
    while l > level {
        let e = table.entry(va.index(l));
        assert!(e.flags().present);
        assert!(!e.flags().hugepage);
        table = space.arena.table(((e.paddr().0 - base) / 4096) as usize);
        l -= 1;
    }
    table.entry(va.index(level))
}

#[test]
fn setup_page_tables_maps_segments_and_trampoline() {
    let bytes = build_elf(LINK_ADDR + 0x10, &valid_phdrs());
    let kernel = KernelFile::from_bytes(&bytes).unwrap();
    let trampoline = 0x1234_5678u64;
    let space = setup_page_tables(&kernel, VirtAddress(trampoline), VirtAddress(0)).unwrap();
    let image_start = space.image.start_addr() as u64;
    assert_eq!(image_start % TWO_MIB as u64, 0);
    assert_eq!(space.root, space.arena.base());
    for (i, (vaddr, write, execute)) in [
        (LINK_ADDR, false, true),
        (LINK_ADDR + 0x20_0000, true, false),
        (LINK_ADDR + 0x40_0000, false, false),
    ]
    .into_iter()
    .enumerate()
    {
        let e = walk(&space, vaddr, 2);
        let flags = e.flags();
        assert!(flags.present);
        assert!(flags.hugepage);
        assert_eq!(flags.write, write);
        assert_eq!(flags.execute_disable, !execute);
        let phys = e.paddr().0;
        assert_eq!(phys, image_start + (i as u64) * TWO_MIB as u64);
        let offset = (phys - image_start) as usize;
        let value = 0x10 * (i as u8 + 1);
        assert_eq!(space.image.get(offset), value);
    }
    let t = walk(&space, trampoline, 1);
    assert!(t.flags().present);
    assert!(!t.flags().write);
    assert!(!t.flags().execute_disable);
    assert_eq!(t.paddr().0, trampoline & !0xfff);
    // the page tables are in their memory, entry by entry
    let root_bytes = &space.page_tables.as_slice()[0..4096];
    let root = space.arena.table(0);
    for j in 0..512 {
        let raw = u64::from_le_bytes(root_bytes[8 * j..8 * j + 8].try_into().unwrap());
        assert_eq!(raw, root.0[j].0);
    }
}

#[test]
fn trampoline_above_the_physical_limit_is_refused() {
    let bytes = build_elf(LINK_ADDR, &valid_phdrs());
    let kernel = KernelFile::from_bytes(&bytes).unwrap();
    // The trampoline is mapped at its own (identity) address, which here is no
    // physical address at all.
    let result = setup_page_tables(&kernel, VirtAddress(LINK_ADDR + 0x20_1234), VirtAddress(0));
    assert!(matches!(result, Err(phipsboot::loader::LoaderError::AddressOutOfRange)));
}

#[test]
fn diagnose_names_the_failed_check() {
    let ok = build_elf(LINK_ADDR, &valid_phdrs());
    assert_eq!(KernelFile::diagnose(&ok), None);
    assert_eq!(KernelFile::diagnose(&[0u8; 64]), None);

    let no_ro = build_elf(LINK_ADDR, &[
        load(PF_R | PF_X, 0, LINK_ADDR, 0x10),
        load(PF_R | PF_W, 1, LINK_ADDR + 0x20_0000, 0x10),
        load(PF_R | PF_W, 2, LINK_ADDR + 0x40_0000, 0x10),
    ]);
    assert_eq!(
        KernelFile::diagnose(&no_ro),
        Some(LoadSegmentsIssue::MissingSegmentKinds { read_execute: true, read_write: true, read_only: false })
    );

    let mut four = valid_phdrs();
    four.push(load(PF_R, 3, LINK_ADDR + 0x60_0000, 0x10));
    assert_eq!(KernelFile::diagnose(&build_elf(LINK_ADDR, &four)), Some(LoadSegmentsIssue::WrongCount(4)));

    let gap = build_elf(LINK_ADDR, &[
        load(PF_R | PF_X, 0, LINK_ADDR, 0x10),
        load(PF_R | PF_W, 1, LINK_ADDR + 0x40_0000, 0x10),
        load(PF_R, 2, LINK_ADDR + 0x60_0000, 0x10),
    ]);
    assert_eq!(
        KernelFile::diagnose(&gap),
        Some(LoadSegmentsIssue::NotContiguous { segment: 0, expected: LINK_ADDR + 0x20_0000, actual: LINK_ADDR + 0x40_0000 })
    );

    let mut sizes = valid_phdrs();
    sizes[1].memsz = 0x100;
    assert_eq!(
        KernelFile::diagnose(&build_elf(LINK_ADDR, &sizes)),
        Some(LoadSegmentsIssue::SizeMismatch { segment: 1, filesz: 0x20, memsz: 0x100 })
    );

    let mut moved = valid_phdrs();
    moved[0].vaddr = LINK_ADDR + 0x20_0000;
    moved[1].vaddr = LINK_ADDR + 0x40_0000;
    moved[2].vaddr = LINK_ADDR + 0x60_0000;
    assert_eq!(
        KernelFile::diagnose(&build_elf(LINK_ADDR, &moved)),
        Some(LoadSegmentsIssue::WrongLinkAddress(LINK_ADDR + 0x20_0000))
    );
}
