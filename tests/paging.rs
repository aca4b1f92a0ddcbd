use phipsboot::mapper::{map_address, MapError, PageTableArena};
use phipsboot::paging::{
    map_address_step, Page, PageTable, PageTableEntry, PageTableEntryFlags, PhysAddress,
    PhysMappingDest, VirtAddress,
};

#[test]
fn paging_test_virt_address_index() {
    let addr = VirtAddress(0xffff_eeee_dead_beef);
    assert_eq!(addr.index(4), 477);
    assert_eq!(addr.index(3), 443);
    assert_eq!(addr.index(2), 245);
    assert_eq!(addr.index(1), 219);
}

#[test]
fn entry_round_trips_address_and_flags() {
    let flags = PageTableEntryFlags {
        present: true,
        write: false,
        superuser: true,
        write_through: true,
        cache_disable: false,
        hugepage: true,
        execute_disable: true,
    };
    let addr = PhysAddress(0x000f_ffff_ffe0_0000);
    let entry = PageTableEntry::new(addr, flags);
    assert_eq!(entry.0, 0x800f_ffff_ffe0_0000 | 0x1 | 0x4 | 0x8 | 0x80);
    assert_eq!(entry.flags(), flags);
    assert_eq!(entry.paddr(), addr);
    assert_eq!(entry.addr(), addr);
}

#[test]
fn entry_without_flags_is_the_address() {
    let entry = PageTableEntry::new(PhysAddress(0x1000), PageTableEntryFlags::default());
    assert_eq!(entry.0, 0x1000);
    assert_eq!(entry.flags(), PageTableEntryFlags::default());
}

#[test]
fn paddr_ignores_flag_bits() {
    let entry = PageTableEntry(0xffff_ffff_ffff_ffff);
    assert_eq!(entry.paddr(), PhysAddress(0x000f_ffff_ffff_f000));
    let flags = entry.flags();
    assert!(flags.present && flags.write && flags.superuser && flags.write_through);
    assert!(flags.cache_disable && flags.hugepage && flags.execute_disable);
}

#[test]
fn map_address_step_writes_one_entry() {
    let mut table = PageTable::zero();
    let vaddr = VirtAddress(0xffff_ffff_8820_0000);
    map_address_step(vaddr, &mut table, PhysAddress(0x4000_0000), 2, true, true, false);
    let index = vaddr.index(2);
    for i in 0..512 {
        if i == index {
            let flags = table.entry(i).flags();
            assert!(flags.present && flags.write && flags.hugepage && flags.superuser);
            assert!(!flags.execute_disable);
            assert_eq!(table.entry(i).paddr(), PhysAddress(0x4000_0000));
        } else {
            assert_eq!(table.entry(i), PageTableEntry(0));
        }
    }
}

#[test]
fn page_and_page_table_views_round_trip() {
    let mut table = PageTable::zero();
    table.0[1] = PageTableEntry(0x0102_0304_0506_0708);
    table.0[511] = PageTableEntry(u64::MAX);
    let page = table.as_page();
    assert_eq!(&page.0[8..16], &[8, 7, 6, 5, 4, 3, 2, 1]);
    assert_eq!(page.0[4095], 0xff);
    assert_eq!(page.as_page_table(), table);
    assert!(Page::zero().0.iter().all(|b| *b == 0));
}

#[test]
fn phys_mapping_dest_of_an_address() {
    assert_eq!(PhysMappingDest::Addr(0x1000).to_phys_addr(), 0x1000);
    let page = Page::zero();
    assert_eq!(PhysMappingDest::from(&page).to_phys_addr(), page.as_paddr().0);
    assert_eq!(page.as_paddr().0, page.as_vaddr().0);
}

fn lookup(arena: &PageTableArena, root: PhysAddress, vaddr: u64, level: usize) -> Option<PageTableEntry> {
    let base = arena.base().0;
    let mut table = arena.table(((root.0 - base) / 4096) as usize);
    let mut l = 4;
    while l > level {
        let e = table.entry(VirtAddress(vaddr).index(l));
        if !e.flags().present {
            return None;
        }
        table = arena.table(((e.paddr().0 - base) / 4096) as usize);
        l -= 1;
    }
    Some(table.entry(VirtAddress(vaddr).index(level)))
}

#[test]
fn map_address_builds_the_path_and_reuses_it() {
    let mut arena = PageTableArena::new(PhysAddress(0x10_0000), 8);
    let root = arena.new_root().unwrap();
    assert_eq!(root, PhysAddress(0x10_0000));
    map_address(&mut arena, root, VirtAddress(0x4000_1000), PhysAddress(0x7000), true, false, false)
        .unwrap();
    assert_eq!(arena.table_count(), 4);
    let e = lookup(&arena, root, 0x4000_1000, 1).unwrap();
    assert_eq!(e.paddr(), PhysAddress(0x7000));
    assert!(e.flags().write && e.flags().execute_disable && !e.flags().hugepage);
    // a neighbouring page shares all tables
    map_address(&mut arena, root, VirtAddress(0x4000_2000), PhysAddress(0x8000), false, true, false)
        .unwrap();
    assert_eq!(arena.table_count(), 4);
    assert_eq!(lookup(&arena, root, 0x4000_1000, 1).unwrap().paddr(), PhysAddress(0x7000));
    let e = lookup(&arena, root, 0x4000_2000, 1).unwrap();
    assert_eq!(e.paddr(), PhysAddress(0x8000));
    assert!(!e.flags().write && !e.flags().execute_disable);
    // intermediate entries are present and writable
    let top = lookup(&arena, root, 0x4000_2000, 4).unwrap();
    assert!(top.flags().present && top.flags().write && !top.flags().execute_disable);
}

#[test]
fn map_address_huge_page_stops_at_level_two() {
    let mut arena = PageTableArena::new(PhysAddress(0x10_0000), 8);
    let root = arena.new_root().unwrap();
    map_address(&mut arena, root, VirtAddress(0xffff_ffff_8820_0000), PhysAddress(0x20_0000), false, true, true)
        .unwrap();
    assert_eq!(arena.table_count(), 3);
    let e = lookup(&arena, root, 0xffff_ffff_8820_0000, 2).unwrap();
    assert!(e.flags().hugepage && !e.flags().execute_disable && !e.flags().write);
    assert_eq!(e.paddr(), PhysAddress(0x20_0000));
    // a 4 KiB mapping inside the huge page cannot descend
    assert_eq!(
        map_address(&mut arena, root, VirtAddress(0xffff_ffff_8820_1000), PhysAddress(0x1000), false, false, false),
        Err(MapError::HugePageInTheWay)
    );
    assert_eq!(arena.table_count(), 3);
}

#[test]
fn map_address_runs_out_of_tables() {
    let mut arena = PageTableArena::new(PhysAddress(0x10_0000), 3);
    let root = arena.new_root().unwrap();
    assert_eq!(
        map_address(&mut arena, root, VirtAddress(0x1000), PhysAddress(0x1000), false, false, false),
        Err(MapError::OutOfPageTables)
    );
    assert_eq!(arena.table_count(), 1);
    assert!(map_address(&mut arena, root, VirtAddress(0x20_0000), PhysAddress(0x20_0000), false, false, true).is_ok());
    assert_eq!(arena.table_count(), 3);
    assert_eq!(arena.new_root(), Err(MapError::OutOfPageTables));
}
