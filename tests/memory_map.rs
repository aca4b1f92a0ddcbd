use phipsboot::memory_map::{MemoryMap, MemoryMapEntry, MemoryMapEntryFlags, MemoryMapEntryType};

fn flags(bits: u8) -> MemoryMapEntryFlags {
    MemoryMapEntryFlags::from_bits_retain(bits)
}

#[test]
fn test_to_and_from_bytes() {
    let entries = [
        MemoryMapEntry::new(
            0x1000,
            0x2000,
            MemoryMapEntryType::LoaderData,
            flags(MemoryMapEntryFlags::READ).union(flags(MemoryMapEntryFlags::WRITE)),
        ),
        MemoryMapEntry::new(0x10000, 0x20000, MemoryMapEntryType::AvailableRam, flags(0)),
        MemoryMapEntry::new(
            0x30000,
            0x40000,
            MemoryMapEntryType::Kernel,
            flags(MemoryMapEntryFlags::WRITE),
        ),
    ];
    let entries_bytes = MemoryMap::new(entries.to_vec()).to_bytes();
    let map = MemoryMap::from_bytes(&entries_bytes).unwrap();
    assert_eq!(map.entries(), &entries);
}

#[test]
fn entry_layout_is_24_bytes() {
    let e = MemoryMapEntry::new(0x1122_3344, 0x10, MemoryMapEntryType::MMIO, flags(0b101));
    let bytes = MemoryMap::new(vec![e]).to_bytes();
    assert_eq!(bytes.len(), 24);
    assert_eq!(&bytes[0..8], &0x1122_3344u64.to_le_bytes());
    assert_eq!(&bytes[8..16], &0x10u64.to_le_bytes());
    assert_eq!(bytes[16], 6);
    assert_eq!(bytes[17], 0b101);
    assert_eq!(&bytes[18..24], &[0; 6]);
}

#[test]
fn entry_getters() {
    let e = MemoryMapEntry::new(0x1000, 0x2000, MemoryMapEntryType::Firmware, flags(MemoryMapEntryFlags::EXECUTABLE));
    assert_eq!(e.from(), 0x1000);
    assert_eq!(e.length(), 0x2000);
    assert_eq!(e.to(), 0x3000);
    assert_eq!(e.typ(), MemoryMapEntryType::Firmware);
    assert_eq!(e.prot().bits(), 1);
    assert!(e.prot().contains(flags(MemoryMapEntryFlags::EXECUTABLE)));
    assert!(!e.prot().contains(flags(MemoryMapEntryFlags::WRITE)));
    assert_eq!(MemoryMapEntryFlags::empty().bits(), 0);
}

#[test]
fn entry_type_raw_values() {
    let all = [
        MemoryMapEntryType::AvailableRam,
        MemoryMapEntryType::Kernel,
        MemoryMapEntryType::LoaderData,
        MemoryMapEntryType::Firmware,
        MemoryMapEntryType::AcpiReclaim,
        MemoryMapEntryType::AcpiNvs,
        MemoryMapEntryType::MMIO,
    ];
    for (i, t) in all.into_iter().enumerate() {
        assert_eq!(t.val(), i as u8);
        assert_eq!(MemoryMapEntryType::from_raw(i as u8), Some(t));
    }
    assert_eq!(MemoryMapEntryType::from_raw(7), None);
    assert_eq!(MemoryMapEntryType::from_raw(255), None);
}

#[test]
fn invalid_map_bytes_are_refused() {
    let e = MemoryMapEntry::new(0x1000, 0x2000, MemoryMapEntryType::Kernel, flags(0));
    let mut bytes = MemoryMap::new(vec![e]).to_bytes();
    assert!(MemoryMap::from_bytes(&bytes[..23]).is_none());
    bytes[16] = 9;
    assert!(MemoryMap::from_bytes(&bytes).is_none());
    bytes[16] = 1;
    bytes[0..8].copy_from_slice(&u64::MAX.to_le_bytes());
    assert!(MemoryMap::from_bytes(&bytes).is_none());
    assert_eq!(MemoryMap::from_bytes(&[]).unwrap().entries().len(), 0);
}
