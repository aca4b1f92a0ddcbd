use phipsboot::boot_information::BootInformation;
use phipsboot::memory_map::{MemoryMapEntry, MemoryMapEntryFlags, MemoryMapEntryType};
use phipsboot::sizes::TWO_MIB;

#[test]
fn boot_information_test_abi() {
    assert!(BootInformation::SIZE <= TWO_MIB)
}

#[test]
fn boot_information_round_trip() {
    for len in [0usize, 1, 17, 4095, 4096] {
        let cmdline: String = (0..len).map(|i| (b'a' + (i % 26) as u8) as char).collect();
        let info = BootInformation::new(&cmdline);
        let bytes = info.to_bytes();
        assert_eq!(bytes.len(), BootInformation::SIZE);
        assert!(bytes.len() <= TWO_MIB);
        let back = BootInformation::from_bytes(&bytes).unwrap();
        assert_eq!(back.cmdline(), cmdline.as_bytes());
        assert_eq!(back.magic, 0xdead_beef_1337_1337);
        assert_eq!(back.version(), 1);
        assert_eq!(back.rsdp_addr(), None);
        assert_eq!(back.memory_map().len(), 0);
    }
}

#[test]
fn boot_information_carries_the_memory_map() {
    let mut info = BootInformation::new("console=debugcon");
    let entries = vec![
        MemoryMapEntry::new(0, 0x9f000, MemoryMapEntryType::AvailableRam, MemoryMapEntryFlags::empty()),
        MemoryMapEntry::new(0x10_0000, 0x60_0000, MemoryMapEntryType::Kernel, MemoryMapEntryFlags::from_bits_retain(5)),
    ];
    info.set_memory_map(entries.clone());
    let bytes = info.to_bytes();
    assert_eq!(&bytes[0..8], &0xdead_beef_1337_1337u64.to_le_bytes());
    assert_eq!(&bytes[12..16], &(BootInformation::SIZE as u32).to_le_bytes());
    assert_eq!(&bytes[16..20], &16u32.to_le_bytes());
    assert_eq!(&bytes[20..36], b"console=debugcon");
    assert_eq!(&bytes[4148..4152], &2u32.to_le_bytes());
    let back = BootInformation::from_bytes(&bytes).unwrap();
    assert_eq!(back.memory_map(), &entries[..]);
    assert_eq!(back.cmdline(), b"console=debugcon");
}

#[test]
fn boot_information_with_wrong_magic_is_refused() {
    let mut bytes = BootInformation::new("x").to_bytes();
    bytes[0] ^= 1;
    assert!(BootInformation::from_bytes(&bytes).is_none());
}

#[test]
fn boot_information_too_short_or_too_long_is_refused() {
    let bytes = BootInformation::new("x").to_bytes();
    assert!(BootInformation::from_bytes(&bytes[..BootInformation::SIZE - 1]).is_none());
    let mut long = bytes.clone();
    long[16..20].copy_from_slice(&4097u32.to_le_bytes());
    assert!(BootInformation::from_bytes(&long).is_none());
    let mut many = bytes;
    many[4148..4152].copy_from_slice(&1025u32.to_le_bytes());
    assert!(BootInformation::from_bytes(&many).is_none());
}
