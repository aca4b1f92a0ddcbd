use phipsboot::mem::{realign_2mib, realloc_align_up_2mib, AlignedBuffer};
use phipsboot::sizes::TWO_MIB;

#[test]
fn test_aligned_buffer() {
    let mut buf = AlignedBuffer::<u8>::new(8, TWO_MIB);
    buf.set(0, 42);
    buf.set(1, 73);
    buf.set(7, 7);

    assert_eq!(&buf.as_slice()[0..=2], &[42, 73, 0]);

    assert_eq!(buf.as_slice().as_ptr().align_offset(TWO_MIB), 0);
    assert_eq!(buf.start_addr() % TWO_MIB, 0);
    assert_eq!(buf.start_addr(), buf.as_slice().as_ptr() as usize);
}

#[test]
fn aligned_buffer_reads_back_every_byte() {
    for capacity in [0usize, 1, 4095, 4096, 5000] {
        let mut buf = AlignedBuffer::<u8>::new(capacity, 4096);
        assert_eq!(buf.len(), capacity);
        assert_eq!(buf.start_addr() % 4096, 0);
        for i in 0..capacity {
            assert_eq!(buf.get(i), 0);
            buf.set(i, (i % 251) as u8);
        }
        for i in 0..capacity {
            assert_eq!(buf.get(i), (i % 251) as u8);
        }
    }
}

#[test]
fn aligned_buffer_copy_keeps_the_rest() {
    let mut buf = AlignedBuffer::<u8>::new(16, 64);
    buf.copy_from(4, &[1, 2, 3]);
    assert_eq!(buf.as_slice(), &[0, 0, 0, 0, 1, 2, 3, 0, 0, 0, 0, 0, 0, 0, 0, 0]);
}

#[test]
fn test_realloc_to_2mib() {
    const MIB2: usize = 0x200000;

    let foo = vec![1, 2, 3, 4, 5, 6, 7];

    let (bytes, begin, end, addr) = realloc_align_up_2mib(foo);

    assert_eq!(bytes[0..7], [0; 7]);
    assert_eq!(addr, bytes.as_ptr() as usize);
    assert_eq!((addr + begin) % MIB2, 0);

    let aligned_bytes: &[u8] = &bytes[begin..end];
    assert_eq!(aligned_bytes.as_ptr().align_offset(MIB2), 0);
    assert_eq!(aligned_bytes[..7], [1, 2, 3, 4, 5, 6, 7]);
}

#[test]
fn realign_keeps_aligned_bytes_in_place() {
    let (bytes, begin, end, addr) = realign_2mib(vec![9, 8, 7], 0x40_0000);
    assert_eq!(bytes, vec![9, 8, 7]);
    assert_eq!((begin, end, addr), (0, 3, 0x40_0000));
}

#[test]
fn realign_copies_unaligned_bytes() {
    let (bytes, begin, end, addr) = realign_2mib(vec![9, 8, 7], 0x40_0001);
    assert_eq!(bytes.len(), 3 + TWO_MIB - 1);
    assert_eq!(addr, bytes.as_ptr() as usize);
    assert_eq!((addr + begin) % TWO_MIB, 0);
    assert_eq!(&bytes[begin..end], &[9, 8, 7]);
    assert!(bytes[..begin].iter().chain(bytes[end..].iter()).all(|b| *b == 0));
}
