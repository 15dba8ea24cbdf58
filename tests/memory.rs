use wie::{GuestMemory, MemoryError};

#[test]
fn load_zero_fills_bss() {
    let mut mem = GuestMemory::new();
    mem.load(&[0x01, 0x02, 0x03, 0x04], 0x100000, 8).unwrap();
    assert_eq!(mem.read(0x100000, 8).unwrap(), vec![0x01, 0x02, 0x03, 0x04, 0, 0, 0, 0]);
}

#[test]
fn write_then_read_round_trip() {
    let mut mem = GuestMemory::new();
    mem.map_region(0x2000, 64).unwrap();
    mem.write(0x2010, &[9, 8, 7, 6, 5]).unwrap();
    assert_eq!(mem.read(0x2010, 5).unwrap(), vec![9, 8, 7, 6, 5]);
    assert_eq!(mem.read(0x200f, 7).unwrap(), vec![0, 9, 8, 7, 6, 5, 0]);
}

#[test]
fn words_are_little_endian() {
    let mut mem = GuestMemory::new();
    mem.map_region(0x1000, 16).unwrap();
    mem.write_u32(0x1004, 0x1122_3344).unwrap();
    assert_eq!(mem.read(0x1004, 4).unwrap(), vec![0x44, 0x33, 0x22, 0x11]);
    assert_eq!(mem.read_u32(0x1004).unwrap(), 0x1122_3344);
}

#[test]
fn unmapped_access_fails() {
    let mut mem = GuestMemory::new();
    mem.map_region(0x1000, 16).unwrap();
    assert_eq!(mem.read(0x100e, 4), Err(MemoryError::Unmapped { address: 0x100e, length: 4 }));
    assert_eq!(mem.write(0x3000, &[1]), Err(MemoryError::Unmapped { address: 0x3000, length: 1 }));
    assert_eq!(mem.read(0x1000, 16).unwrap(), vec![0u8; 16]);
}

#[test]
fn overlapping_region_is_refused() {
    let mut mem = GuestMemory::new();
    mem.map_region(0x1000, 0x100).unwrap();
    assert_eq!(mem.map_region(0x10ff, 0x10), Err(MemoryError::Overlap { address: 0x10ff }));
    assert_eq!(mem.map_region(0xffff_fff0, 0x20), Err(MemoryError::OutOfRange { address: 0xffff_fff0 }));
    assert_eq!(mem.load(&[1, 2, 3], 0x5000, 2), Err(MemoryError::OutOfRange { address: 0x5000 }));
    mem.map_region(0x1100, 0x10).unwrap();
}
