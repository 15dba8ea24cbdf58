use wie::{bss_size_of, find_client_bin, load_client_bin, GuestMemory, LoadError, MemoryError, IMAGE_BASE};

#[test]
fn bss_size_from_name() {
    assert_eq!(bss_size_of("client.bin4"), Some(4));
    assert_eq!(bss_size_of("client.bin007"), Some(7));
    assert_eq!(bss_size_of("client.bin+12"), Some(12));
    assert_eq!(bss_size_of("client.bin4294967295"), Some(u32::MAX));
    assert_eq!(bss_size_of("client.bin4294967296"), None);
    assert_eq!(bss_size_of("client.bin"), None);
    assert_eq!(bss_size_of("client.bin+"), None);
    assert_eq!(bss_size_of("client.bin1x"), None);
    assert_eq!(bss_size_of("other.bin4"), None);
}

#[test]
fn client_binary_loads_with_bss() {
    let mut mem = GuestMemory::new();
    assert_eq!(load_client_bin(&mut mem, &[0x01, 0x02, 0x03, 0x04], "client.bin4"), Ok(4));
    assert_eq!(mem.read(IMAGE_BASE, 8).unwrap(), vec![0x01, 0x02, 0x03, 0x04, 0, 0, 0, 0]);
    assert_eq!(mem.read(IMAGE_BASE, 9), Err(MemoryError::Unmapped { address: IMAGE_BASE, length: 9 }));
    assert_eq!(load_client_bin(&mut mem, &[1], "client.bin0"), Err(LoadError::Memory(MemoryError::Overlap { address: IMAGE_BASE })));
    assert_eq!(load_client_bin(&mut mem, &[1], "client.binz"), Err(LoadError::InvalidName));
}

#[test]
fn first_client_entry_is_chosen() {
    let names = vec!["res/a.png".to_string(), "client.bin10".to_string(), "client.bin2".to_string()];
    assert_eq!(find_client_bin(&names), Some(1));
    assert_eq!(find_client_bin(&vec!["x".to_string()]), None);
}
