use wie::Allocator;

#[test]
fn freed_block_is_reused_first() {
    let mut heap = Allocator::new(0x4000_0000, 0x1000);
    let a = heap.allocate(16).unwrap();
    let b = heap.allocate(16).unwrap();
    assert!(heap.free(a));
    let c = heap.allocate(16).unwrap();
    assert_eq!(c, a);
    assert_ne!(b, a);
}

#[test]
fn live_allocations_do_not_overlap() {
    let mut heap = Allocator::new(0x4000_0000, 0x100);
    let sizes = [1u32, 7, 16, 3, 40];
    let mut live = Vec::new();
    for s in sizes {
        let a = heap.allocate(s).unwrap();
        live.push((a, ((s + 3) / 4) * 4));
    }
    for (i, &(a, n)) in live.iter().enumerate() {
        assert_eq!(a % 4, 0);
        assert!(a >= 0x4000_0000 && a + n <= 0x4000_0100);
        for &(b, m) in &live[i + 1..] {
            assert!(a + n <= b || b + m <= a);
        }
    }
}

#[test]
fn sizes_round_up_to_words() {
    let mut heap = Allocator::new(0x1000, 0x100);
    let a = heap.allocate(1).unwrap();
    let b = heap.allocate(0).unwrap();
    let c = heap.allocate(5).unwrap();
    assert_eq!(a, 0x1000);
    assert_eq!(b, 0x1004);
    assert_eq!(c, 0x1008);
}

#[test]
fn exhausted_heap_gives_none() {
    let mut heap = Allocator::new(0x1000, 32);
    assert!(heap.allocate(32).is_some());
    assert_eq!(heap.allocate(4), None);
    assert!(!heap.free(0x1004));
    assert!(heap.free(0x1000));
    assert!(!heap.free(0x1000));
    assert_eq!(heap.allocate(8), Some(0x1000));
}

#[test]
fn fresh_heap_is_one_free_block() {
    let heap = Allocator::new(0x2000, 0x40);
    assert_eq!(heap.blocks, vec![wie::Block { offset: 0x2000, size: 0x40, used: false }]);
    assert!(Allocator::new(0x2000, 0).blocks.is_empty());
}
