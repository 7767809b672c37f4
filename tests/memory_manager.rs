use feml::memory_manager::{FreeSegment, MemoryManager};

fn segments(mgr: &MemoryManager) -> Vec<(usize, usize, usize)> {
    mgr.free_segments().iter().map(|s: &FreeSegment| (s.region_id, s.start, s.len)).collect()
}

#[test]
fn test_auto_grow() {
    // Initially only 100 bytes available.
    let mut mgr = MemoryManager::new(100, 256);

    // Allocate 80 bytes, successful
    let b1 = mgr.allocate(80, 1).expect("Initial alloc failed");
    assert_eq!(b1.region_id, 0);

    // Region 0 only has 20 left: the pool grows.
    let b2 = mgr.allocate(80, 1).expect("Expansion alloc failed");

    assert_eq!(b2.region_id, 1);
    assert_eq!(b2.start, 0);

    b1.write(&mut mgr, &[0xAA; 10]);
    b2.write(&mut mgr, &[0xBB; 10]);

    assert_eq!(b1.read(&mgr)[0], 0xAA);
    assert_eq!(b2.read(&mgr)[0], 0xBB);
}

#[test]
fn test_large_allocation_trigger_grow() {
    let mut mgr = MemoryManager::new(100, 256);

    let b1 = mgr.allocate(1000, 1).expect("Huge alloc failed");

    assert_eq!(b1.len, 1000);
    assert_eq!(b1.region_id, 1);
}

#[test]
fn test_fragmentation_and_grow() {
    let mut mgr = MemoryManager::new(100, 256);

    let _b1 = mgr.allocate(50, 1).unwrap();
    let _b2 = mgr.allocate(30, 1).unwrap();

    let b3 = mgr.allocate(50, 1).unwrap();
    assert_ne!(b3.region_id, 0);
}

#[test]
fn test_cross_region_independence() {
    let mut mgr = MemoryManager::new(50, 256);
    let mut blocks = Vec::new();

    for i in 0..5 {
        let b = mgr.allocate(40, 1).unwrap();
        b.write(&mut mgr, &[i as u8; 40]);
        blocks.push(b);
    }

    for (i, b) in blocks.iter().enumerate() {
        let data = b.read(&mgr);
        assert!(data.iter().all(|&x| x == i as u8));
    }
}

#[test]
fn test_release_and_reuse_correct_region() {
    let mut mgr = MemoryManager::new(100, 256);

    let b1 = mgr.allocate(100, 1).unwrap();
    let b2 = mgr.allocate(100, 1).unwrap();

    let region_id_b1 = b1.region_id;
    mgr.release(b1);

    let b3 = mgr.allocate(100, 1).unwrap();
    assert_eq!(b3.region_id, region_id_b1);
    assert_eq!(mgr.region_count(), 2);

    mgr.release(b2);
    mgr.release(b3);
}

#[test]
fn first_allocation_starts_region_zero() {
    let mut mgr = MemoryManager::new(100, 256);
    let b = mgr.allocate(80, 1).unwrap();
    assert_eq!((b.region_id, b.start, b.len), (0, 0, 80));
    assert_eq!(segments(&mgr), vec![(0, 80, 20)]);
}

#[test]
fn growth_adds_one_region_of_page_size_or_request() {
    let mut mgr = MemoryManager::new(100, 256);
    let _a = mgr.allocate(80, 1).unwrap();
    let b = mgr.allocate(30, 1).unwrap();
    assert_eq!(mgr.region_count(), 2);
    assert_eq!(mgr.region_size(1), 100);
    assert_eq!((b.region_id, b.start, b.len), (1, 0, 30));
    let c = mgr.allocate(500, 1).unwrap();
    assert_eq!(mgr.region_count(), 3);
    assert_eq!(mgr.region_size(2), 500);
    assert_eq!((c.region_id, c.start, c.len), (2, 0, 500));
}

#[test]
fn padding_rounds_the_request() {
    let mut mgr = MemoryManager::new(100, 256);
    let b = mgr.allocate(10, 8).unwrap();
    assert_eq!(b.len, 16);
    let c = mgr.allocate(10, 0).unwrap();
    assert_eq!((c.start, c.len), (16, 10));
}

#[test]
fn low_ratio_hands_out_whole_segments() {
    let mut mgr = MemoryManager::new(100, 0);
    let b = mgr.allocate(10, 1).unwrap();
    assert_eq!((b.region_id, b.start, b.len), (0, 0, 100));
    assert!(segments(&mgr).is_empty());
}

#[test]
fn threshold_below_request_takes_whole_segment() {
    // 100 * 64 / 256 = 25: a request of 30 takes the whole segment, one of 20 splits it.
    let mut mgr = MemoryManager::new(100, 64);
    let b = mgr.allocate(30, 1).unwrap();
    assert_eq!(b.len, 100);
    let mut mgr = MemoryManager::new(100, 64);
    let b = mgr.allocate(20, 1).unwrap();
    assert_eq!(b.len, 20);
    assert_eq!(segments(&mgr), vec![(0, 20, 80)]);
}

#[test]
fn adjacent_releases_coalesce() {
    let mut mgr = MemoryManager::new(100, 256);
    let a = mgr.allocate(30, 1).unwrap();
    let b = mgr.allocate(30, 1).unwrap();
    let c = mgr.allocate(40, 1).unwrap();
    assert!(segments(&mgr).is_empty());
    mgr.release(a);
    assert_eq!(segments(&mgr), vec![(0, 0, 30)]);
    mgr.release(b);
    assert_eq!(segments(&mgr), vec![(0, 0, 60)]);
    mgr.release(c);
    assert_eq!(segments(&mgr), vec![(0, 0, 100)]);
}

#[test]
fn release_keeps_free_list_sorted_across_regions() {
    let mut mgr = MemoryManager::new(10, 256);
    let a = mgr.allocate(10, 1).unwrap();
    let b = mgr.allocate(10, 1).unwrap();
    let c = mgr.allocate(4, 1).unwrap();
    assert_eq!(segments(&mgr), vec![(2, 4, 6)]);
    mgr.release(b);
    mgr.release(a);
    assert_eq!(segments(&mgr), vec![(0, 0, 10), (1, 0, 10), (2, 4, 6)]);
    mgr.release(c);
    assert_eq!(segments(&mgr), vec![(0, 0, 10), (1, 0, 10), (2, 0, 10)]);
}

#[test]
fn bytes_are_conserved() {
    let mut mgr = MemoryManager::new(64, 256);
    let mut live = Vec::new();
    for size in [10usize, 20, 5, 70, 3] {
        live.push(mgr.allocate(size, 1).unwrap());
    }
    let b = live.remove(1);
    mgr.release(b);
    let b = live.remove(2);
    mgr.release(b);
    for r in 0..mgr.region_count() {
        let free: usize = segments(&mgr).iter().filter(|s| s.0 == r).map(|s| s.2).sum();
        let used: usize = live.iter().filter(|b| b.region_id == r).map(|b| b.len).sum();
        assert_eq!(free + used, mgr.region_size(r));
    }
}

#[test]
fn a_released_pool_is_whole_again() {
    let mut mgr = MemoryManager::new(100, 256);
    let b = mgr.allocate(40, 1).unwrap();
    mgr.release(b);
    assert_eq!(segments(&mgr), vec![(0, 0, 100)]);
}

#[test]
fn writes_stay_inside_their_block() {
    let mut mgr = MemoryManager::new(100, 256);
    let a = mgr.allocate(10, 1).unwrap();
    let b = mgr.allocate(10, 1).unwrap();
    b.write(&mut mgr, &[7; 10]);
    a.write(&mut mgr, &[9; 10]);
    assert_eq!(b.read(&mgr), vec![7; 10]);
    assert_eq!(a.read(&mgr), vec![9; 10]);
    assert_eq!(mgr.read_memory(0, 0, 21), [vec![9; 10], vec![7; 10], vec![0]].concat());
}

#[test]
fn empty_request_and_empty_pool() {
    let mut mgr = MemoryManager::new(0, 256);
    let b = mgr.allocate(0, 1).unwrap();
    assert_eq!((b.region_id, b.start, b.len), (0, 0, 0));
    mgr.release(b);
    assert_eq!(mgr.region_count(), 1);
}
