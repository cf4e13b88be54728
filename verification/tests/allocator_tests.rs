use ralph_os::allocator::{
    build_header, decode_task_id, encode_task_id, find_allocation, find_allocation_owner,
    find_free_region, find_majority_owner, get_current_task_id, get_heap_stats,
    get_task_heap_allocations, init_heap, mark_scheduler_ready, read_header,
    LinkedListAllocator, LockedAllocator, Spinlock, HEADER_MAGIC, KERNEL_TASK_ID_SENTINEL,
};

const HEAP_START: usize = 0x200000;
const HEAP_SIZE: usize = 0x200000;

fn heap() -> LinkedListAllocator {
    let mut h = LinkedListAllocator::new();
    h.init(HEAP_START, HEAP_SIZE);
    h
}

#[test]
fn heap_round_trip() {
    let mut h = heap();
    assert_eq!(get_heap_stats(&h), (0, HEAP_SIZE));
    let p = h.allocate(1000, 8, None).unwrap();
    assert_eq!((p - HEAP_START) % 8, 0);
    assert_eq!(p, HEAP_START + 16);
    // 16 header + 1000 user bytes is already a multiple of 8
    assert_eq!(get_heap_stats(&h), (1016, HEAP_SIZE - 1016));
    assert!(h.is_allocated_ptr(p));
    h.deallocate(p);
    assert_eq!(get_heap_stats(&h), (0, HEAP_SIZE));
    assert_eq!(h.region.blocks.len(), 1);
}

#[test]
fn request_is_rounded_up_with_header() {
    let mut h = heap();
    let p = h.allocate(1, 1, None).unwrap();
    assert_eq!(find_allocation(&h, p), Some((HEAP_START, HEAP_START + 24)));
    let q = h.allocate(0, 1, None).unwrap();
    assert_eq!(q, HEAP_START + 24 + 16);
    assert_eq!(find_allocation(&h, q), Some((HEAP_START + 24, HEAP_START + 48)));
}

#[test]
fn alignment_above_eight_is_rejected() {
    let mut h = heap();
    assert_eq!(h.allocate(16, 16, None), None);
    assert_eq!(get_heap_stats(&h), (0, HEAP_SIZE));
    assert!(h.allocate(16, 8, None).is_some());
}

#[test]
fn out_of_memory_returns_none() {
    let mut h = heap();
    assert_eq!(h.allocate(HEAP_SIZE, 8, None), None);
    assert_eq!(h.allocate(usize::MAX, 8, None), None);
    let p = h.allocate(HEAP_SIZE - 16, 8, None);
    assert_eq!(p, Some(HEAP_START + 16));
    assert_eq!(get_heap_stats(&h), (HEAP_SIZE, 0));
    assert_eq!(h.allocate(1, 1, None), None);
}

#[test]
fn small_remainder_is_absorbed() {
    let mut h = LinkedListAllocator::new();
    h.init(HEAP_START, 64);
    // 16 + 40 = 56, remainder 8 is too small for a free block
    let p = h.allocate(40, 8, None).unwrap();
    assert_eq!(find_allocation(&h, p), Some((HEAP_START, HEAP_START + 64)));
    assert_eq!(get_heap_stats(&h), (64, 0));
    h.deallocate(p);
    assert_eq!(get_heap_stats(&h), (0, 64));
}

#[test]
fn first_fit_takes_lowest_fitting_block() {
    let mut h = heap();
    let a = h.allocate(100, 8, None).unwrap();
    let b = h.allocate(100, 8, None).unwrap();
    let c = h.allocate(100, 8, None).unwrap();
    h.deallocate(a);
    h.deallocate(c);
    // the hole left by `a` is the lowest-addressed fit
    let d = h.allocate(50, 8, None).unwrap();
    assert_eq!(d, a);
    assert!(h.is_allocated_ptr(b));
}

#[test]
fn freeing_coalesces_with_both_neighbours() {
    let mut h = heap();
    let a = h.allocate(100, 8, None).unwrap();
    let b = h.allocate(100, 8, None).unwrap();
    let c = h.allocate(100, 8, None).unwrap();
    h.deallocate(a);
    h.deallocate(c);
    assert_eq!(h.region.blocks.len(), 3);
    h.deallocate(b);
    assert_eq!(h.region.blocks.len(), 1);
    assert_eq!(get_heap_stats(&h), (0, HEAP_SIZE));
}

#[test]
fn freed_pointer_is_in_a_free_region() {
    let mut h = heap();
    let a = h.allocate(100, 8, None).unwrap();
    let b = h.allocate(100, 8, None).unwrap();
    assert_eq!(find_allocation(&h, b), Some((HEAP_START + 120, HEAP_START + 240)));
    assert_eq!(find_free_region(&h, b), None);
    h.deallocate(b);
    assert_eq!(find_allocation(&h, b), None);
    assert_eq!(find_free_region(&h, b), Some((HEAP_START + 120, HEAP_START + HEAP_SIZE)));
    assert!(h.is_allocated_ptr(a));
    assert!(!h.is_allocated_ptr(b));
    assert!(!h.is_allocated_ptr(a + 8));
}

#[test]
fn lookups_outside_the_heap_find_nothing() {
    let h = heap();
    assert_eq!(find_allocation(&h, HEAP_START - 1), None);
    assert_eq!(find_free_region(&h, HEAP_START - 1), None);
    assert_eq!(find_free_region(&h, HEAP_START + HEAP_SIZE), None);
    assert_eq!(find_allocation_owner(&h, 0), None);
    assert_eq!(find_free_region(&h, HEAP_START), Some((HEAP_START, HEAP_START + HEAP_SIZE)));
}

#[test]
fn allocations_are_attributed() {
    let mut h = heap();
    let k = h.allocate(8, 8, None).unwrap();
    let t = h.allocate(8, 8, Some(7)).unwrap();
    assert_eq!(find_allocation_owner(&h, k), Some(None));
    assert_eq!(find_allocation_owner(&h, t), Some(Some(7)));
    assert_eq!(find_allocation_owner(&h, t + 100), None);
    assert_eq!(get_task_heap_allocations(&h, Some(7)), vec![(HEAP_START + 24, 24)]);
    assert_eq!(get_task_heap_allocations(&h, None), vec![(HEAP_START, 24)]);
    assert_eq!(get_task_heap_allocations(&h, Some(8)), vec![]);
}

#[test]
fn task_id_encoding() {
    assert_eq!(encode_task_id(None), KERNEL_TASK_ID_SENTINEL);
    assert_eq!(encode_task_id(Some(5)), 5);
    assert_eq!(decode_task_id(u32::MAX), None);
    assert_eq!(decode_task_id(0), Some(0));
    assert_eq!(get_current_task_id(false, Some(3)), None);
    assert_eq!(get_current_task_id(true, Some(3)), Some(3));
    assert_eq!(get_current_task_id(true, None), None);
}

#[test]
fn majority_owner_counts_overlap() {
    let mut h = heap();
    let _a = h.allocate(100 - 16, 8, Some(1)).unwrap(); // block of 104 bytes
    let _b = h.allocate(200 - 16, 8, Some(2)).unwrap(); // block of 200 bytes
    let _c = h.allocate(104 - 16, 8, Some(1)).unwrap(); // block of 104 bytes
    // whole range: task 1 has 208 bytes, task 2 has 200
    assert_eq!(
        find_majority_owner(&h, HEAP_START, HEAP_START + 1000),
        Some((Some(1), 208))
    );
    // first 256 bytes: task 1 has 104, task 2 has 152
    assert_eq!(
        find_majority_owner(&h, HEAP_START, HEAP_START + 256),
        Some((Some(2), 152))
    );
    // equal counts: the owner met first wins
    assert_eq!(
        find_majority_owner(&h, HEAP_START, HEAP_START + 208),
        Some((Some(1), 104))
    );
    assert_eq!(find_majority_owner(&h, HEAP_START + 1000, HEAP_START + 2000), None);
    assert_eq!(find_majority_owner(&h, 0, HEAP_START), None);
    assert_eq!(find_majority_owner(&h, HEAP_START + 10, HEAP_START + 10), None);
}

#[test]
fn majority_owner_tracks_eight_owners() {
    let mut h = heap();
    for id in 0..9u32 {
        let size = if id == 8 { 1000 } else { 8 };
        h.allocate(size, 8, Some(id)).unwrap();
    }
    // the ninth owner has most bytes but is not tracked
    assert_eq!(
        find_majority_owner(&h, HEAP_START, HEAP_START + HEAP_SIZE),
        Some((Some(0), 24))
    );
}

#[test]
fn snapshot_is_limited_to_256_allocations() {
    let mut h = heap();
    for _ in 0..300 {
        h.allocate(8, 8, Some(1)).unwrap();
    }
    let list = get_task_heap_allocations(&h, Some(1));
    assert_eq!(list.len(), 256);
    assert_eq!(list[0], (HEAP_START, 24));
    assert_eq!(list[255], (HEAP_START + 255 * 24, 24));
}

#[test]
fn lock_disables_and_restores_interrupts() {
    let mut lock = Spinlock::new(5u32);
    let mut irq = true;
    let guard = lock.lock(&mut irq);
    assert!(lock.locked);
    assert!(!irq);
    assert!(guard.interrupts_were_enabled);
    lock.data = 6;
    lock.unlock(guard, &mut irq);
    assert!(!lock.locked);
    assert!(irq);
    assert_eq!(lock.data, 6);

    let mut off = false;
    let guard = lock.lock(&mut off);
    lock.unlock(guard, &mut off);
    assert!(!off);
}

#[test]
fn locked_allocator_attributes_after_scheduler_is_ready() {
    let mut a = LockedAllocator::new();
    let mut irq = true;
    init_heap(&mut a, HEAP_START, HEAP_SIZE, &mut irq);
    let p = a.allocate(32, 8, Some(4), &mut irq).unwrap();
    assert_eq!(find_allocation_owner(&a.inner.data, p), Some(None));
    mark_scheduler_ready(&mut a);
    let q = a.allocate(32, 8, Some(4), &mut irq).unwrap();
    assert_eq!(find_allocation_owner(&a.inner.data, q), Some(Some(4)));
    assert!(irq);
    a.deallocate(p, &mut irq);
    a.deallocate(q, &mut irq);
    assert_eq!(get_heap_stats(&a.inner.data), (0, HEAP_SIZE));
    assert!(!a.inner.locked);
}

#[test]
fn align_up_rounds_to_next_multiple() {
    assert_eq!(LinkedListAllocator::align_up(0, 8), Some(0));
    assert_eq!(LinkedListAllocator::align_up(1, 8), Some(8));
    assert_eq!(LinkedListAllocator::align_up(8, 8), Some(8));
    assert_eq!(LinkedListAllocator::align_up(17, 8), Some(24));
    assert_eq!(LinkedListAllocator::align_up(usize::MAX, 8), None);
}

/// The blocks tile the heap, each is a multiple of 8 and at least 16
/// bytes, and no two neighbours are both free.
fn assert_partition(h: &LinkedListAllocator) {
    let blocks = &h.region.blocks;
    let mut at = h.region.start;
    for (i, b) in blocks.iter().enumerate() {
        assert_eq!(b.start, at);
        assert_eq!(b.size % 8, 0);
        assert!(b.size >= 16);
        if i > 0 {
            assert!(!(b.free && blocks[i - 1].free));
        }
        at += b.size;
    }
    assert_eq!(at, h.region.end);
    let free: usize = blocks.iter().filter(|b| b.free).map(|b| b.size).sum();
    assert_eq!(get_heap_stats(h), (HEAP_SIZE - free, free));
}

#[test]
fn invariants_hold_over_a_long_run() {
    let mut h = heap();
    let mut live: Vec<usize> = Vec::new();
    let mut seed = 0x2545F491u32;
    for _ in 0..3000 {
        seed ^= seed << 13;
        seed ^= seed >> 17;
        seed ^= seed << 5;
        if seed % 3 != 0 || live.is_empty() {
            let size = (seed >> 8) as usize % 5000;
            if let Some(p) = h.allocate(size, 1 << (seed % 4), Some(seed % 5)) {
                assert_eq!(p % 8, 0);
                assert!(!live.contains(&p));
                live.push(p);
            }
        } else {
            let p = live.swap_remove((seed >> 8) as usize % live.len());
            h.deallocate(p);
            assert_eq!(find_allocation(&h, p), None);
            assert!(find_free_region(&h, p).is_some());
        }
        assert_partition(&h);
    }
    for p in live {
        h.deallocate(p);
    }
    assert_partition(&h);
    assert_eq!(h.region.blocks.len(), 1);
}

#[test]
fn block_header_layout() {
    let h = build_header(Some(7), 1016);
    assert_eq!(
        h,
        vec![b'R', b'L', b'P', b'H', 7, 0, 0, 0, 0xF8, 0x03, 0, 0, 0, 0, 0, 0]
    );
    assert_eq!(HEADER_MAGIC.to_le_bytes(), *b"RLPH");
    assert_eq!(read_header(&h), Some((Some(7), 1016)));
    let k = build_header(None, 0x1234_5678_9ABC);
    assert_eq!(&k[4..8], &[0xFF, 0xFF, 0xFF, 0xFF]);
    assert_eq!(&k[8..], &[0xBC, 0x9A, 0x78, 0x56, 0x34, 0x12, 0, 0]);
    assert_eq!(read_header(&k), Some((None, 0x1234_5678_9ABC)));
    // trailing bytes are not part of the header
    let mut long = h.clone();
    long.push(0xEE);
    assert_eq!(read_header(&long), Some((Some(7), 1016)));
    // too short, or the magic is damaged
    assert_eq!(read_header(&h[..15]), None);
    let mut bad = h.clone();
    bad[0] = b'X';
    assert_eq!(read_header(&bad), None);
}

#[test]
fn only_the_header_of_a_live_allocation_matches() {
    let mut h = heap();
    let p = h.allocate(1000, 8, Some(3)).unwrap();
    let header = h.header_of(p).unwrap();
    assert_eq!(header, build_header(Some(3), 1016));
    assert!(h.header_matches(p, &header));
    assert!(!h.header_matches(p + 8, &header));
    assert!(!h.header_matches(p, &build_header(Some(4), 1016)));
    assert!(!h.header_matches(p, &build_header(Some(3), 1024)));
    let mut damaged = header.clone();
    damaged[1] ^= 0x20;
    assert!(!h.header_matches(p, &damaged));
    assert_eq!(h.header_of(p + 8), None);
    assert_eq!(h.header_of(HEAP_START - 8), None);
    h.deallocate(p);
    assert_eq!(h.header_of(p), None);
    assert!(!h.header_matches(p, &header));
}
