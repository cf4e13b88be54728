use ralph_os::allocator::Spinlock;
use ralph_os::program_alloc::{
    allocate, deallocate, init, stats, ProgramAllocator, PAGE_SIZE, PROGRAM_REGION_END,
    PROGRAM_REGION_SIZE, PROGRAM_REGION_START,
};

fn pool() -> ProgramAllocator {
    let mut p = ProgramAllocator::new();
    p.init();
    p
}

#[test]
fn program_region_starts_as_one_free_block() {
    let p = pool();
    assert_eq!(p.stats(), (0, PROGRAM_REGION_SIZE));
    assert_eq!(PROGRAM_REGION_END - PROGRAM_REGION_START, PROGRAM_REGION_SIZE);
    assert_eq!(p.find_free_region(0x500000), Some((PROGRAM_REGION_START, PROGRAM_REGION_END)));
    assert_eq!(p.find_allocation(0x500000), None);
    assert_eq!(p.find_free_region(PROGRAM_REGION_END), None);
}

#[test]
fn sizes_are_rounded_up_to_pages() {
    let mut p = pool();
    assert_eq!(p.allocate(1), Some(PROGRAM_REGION_START));
    assert_eq!(p.allocate(PAGE_SIZE), Some(PROGRAM_REGION_START + PAGE_SIZE));
    assert_eq!(p.allocate(PAGE_SIZE + 1), Some(PROGRAM_REGION_START + 2 * PAGE_SIZE));
    assert_eq!(p.allocate(0), Some(PROGRAM_REGION_START + 4 * PAGE_SIZE));
    assert_eq!(p.stats(), (5 * PAGE_SIZE, PROGRAM_REGION_SIZE - 5 * PAGE_SIZE));
    assert_eq!(
        p.find_allocation(PROGRAM_REGION_START + 2 * PAGE_SIZE + 5),
        Some((PROGRAM_REGION_START + 2 * PAGE_SIZE, PROGRAM_REGION_START + 4 * PAGE_SIZE))
    );
    assert_eq!(ProgramAllocator::align_up(4097), Some(8192));
    assert_eq!(ProgramAllocator::align_up(usize::MAX), None);
}

#[test]
fn program_round_trip_restores_stats() {
    let mut p = pool();
    let a = p.allocate(10_000).unwrap();
    assert!(p.is_allocated(a, 10_000));
    assert!(!p.is_allocated(a, 20_000));
    assert!(!p.is_allocated(a + PAGE_SIZE, 10_000));
    p.deallocate(a, 10_000);
    assert_eq!(p.stats(), (0, PROGRAM_REGION_SIZE));
    assert_eq!(p.region.blocks.len(), 1);
}

#[test]
fn program_region_exhaustion() {
    let mut p = pool();
    assert_eq!(p.allocate(PROGRAM_REGION_SIZE + 1), None);
    assert_eq!(p.allocate(usize::MAX), None);
    assert_eq!(p.allocate(PROGRAM_REGION_SIZE), Some(PROGRAM_REGION_START));
    assert_eq!(p.allocate(1), None);
    assert_eq!(p.stats(), (PROGRAM_REGION_SIZE, 0));
}

#[test]
fn program_first_fit_reuses_hole() {
    let mut p = pool();
    let a = p.allocate(PAGE_SIZE).unwrap();
    let _b = p.allocate(PAGE_SIZE).unwrap();
    p.deallocate(a, PAGE_SIZE);
    assert_eq!(p.allocate(2 * PAGE_SIZE), Some(PROGRAM_REGION_START + 2 * PAGE_SIZE));
    assert_eq!(p.allocate(100), Some(a));
}

#[test]
fn locked_program_allocator() {
    let mut lock = Spinlock::new(ProgramAllocator::new());
    let mut irq = true;
    init(&mut lock, &mut irq);
    let a = allocate(&mut lock, 5000, &mut irq).unwrap();
    assert_eq!(a, PROGRAM_REGION_START);
    assert_eq!(stats(&mut lock, &mut irq), (8192, PROGRAM_REGION_SIZE - 8192));
    deallocate(&mut lock, a, 5000, &mut irq);
    assert_eq!(stats(&mut lock, &mut irq), (0, PROGRAM_REGION_SIZE));
    assert!(irq);
    assert!(!lock.locked);
}
