use ralph_os::allocator::LinkedListAllocator;
use ralph_os::executable::{
    init, register_task_program, task_alloc, ExecRegistry,
};
use ralph_os::meminfo::{
    find_region, get_kernel_heap_allocations, get_region_stats, get_task_memory_info,
    get_task_name_static, MemoryRegionInfo, RegionName,
};
use ralph_os::program_alloc::ProgramAllocator;
use ralph_os::scheduler::{spawn, Scheduler};
use ralph_os::task::{TaskState, STACK_SIZE};

struct World {
    heap: LinkedListAllocator,
    programs: ProgramAllocator,
    registry: ExecRegistry,
    sched: Scheduler,
}

fn world() -> World {
    let mut heap = LinkedListAllocator::new();
    heap.init(0x200000, 0x200000);
    let mut programs = ProgramAllocator::new();
    let mut registry = ExecRegistry::new();
    init(&mut registry, &mut programs, &[0u8; 16]).unwrap();
    let mut sched = Scheduler::new();
    spawn(&mut sched, &mut programs, &mut registry, "shell", 0).unwrap();
    spawn(&mut sched, &mut programs, &mut registry, "net", 0).unwrap();
    World { heap, programs, registry, sched }
}

fn region(w: &World, addr: usize) -> (usize, usize, String, bool) {
    let MemoryRegionInfo { start, end, region_name, is_allocated } =
        find_region(&w.heap, &w.programs, &w.registry, &w.sched, addr);
    let name = match region_name {
        RegionName::Static(s) => s.to_string(),
        RegionName::Program(p) => String::from_utf8(p).unwrap(),
    };
    (start, end, name, is_allocated)
}

#[test]
fn regions_by_address() {
    let mut w = world();
    let code = w.programs.allocate(8192).unwrap();
    register_task_program(&mut w.registry, 1, code, 8192, b"hello");
    let k = w.heap.allocate(100, 8, None).unwrap();
    let t = w.heap.allocate(1000, 8, Some(1)).unwrap();
    let ghost = w.heap.allocate(1000, 8, Some(42)).unwrap();

    assert_eq!(region(&w, 0), (0x100000, 0x200000, "Kernel".to_string(), true));
    assert_eq!(region(&w, 0x1FFFFF), (0x100000, 0x200000, "Kernel".to_string(), true));
    // the first pixel holds the kernel's 120 bytes and 136 of the task
    assert_eq!(region(&w, k), (0x200000, 0x200000 + 120, "net".to_string(), true));
    assert_eq!(region(&w, t + 500).2, "net");
    assert_eq!(region(&w, ghost + 500).2, "Task");
    let free_start = 0x200000 + 120 + 1016 + 1016;
    assert_eq!(region(&w, 0x300000), (free_start, 0x400000, "Heap".to_string(), false));

    assert_eq!(region(&w, 0x400000), (0x400000, 0x400000 + STACK_SIZE, "Stack".to_string(), true));
    assert_eq!(region(&w, code + 1), (code, code + 8192, "hello".to_string(), true));
    assert_eq!(region(&w, 0x800000), (code + 8192, 0x1000000, "Program".to_string(), false));
    assert_eq!(region(&w, 0x1000000), (0x1000000, 0x1000100, "Unknown".to_string(), false));
    assert_eq!(region(&w, usize::MAX).1, usize::MAX);
}

#[test]
fn kernel_allocation_alone_in_its_pixel() {
    let mut w = world();
    let k = w.heap.allocate(1000, 8, None).unwrap();
    assert_eq!(region(&w, k).2, "Kernel");
    assert_eq!(get_task_name_static(&w.sched, None), "Kernel");
    assert_eq!(get_task_name_static(&w.sched, Some(0)), "shell");
    assert_eq!(get_task_name_static(&w.sched, Some(9)), "Task");
}

#[test]
fn uninitialised_allocators_fall_back_to_whole_regions() {
    let heap = LinkedListAllocator::new();
    let programs = ProgramAllocator::new();
    let registry = ExecRegistry::new();
    let sched = Scheduler::new();
    let r = find_region(&heap, &programs, &registry, &sched, 0x250000);
    assert_eq!((r.start, r.end, r.is_allocated), (0x200000, 0x400000, false));
    let r = find_region(&heap, &programs, &registry, &sched, 0x450000);
    assert_eq!((r.start, r.end, r.is_allocated), (0x400000, 0x1000000, false));
}

#[test]
fn region_statistics() {
    let mut w = world();
    w.heap.allocate(1000, 8, None).unwrap();
    let s = get_region_stats(&w.heap, &w.programs);
    assert_eq!(s.len(), 3);
    assert_eq!((s[0].name, s[0].start, s[0].end, s[0].used, s[0].free), ("Kernel", 0x100000, 0x200000, 0x100000, 0));
    assert_eq!((s[1].name, s[1].used, s[1].free), ("Heap", 1016, 0x200000 - 1016));
    assert_eq!((s[2].name, s[2].used, s[2].free), ("Program", 2 * STACK_SIZE, 0xC00000 - 2 * STACK_SIZE));
}

#[test]
fn task_memory_joins_ledger_and_heap() {
    let mut w = world();
    let code = w.programs.allocate(8192).unwrap();
    register_task_program(&mut w.registry, 1, code, 8192, b"hello");
    let h = task_alloc(&mut w.registry, &mut w.programs, 1, 10).unwrap();
    w.heap.allocate(8, 8, None).unwrap();
    w.heap.allocate(8, 8, Some(1)).unwrap();
    w.sched.spawn("bare", 0, 0x900000).unwrap();
    let info = get_task_memory_info(&w.sched, &w.registry, &w.heap);
    assert_eq!(info.len(), 3);
    assert_eq!((info[0].id, info[0].name, info[0].state), (0, "shell", TaskState::Ready));
    assert_eq!(info[0].stack, Some((0x400000, STACK_SIZE)));
    assert_eq!(info[0].program, None);
    assert!(info[0].program_heap.is_empty() && info[0].kernel_heap.is_empty());
    assert_eq!(info[1].program, Some((code, 8192, b"hello".to_vec())));
    assert_eq!(info[1].program_heap, vec![(h, 4096)]);
    assert_eq!(info[1].kernel_heap, vec![(0x200000 + 24, 24)]);
    // a task that the ledger does not know
    assert_eq!((info[2].stack, info[2].program.clone()), (None, None));
    assert_eq!(get_kernel_heap_allocations(&w.heap), vec![(0x200000, 24)]);
}
