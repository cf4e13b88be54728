//! Memory map queries: what owns an address, how full each region is,
//! and what each task holds. Everything is answered from the allocators,
//! the loader's ledger and the task vector; no bookkeeping of its own.

use vstd::prelude::*;
use crate::allocator::{
    find_allocation, find_free_region, find_majority_owner, get_heap_stats,
    get_task_heap_allocations, owned_blocks, spec_encode_task_id, spec_find_allocation,
    spec_find_free_region, spec_find_majority_owner, spec_heap_stats, LinkedListAllocator,
    MAX_SNAPSHOT_ALLOCS,
};
use crate::executable::{
    copy_bytes, copy_extents, find_program_by_addr, ledger_has, ledger_slot, program_index,
    spec_extent_end, AllocationsView, ExecRegistry,
};
use crate::program_alloc::ProgramAllocator;
use crate::scheduler::Scheduler;
use crate::task::{Task, TaskId, TaskState};

verus! {

pub const KERNEL_START: usize = 0x10_0000;

pub const KERNEL_END: usize = 0x20_0000;

pub const HEAP_START: usize = 0x20_0000;

pub const HEAP_END: usize = 0x40_0000;

pub const PROGRAM_START: usize = 0x40_0000;

pub const PROGRAM_END: usize = 0x100_0000;

/// Bytes that one pixel of the memory map stands for.
pub const BYTES_PER_PIXEL: usize = 256;

/// Name shown for a region.
pub enum RegionName {
    /// A fixed name or the name of a task.
    Static(&'static str),
    /// The name of a loaded program.
    Program(Vec<u8>),
}

/// A region name as plain values.
pub enum NameView {
    Static(&'static str),
    Program(Seq<u8>),
}

impl View for RegionName {
    type V = NameView;

    open spec fn view(&self) -> NameView {
        match self {
            RegionName::Static(s) => NameView::Static(*s),
            RegionName::Program(p) => NameView::Program(p@),
        }
    }
}

/// The region that contains an address.
pub struct MemoryRegionInfo {
    /// First address of the region.
    pub start: usize,
    /// One past its last address.
    pub end: usize,
    /// Name to show for it.
    pub region_name: RegionName,
    /// Whether it is allocated.
    pub is_allocated: bool,
}

/// A region as plain values.
pub struct RegionView {
    pub start: usize,
    pub end: usize,
    pub region_name: NameView,
    pub is_allocated: bool,
}

impl View for MemoryRegionInfo {
    type V = RegionView;

    open spec fn view(&self) -> RegionView {
        RegionView {
            start: self.start,
            end: self.end,
            region_name: self.region_name@,
            is_allocated: self.is_allocated,
        }
    }
}

/// Use of one of the three major regions.
#[derive(Debug, Clone, Copy)]
pub struct RegionStats {
    pub name: &'static str,
    pub start: usize,
    pub end: usize,
    /// Bytes in use.
    pub used: usize,
    /// Bytes free.
    pub free: usize,
}

/// What one task holds.
pub struct TaskMemoryInfo {
    pub id: TaskId,
    pub name: &'static str,
    pub state: TaskState,
    /// Stack in the program region as (base, size), if the ledger has it.
    pub stack: Option<(usize, usize)>,
    /// Program image as (base, size, name), for a loaded program.
    pub program: Option<(usize, usize, Vec<u8>)>,
    /// Program heap blocks as (address, size).
    pub program_heap: Vec<(usize, usize)>,
    /// Kernel heap allocations as (block start, block size).
    pub kernel_heap: Vec<(usize, usize)>,
}

/// What one task holds, as plain values.
pub struct TaskMemoryView {
    pub id: TaskId,
    pub name: &'static str,
    pub state: TaskState,
    pub stack: Option<(usize, usize)>,
    pub program: Option<(usize, usize, Seq<u8>)>,
    pub program_heap: Seq<(usize, usize)>,
    pub kernel_heap: Seq<(usize, usize)>,
}

impl View for TaskMemoryInfo {
    type V = TaskMemoryView;

    open spec fn view(&self) -> TaskMemoryView {
        TaskMemoryView {
            id: self.id,
            name: self.name,
            state: self.state,
            stack: self.stack,
            program: match self.program {
                Some((base, size, name)) => Some((base, size, name@)),
                None => None,
            },
            program_heap: self.program_heap@,
            kernel_heap: self.kernel_heap@,
        }
    }
}

/// Index of the first task at or after `from` with id `id`, or the
/// number of tasks.
pub open spec fn task_index(tasks: Seq<Task>, id: TaskId, from: int) -> int
    decreases tasks.len() - from,
{
    if from >= tasks.len() {
        tasks.len() as int
    } else if tasks[from].id == id {
        from
    } else {
        task_index(tasks, id, from + 1)
    }
}

/// The name to show for the owner of a kernel heap allocation: "Kernel"
/// for the kernel itself, the task's name for a task that exists, and
/// "Task" for one that does not.
pub open spec fn spec_task_name(tasks: Seq<Task>, task_id: Option<TaskId>) -> &'static str {
    match task_id {
        None => "Kernel",
        Some(id) => if task_index(tasks, id, 0) < tasks.len() {
            tasks[task_index(tasks, id, 0)].name
        } else {
            "Task"
        },
    }
}

/// The region of the kernel heap that contains `addr`: the allocation,
/// named after the owner of most of the pixel that `addr` falls in, or
/// the free block.
pub open spec fn spec_heap_region(heap: LinkedListAllocator, tasks: Seq<Task>, addr: usize) -> RegionView {
    let pixel = (addr / BYTES_PER_PIXEL) * BYTES_PER_PIXEL;
    match spec_find_allocation(heap.blocks(), addr as int) {
        Some((start, end)) => RegionView {
            start,
            end,
            region_name: NameView::Static(
                match spec_find_majority_owner(heap.blocks(), pixel as int, pixel + BYTES_PER_PIXEL) {
                    Some((owner, _)) => spec_task_name(tasks, owner),
                    None => "Heap",
                },
            ),
            is_allocated: true,
        },
        None => match spec_find_free_region(heap.blocks(), addr as int) {
            Some((start, end)) => RegionView {
                start,
                end,
                region_name: NameView::Static("Heap"),
                is_allocated: false,
            },
            None => RegionView {
                start: HEAP_START,
                end: HEAP_END,
                region_name: NameView::Static("Heap"),
                is_allocated: false,
            },
        },
    }
}

/// The region of the program region that contains `addr`: a loaded
/// program by its name, any other allocation as a stack, or the free
/// block.
pub open spec fn spec_program_region(
    programs: ProgramAllocator,
    ledger: Seq<AllocationsView>,
    initialized: bool,
    addr: usize,
) -> RegionView {
    let k = program_index(ledger, addr, 0);
    if initialized && k < ledger.len() {
        let p = ledger[k].program.unwrap();
        RegionView {
            start: p.0,
            end: spec_extent_end(p.0, p.1),
            region_name: NameView::Program(p.2),
            is_allocated: true,
        }
    } else {
        match crate::program_alloc::spec_find_allocation(programs.blocks(), addr as int) {
            Some((start, end)) => RegionView {
                start,
                end,
                region_name: NameView::Static("Stack"),
                is_allocated: true,
            },
            None => match crate::program_alloc::spec_find_free_region(
                programs.blocks(),
                addr as int,
            ) {
                Some((start, end)) => RegionView {
                    start,
                    end,
                    region_name: NameView::Static("Program"),
                    is_allocated: false,
                },
                None => RegionView {
                    start: PROGRAM_START,
                    end: PROGRAM_END,
                    region_name: NameView::Static("Program"),
                    is_allocated: false,
                },
            },
        }
    }
}

/// The region that contains `addr`.
///
/// Addresses below the heap belong to the kernel image, which counts as
/// allocated. Heap and program addresses are answered by the allocators.
/// Addresses beyond the program region are unknown; the answer covers one
/// pixel from `addr` on.
pub open spec fn spec_find_region(
    heap: LinkedListAllocator,
    programs: ProgramAllocator,
    ledger: Seq<AllocationsView>,
    initialized: bool,
    tasks: Seq<Task>,
    addr: usize,
) -> RegionView {
    if addr < KERNEL_END {
        RegionView {
            start: KERNEL_START,
            end: KERNEL_END,
            region_name: NameView::Static("Kernel"),
            is_allocated: true,
        }
    } else if addr < HEAP_END {
        spec_heap_region(heap, tasks, addr)
    } else if addr < PROGRAM_END {
        spec_program_region(programs, ledger, initialized, addr)
    } else {
        RegionView {
            start: addr,
            end: spec_extent_end(addr, BYTES_PER_PIXEL),
            region_name: NameView::Static("Unknown"),
            is_allocated: false,
        }
    }
}

/// The name to show for the owner of a kernel heap allocation.
pub fn get_task_name_static(sched: &Scheduler, task_id: Option<TaskId>) -> (name: &'static str)
    ensures
        name == spec_task_name(sched.tasks@, task_id),
{
    match task_id {
        None => "Kernel",
        Some(id) => {
            let n: usize = sched.tasks.len();
            let mut i: usize = 0;
            while i < n
                invariant
                    n == sched.tasks@.len(),
                    task_id == Some(id),
                    i <= n,
                    task_index(sched.tasks@, id, 0) == task_index(sched.tasks@, id, i as int),
                decreases n - i,
            {
                if sched.tasks[i].id == id {
                    return sched.tasks[i].name;
                }
                i += 1;
            }
            "Task"
        },
    }
}

/// Finds the region that contains `addr`.
pub fn find_region(
    heap: &LinkedListAllocator,
    programs: &ProgramAllocator,
    registry: &ExecRegistry,
    sched: &Scheduler,
    addr: usize,
) -> (r: MemoryRegionInfo)
    requires
        heap.wf(),
        programs.wf(),
    ensures
        r@ == spec_find_region(
            *heap,
            *programs,
            registry.ledger(),
            registry.initialized,
            sched.tasks@,
            addr,
        ),
{
    if addr < KERNEL_END {
        return MemoryRegionInfo {
            start: KERNEL_START,
            end: KERNEL_END,
            region_name: RegionName::Static("Kernel"),
            is_allocated: true,
        };
    }
    if addr < HEAP_END {
        match find_allocation(heap, addr) {
            Some((start, end)) => {
                let pixel_start: usize = (addr / BYTES_PER_PIXEL) * BYTES_PER_PIXEL;
                let pixel_end: usize = pixel_start + BYTES_PER_PIXEL;
                let name: &'static str = match find_majority_owner(heap, pixel_start, pixel_end) {
                    Some((owner, _)) => get_task_name_static(sched, owner),
                    None => "Heap",
                };
                return MemoryRegionInfo {
                    start,
                    end,
                    region_name: RegionName::Static(name),
                    is_allocated: true,
                };
            },
            None => {},
        }
        match find_free_region(heap, addr) {
            Some((start, end)) => {
                return MemoryRegionInfo {
                    start,
                    end,
                    region_name: RegionName::Static("Heap"),
                    is_allocated: false,
                };
            },
            None => {},
        }
        return MemoryRegionInfo {
            start: HEAP_START,
            end: HEAP_END,
            region_name: RegionName::Static("Heap"),
            is_allocated: false,
        };
    }
    if addr < PROGRAM_END {
        match find_program_by_addr(registry, addr) {
            Some((start, end, name)) => {
                return MemoryRegionInfo {
                    start,
                    end,
                    region_name: RegionName::Program(name),
                    is_allocated: true,
                };
            },
            None => {},
        }
        match programs.find_allocation(addr) {
            Some((start, end)) => {
                return MemoryRegionInfo {
                    start,
                    end,
                    region_name: RegionName::Static("Stack"),
                    is_allocated: true,
                };
            },
            None => {},
        }
        match programs.find_free_region(addr) {
            Some((start, end)) => {
                return MemoryRegionInfo {
                    start,
                    end,
                    region_name: RegionName::Static("Program"),
                    is_allocated: false,
                };
            },
            None => {},
        }
        return MemoryRegionInfo {
            start: PROGRAM_START,
            end: PROGRAM_END,
            region_name: RegionName::Static("Program"),
            is_allocated: false,
        };
    }
    MemoryRegionInfo {
        start: addr,
        end: addr.saturating_add(BYTES_PER_PIXEL),
        region_name: RegionName::Static("Unknown"),
        is_allocated: false,
    }
}

/// Use of the kernel image, the kernel heap and the program region, in
/// that order. The kernel image counts as fully used.
pub fn get_region_stats(heap: &LinkedListAllocator, programs: &ProgramAllocator) -> (stats: Vec<
    RegionStats,
>)
    requires
        heap.wf(),
        programs.wf(),
    ensures
        stats@.len() == 3,
        stats@[0].name == "Kernel" && stats@[0].start == KERNEL_START && stats@[0].end == KERNEL_END
            && stats@[0].used == KERNEL_END - KERNEL_START && stats@[0].free == 0,
        stats@[1].name == "Heap" && stats@[1].start == HEAP_START && stats@[1].end == HEAP_END && (
        stats@[1].used as int, stats@[1].free as int) == spec_heap_stats(
            heap.blocks(),
            heap.total(),
        ),
        stats@[2].name == "Program" && stats@[2].start == PROGRAM_START && stats@[2].end
            == PROGRAM_END && stats@[2].used == programs.allocated && stats@[2].free
            == crate::region::free_bytes(programs.blocks()),
{
    let mut stats: Vec<RegionStats> = Vec::new();
    stats.push(
        RegionStats {
            name: "Kernel",
            start: KERNEL_START,
            end: KERNEL_END,
            used: KERNEL_END - KERNEL_START,
            free: 0,
        },
    );
    let (heap_used, heap_free) = get_heap_stats(heap);
    stats.push(
        RegionStats {
            name: "Heap",
            start: HEAP_START,
            end: HEAP_END,
            used: heap_used,
            free: heap_free,
        },
    );
    let (prog_used, prog_free) = programs.stats();
    stats.push(
        RegionStats {
            name: "Program",
            start: PROGRAM_START,
            end: PROGRAM_END,
            used: prog_used,
            free: prog_free,
        },
    );
    stats
}

/// What task `t` holds, given the ledger and the kernel heap.
pub open spec fn spec_task_memory(
    t: Task,
    ledger: Seq<AllocationsView>,
    initialized: bool,
    heap: LinkedListAllocator,
) -> TaskMemoryView {
    let k = ledger_slot(ledger, t.id, 0);
    let listed = initialized && ledger_has(ledger, t.id);
    TaskMemoryView {
        id: t.id,
        name: t.name,
        state: t.state,
        stack: if listed {
            Some(ledger[k].stack)
        } else {
            None
        },
        program: if listed {
            ledger[k].program
        } else {
            None
        },
        program_heap: if listed {
            ledger[k].heap_blocks
        } else {
            Seq::empty()
        },
        kernel_heap: owned_blocks(
            heap.blocks(),
            spec_encode_task_id(Some(t.id)),
            heap.blocks().len() as int,
            MAX_SNAPSHOT_ALLOCS as int,
        ),
    }
}

/// What every task holds, in task-vector order: the task's ledger entry
/// joined with its kernel heap allocations.
pub fn get_task_memory_info(sched: &Scheduler, registry: &ExecRegistry, heap: &LinkedListAllocator) -> (out:
    Vec<TaskMemoryInfo>)
    ensures
        out@.len() == sched.tasks@.len(),
        forall|i: int|
            0 <= i < out@.len() ==> (#[trigger] out@[i])@ == spec_task_memory(
                sched.tasks@[i],
                registry.ledger(),
                registry.initialized,
                *heap,
            ),
{
    let mut out: Vec<TaskMemoryInfo> = Vec::new();
    let n: usize = sched.tasks.len();
    let mut i: usize = 0;
    while i < n
        invariant
            n == sched.tasks@.len(),
            i <= n,
            out@.len() == i,
            forall|k: int|
                0 <= k < i ==> (#[trigger] out@[k])@ == spec_task_memory(
                    sched.tasks@[k],
                    registry.ledger(),
                    registry.initialized,
                    *heap,
                ),
        decreases n - i,
    {
        let t: Task = sched.tasks[i];
        let kernel_heap: Vec<(usize, usize)> = get_task_heap_allocations(heap, Some(t.id));
        let slot: usize = registry.find_slot(t.id);
        let listed: bool = registry.initialized && slot < registry.task_allocations.len()
            && registry.task_allocations[slot].task_id == t.id;
        let info = if listed {
            let entry = &registry.task_allocations[slot];
            TaskMemoryInfo {
                id: t.id,
                name: t.name,
                state: t.state,
                stack: Some(entry.stack),
                program: match &entry.program {
                    Some((base, size, name)) => Some((*base, *size, copy_bytes(name))),
                    None => None,
                },
                program_heap: copy_extents(&entry.heap_blocks),
                kernel_heap,
            }
        } else {
            TaskMemoryInfo {
                id: t.id,
                name: t.name,
                state: t.state,
                stack: None,
                program: None,
                program_heap: Vec::new(),
                kernel_heap,
            }
        };
        out.push(info);
        i += 1;
    }
    out
}

/// The kernel heap allocations that belong to no task.
pub fn get_kernel_heap_allocations(heap: &LinkedListAllocator) -> (out: Vec<(usize, usize)>)
    ensures
        out@ == owned_blocks(
            heap.blocks(),
            spec_encode_task_id(None),
            heap.blocks().len() as int,
            MAX_SNAPSHOT_ALLOCS as int,
        ),
{
    get_task_heap_allocations(heap, None)
}

} // verus!
