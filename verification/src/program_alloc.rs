//! Program region: a first-fit allocator in whole pages over the fixed
//! range that holds task stacks, loaded program images and program heaps.

use vstd::prelude::*;
use crate::allocator::{lemma_align_up, spec_align_up, Spinlock};
use crate::region::{
    block_index, contains, first_fit, free_bytes, lemma_block_in_region,
    lemma_block_index_is, lemma_first_fit, lemma_release, lemma_take,
    lemma_take_release_round_trip, spec_release, spec_take, Block, Region,
    NO_OWNER,
};

verus! {

/// First address of the program region (4 MiB).
pub const PROGRAM_REGION_START: usize = 0x40_0000;

/// One past the last address of the program region (16 MiB).
pub const PROGRAM_REGION_END: usize = 0x100_0000;

/// Size of the program region (12 MiB).
pub const PROGRAM_REGION_SIZE: usize = 0xC0_0000;

/// Allocation granularity: one 4 KiB page.
pub const PAGE_SIZE: usize = 4096;

/// Bytes that a request for `size` bytes occupies: the size rounded up to
/// whole pages, and at least one page.
pub open spec fn spec_page_round(size: usize) -> int {
    if size == 0 {
        PAGE_SIZE as int
    } else {
        spec_align_up(size as int, PAGE_SIZE as int)
    }
}

/// Index of the block that a request is served from, if it can be served.
pub open spec fn spec_allocate_index(blocks: Seq<Block>, size: usize) -> Option<int> {
    if spec_page_round(size) > usize::MAX {
        None
    } else {
        let i = first_fit(blocks, spec_page_round(size), 0);
        if i < blocks.len() {
            Some(i)
        } else {
            None
        }
    }
}

/// Whether `[addr, addr + round(size))` is exactly one live allocation.
pub open spec fn spec_is_allocated(blocks: Seq<Block>, addr: int, size: usize) -> bool {
    let i = block_index(blocks, addr, 0);
    i < blocks.len() && !blocks[i].free && blocks[i].start == addr && blocks[i].size
        == spec_page_round(size)
}

/// The extent of the allocation that contains `addr`, if any.
pub open spec fn spec_find_allocation(blocks: Seq<Block>, addr: int) -> Option<(usize, usize)> {
    let i = block_index(blocks, addr, 0);
    if i < blocks.len() && !blocks[i].free {
        Some((blocks[i].start, (blocks[i].start + blocks[i].size) as usize))
    } else {
        None
    }
}

/// The extent of the free block that contains `addr`, if any.
pub open spec fn spec_find_free_region(blocks: Seq<Block>, addr: int) -> Option<(usize, usize)> {
    let i = block_index(blocks, addr, 0);
    if i < blocks.len() && blocks[i].free {
        Some((blocks[i].start, (blocks[i].start + blocks[i].size) as usize))
    } else {
        None
    }
}

/// The program-region allocator.
pub struct ProgramAllocator {
    /// The region and its blocks.
    pub region: Region,
    /// Bytes currently allocated.
    pub allocated: usize,
}

impl ProgramAllocator {
    /// The region partitions exactly into used and free page-granular
    /// blocks with no two free blocks adjacent, the allocated count is
    /// what the free list leaves, and the region is either not set up yet
    /// or the fixed program region.
    pub open spec fn wf(&self) -> bool {
        &&& self.region.wf()
        &&& self.region.granule == PAGE_SIZE
        &&& self.region.min_block == PAGE_SIZE
        &&& self.allocated == self.region.end - self.region.start - free_bytes(self.region.blocks@)
        &&& (self.region.start == 0 && self.region.end == 0 || self.region.start
            == PROGRAM_REGION_START && self.region.end == PROGRAM_REGION_END)
    }

    /// The blocks of the region in address order.
    pub open spec fn blocks(&self) -> Seq<Block> {
        self.region.blocks@
    }

    /// An allocator that manages no memory yet.
    pub fn new() -> (a: ProgramAllocator)
        ensures
            a.wf(),
            a.blocks().len() == 0,
            a.allocated == 0,
    {
        ProgramAllocator { region: Region::new(PAGE_SIZE, PAGE_SIZE), allocated: 0 }
    }

    /// Takes over the whole program region as one free block.
    pub fn init(&mut self)
        requires
            old(self).region.granule == PAGE_SIZE,
            old(self).region.min_block == PAGE_SIZE,
        ensures
            final(self).wf(),
            final(self).allocated == 0,
            final(self).region.start == PROGRAM_REGION_START,
            final(self).region.end == PROGRAM_REGION_END,
            final(self).blocks() == seq![
                Block {
                    start: PROGRAM_REGION_START,
                    size: PROGRAM_REGION_SIZE,
                    free: true,
                    owner: NO_OWNER,
                },
            ],
    {
        self.region.init(PROGRAM_REGION_START, PROGRAM_REGION_SIZE);
        self.allocated = 0;
        proof {
            let b = Block {
                start: PROGRAM_REGION_START,
                size: PROGRAM_REGION_SIZE,
                free: true,
                owner: NO_OWNER,
            };
            assert(self.blocks()[0] == b);
            assert(crate::region::free_upto(self.blocks(), 0) == 0);
            assert(free_bytes(self.blocks()) == PROGRAM_REGION_SIZE);
        }
    }

    /// `size` rounded up to whole pages, or `None` if that does not fit
    /// the address type.
    pub fn align_up(size: usize) -> (r: Option<usize>)
        ensures
            match r {
                Some(v) => v == spec_align_up(size as int, PAGE_SIZE as int),
                None => spec_align_up(size as int, PAGE_SIZE as int) > usize::MAX,
            },
    {
        proof {
            lemma_align_up(size as int, PAGE_SIZE as int);
        }
        let rem: usize = size % PAGE_SIZE;
        if rem == 0 {
            Some(size)
        } else {
            let pad: usize = PAGE_SIZE - rem;
            if size > usize::MAX - pad {
                None
            } else {
                Some(size + pad)
            }
        }
    }

    /// Allocates `size` bytes rounded up to whole pages from the
    /// lowest-addressed free block that can hold them, and returns the
    /// start of the allocation; `None` if no free block is large enough.
    pub fn allocate(&mut self, size: usize) -> (r: Option<usize>)
        requires
            old(self).wf(),
        ensures
            final(self).wf(),
            final(self).region.start == old(self).region.start,
            final(self).region.end == old(self).region.end,
            match spec_allocate_index(old(self).blocks(), size) {
                None => r.is_none()
                    && final(self).blocks() == old(self).blocks()
                    && final(self).allocated == old(self).allocated,
                Some(i) => {
                    &&& r == Some(old(self).blocks()[i].start)
                    &&& final(self).blocks() == spec_take(
                        old(self).blocks(),
                        i,
                        spec_page_round(size),
                        PAGE_SIZE as int,
                        NO_OWNER,
                    )
                    &&& final(self).allocated == old(self).allocated + spec_page_round(size)
                    &&& spec_is_allocated(final(self).blocks(), r.unwrap() as int, size)
                    &&& r.unwrap() % PAGE_SIZE == 0
                    &&& old(self).region.start <= r.unwrap()
                    &&& r.unwrap() + spec_page_round(size) <= old(self).region.end
                },
            },
    {
        let total: usize = if size == 0 {
            PAGE_SIZE
        } else {
            match Self::align_up(size) {
                Some(t) => t,
                None => {
                    return None;
                },
            }
        };
        proof {
            lemma_align_up(size as int, PAGE_SIZE as int);
        }
        match self.region.find_first_fit(total) {
            None => None,
            Some(i) => {
                let b: Block = self.region.blocks[i];
                proof {
                    lemma_take(
                        self.blocks(),
                        self.region.start as int,
                        self.region.end as int,
                        PAGE_SIZE as int,
                        PAGE_SIZE as int,
                        i as int,
                        total as int,
                        NO_OWNER,
                    );
                    lemma_block_in_region(
                        self.blocks(),
                        self.region.start as int,
                        self.region.end as int,
                        i as int,
                    );
                    crate::region::lemma_free_upto_bound(
                        self.blocks(),
                        self.region.start as int,
                        self.region.end as int,
                        self.blocks().len() as int,
                    );
                    lemma_page_remainder(b.size as int, total as int);
                    let after = spec_take(
                        self.blocks(),
                        i as int,
                        total as int,
                        PAGE_SIZE as int,
                        NO_OWNER,
                    );
                    crate::region::lemma_free_upto_bound(
                        after,
                        self.region.start as int,
                        self.region.end as int,
                        after.len() as int,
                    );
                    assert(contains(after[i as int], b.start as int));
                    lemma_block_index_is(
                        after,
                        self.region.start as int,
                        self.region.end as int,
                        b.start as int,
                        i as int,
                    );
                }
                let taken: usize = self.region.take(i, total, NO_OWNER);
                self.allocated = self.allocated + taken;
                Some(b.start)
            },
        }
    }

    /// Whether `[addr, addr + round(size))` is exactly one live allocation.
    pub fn is_allocated(&self, addr: usize, size: usize) -> (r: bool)
        ensures
            r == spec_is_allocated(self.blocks(), addr as int, size),
    {
        let total: usize = if size == 0 {
            PAGE_SIZE
        } else {
            match Self::align_up(size) {
                Some(t) => t,
                None => {
                    return false;
                },
            }
        };
        match self.region.find_block(addr) {
            None => false,
            Some(i) => {
                let b: Block = self.region.blocks[i];
                !b.free && b.start == addr && b.size == total
            },
        }
    }

    /// Frees the allocation at `addr`, whose size the caller states as at
    /// allocation time: the block returns to the free list and is merged
    /// with its free neighbours.
    pub fn deallocate(&mut self, addr: usize, size: usize)
        requires
            old(self).wf(),
            spec_is_allocated(old(self).blocks(), addr as int, size),
        ensures
            final(self).wf(),
            final(self).region.start == old(self).region.start,
            final(self).region.end == old(self).region.end,
            final(self).blocks() == spec_release(
                old(self).blocks(),
                block_index(old(self).blocks(), addr as int, 0),
            ),
            final(self).allocated == old(self).allocated - spec_page_round(size),
    {
        match self.region.find_block(addr) {
            None => {},
            Some(i) => {
                let b: Block = self.region.blocks[i];
                proof {
                    lemma_release(
                        self.blocks(),
                        self.region.start as int,
                        self.region.end as int,
                        PAGE_SIZE as int,
                        PAGE_SIZE as int,
                        i as int,
                    );
                    crate::region::lemma_free_upto_bound(
                        spec_release(self.blocks(), i as int),
                        self.region.start as int,
                        self.region.end as int,
                        spec_release(self.blocks(), i as int).len() as int,
                    );
                }
                self.region.release(i);
                self.allocated = self.allocated - b.size;
            },
        }
    }

    /// Allocated and free bytes.
    pub fn stats(&self) -> (r: (usize, usize))
        requires
            self.wf(),
        ensures
            r.0 == self.allocated,
            r.1 == free_bytes(self.blocks()),
            r.0 + r.1 == self.region.end - self.region.start,
    {
        let free: usize = self.region.free_total();
        (self.allocated, free)
    }

    /// The extent `(start, end)` of the allocation that contains `addr`.
    pub fn find_allocation(&self, addr: usize) -> (r: Option<(usize, usize)>)
        requires
            self.wf(),
        ensures
            r == spec_find_allocation(self.blocks(), addr as int),
    {
        match self.region.find_block(addr) {
            None => None,
            Some(i) => {
                let b: Block = self.region.blocks[i];
                proof {
                    lemma_block_in_region(
                        self.blocks(),
                        self.region.start as int,
                        self.region.end as int,
                        i as int,
                    );
                }
                if b.free {
                    None
                } else {
                    Some((b.start, b.start + b.size))
                }
            },
        }
    }

    /// The extent `(start, end)` of the free block that contains `addr`.
    pub fn find_free_region(&self, addr: usize) -> (r: Option<(usize, usize)>)
        requires
            self.wf(),
        ensures
            r == spec_find_free_region(self.blocks(), addr as int),
    {
        match self.region.find_block(addr) {
            None => None,
            Some(i) => {
                let b: Block = self.region.blocks[i];
                proof {
                    lemma_block_in_region(
                        self.blocks(),
                        self.region.start as int,
                        self.region.end as int,
                        i as int,
                    );
                }
                if b.free {
                    Some((b.start, b.start + b.size))
                } else {
                    None
                }
            },
        }
    }
}

/// What a page-granular request leaves of a page-granular block is either
/// nothing or at least a page, so a taken block is never larger than the
/// rounded request.
proof fn lemma_page_remainder(size: int, total: int)
    requires
        size % (PAGE_SIZE as int) == 0,
        total % (PAGE_SIZE as int) == 0,
        size >= total,
    ensures
        size == total || size - total >= PAGE_SIZE,
{
    crate::region::lemma_multiples_closed(size, total, PAGE_SIZE as int);
    if size > total && size - total < PAGE_SIZE {
        vstd::arithmetic::div_mod::lemma_small_mod((size - total) as nat, PAGE_SIZE as nat);
    }
}

/// Takes over the whole program region, inside the critical section.
pub fn init(pool: &mut Spinlock<ProgramAllocator>, interrupts_enabled: &mut bool)
    requires
        !old(pool).locked,
        old(pool).data.region.granule == PAGE_SIZE,
        old(pool).data.region.min_block == PAGE_SIZE,
    ensures
        !final(pool).locked,
        final(pool).data.wf(),
        final(pool).data.allocated == 0,
        final(pool).data.region.start == PROGRAM_REGION_START,
        final(pool).data.region.end == PROGRAM_REGION_END,
        final(pool).data.blocks() == seq![
            Block {
                start: PROGRAM_REGION_START,
                size: PROGRAM_REGION_SIZE,
                free: true,
                owner: NO_OWNER,
            },
        ],
        *final(interrupts_enabled) == *old(interrupts_enabled),
{
    let guard = pool.lock(interrupts_enabled);
    pool.data.init();
    pool.unlock(guard, interrupts_enabled);
}

/// Allocates from the program region inside the critical section.
pub fn allocate(pool: &mut Spinlock<ProgramAllocator>, size: usize, interrupts_enabled: &mut bool) -> (r:
    Option<usize>)
    requires
        !old(pool).locked,
        old(pool).data.wf(),
    ensures
        !final(pool).locked,
        final(pool).data.wf(),
        *final(interrupts_enabled) == *old(interrupts_enabled),
        match spec_allocate_index(old(pool).data.blocks(), size) {
            None => r.is_none() && final(pool).data.blocks() == old(pool).data.blocks(),
            Some(i) => {
                &&& r == Some(old(pool).data.blocks()[i].start)
                &&& final(pool).data.blocks() == spec_take(
                    old(pool).data.blocks(),
                    i,
                    spec_page_round(size),
                    PAGE_SIZE as int,
                    NO_OWNER,
                )
            },
        },
{
    let guard = pool.lock(interrupts_enabled);
    let r: Option<usize> = pool.data.allocate(size);
    pool.unlock(guard, interrupts_enabled);
    r
}

/// Frees a program-region allocation inside the critical section.
pub fn deallocate(
    pool: &mut Spinlock<ProgramAllocator>,
    addr: usize,
    size: usize,
    interrupts_enabled: &mut bool,
)
    requires
        !old(pool).locked,
        old(pool).data.wf(),
        spec_is_allocated(old(pool).data.blocks(), addr as int, size),
    ensures
        !final(pool).locked,
        final(pool).data.wf(),
        *final(interrupts_enabled) == *old(interrupts_enabled),
        final(pool).data.blocks() == spec_release(
            old(pool).data.blocks(),
            block_index(old(pool).data.blocks(), addr as int, 0),
        ),
{
    let guard = pool.lock(interrupts_enabled);
    pool.data.deallocate(addr, size);
    pool.unlock(guard, interrupts_enabled);
}

/// Allocated and free bytes of the program region, read inside the
/// critical section.
pub fn stats(pool: &mut Spinlock<ProgramAllocator>, interrupts_enabled: &mut bool) -> (r: (
    usize,
    usize,
))
    requires
        !old(pool).locked,
        old(pool).data.wf(),
    ensures
        !final(pool).locked,
        final(pool).data == old(pool).data,
        *final(interrupts_enabled) == *old(interrupts_enabled),
        r.0 == old(pool).data.allocated,
        r.1 == free_bytes(old(pool).data.blocks()),
{
    let guard = pool.lock(interrupts_enabled);
    let r: (usize, usize) = pool.data.stats();
    pool.unlock(guard, interrupts_enabled);
    r
}

/// Allocating and then freeing what was obtained restores the program
/// region exactly.
pub proof fn lemma_allocate_deallocate_round_trip(pool: ProgramAllocator, size: usize)
    requires
        pool.wf(),
        spec_allocate_index(pool.blocks(), size).is_some(),
    ensures
        ({
            let i = spec_allocate_index(pool.blocks(), size).unwrap();
            let allocated = spec_take(
                pool.blocks(),
                i,
                spec_page_round(size),
                PAGE_SIZE as int,
                NO_OWNER,
            );
            &&& block_index(allocated, pool.blocks()[i].start as int, 0) == i
            &&& spec_release(allocated, i) == pool.blocks()
        }),
{
    let blocks = pool.blocks();
    let total = spec_page_round(size);
    lemma_align_up(size as int, PAGE_SIZE as int);
    lemma_first_fit(blocks, total, 0);
    let i = first_fit(blocks, total, 0);
    lemma_take(
        blocks,
        pool.region.start as int,
        pool.region.end as int,
        PAGE_SIZE as int,
        PAGE_SIZE as int,
        i,
        total,
        NO_OWNER,
    );
    let after = spec_take(blocks, i, total, PAGE_SIZE as int, NO_OWNER);
    assert(contains(after[i], blocks[i].start as int));
    lemma_block_index_is(
        after,
        pool.region.start as int,
        pool.region.end as int,
        blocks[i].start as int,
        i,
    );
    lemma_take_release_round_trip(
        blocks,
        pool.region.start as int,
        pool.region.end as int,
        PAGE_SIZE as int,
        PAGE_SIZE as int,
        i,
        total,
        NO_OWNER,
    );
}

} // verus!
