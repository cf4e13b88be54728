//! Kernel heap: a first-fit allocator whose blocks carry a header that
//! attributes each allocation to the task that made it.

use vstd::prelude::*;
use crate::bytes::{
    le32_at, le64_at, lemma_le32_round_trip, lemma_le64_round_trip, push_le32, push_le64,
    spec_le32_at, spec_le32_bytes, spec_le64_at, spec_le64_bytes,
};
use crate::region::{
    block_index, blocks_wf, contains, first_fit, fits, free_bytes, lemma_block_in_region,
    lemma_block_index, lemma_block_index_is, lemma_first_fit, lemma_release, lemma_take,
    lemma_take_release_round_trip, release_lo, spec_release, spec_take, Block,
    Region, NO_OWNER,
};
use crate::task::TaskId;

verus! {

/// Alignment of every block and of every pointer handed out.
pub const ALIGNMENT: usize = 8;

/// Bytes of the header at the start of every allocated block: magic, owner
/// and block size.
pub const HEADER_SIZE: usize = 16;

/// Smallest block: it must be able to hold a free-list record.
pub const MIN_BLOCK_SIZE: usize = 16;

/// Magic stored in every allocation header: the bytes "RLPH".
pub const HEADER_MAGIC: u32 = 0x4850_4C52;

/// Owner stored for allocations made before any task runs.
pub const KERNEL_TASK_ID_SENTINEL: u32 = u32::MAX;

/// The owner word stored in a header for an optional task id.
pub open spec fn spec_encode_task_id(task_id: Option<TaskId>) -> u32 {
    match task_id {
        None => KERNEL_TASK_ID_SENTINEL,
        Some(id) => id,
    }
}

/// The optional task id that an owner word stands for.
pub open spec fn spec_decode_task_id(raw: u32) -> Option<TaskId> {
    if raw == KERNEL_TASK_ID_SENTINEL {
        None
    } else {
        Some(raw)
    }
}

/// Encodes an optional task id as a header owner word.
pub fn encode_task_id(task_id: Option<TaskId>) -> (raw: u32)
    ensures
        raw == spec_encode_task_id(task_id),
{
    match task_id {
        None => KERNEL_TASK_ID_SENTINEL,
        Some(id) => id,
    }
}

/// Decodes a header owner word.
pub fn decode_task_id(raw: u32) -> (task_id: Option<TaskId>)
    ensures
        task_id == spec_decode_task_id(raw),
{
    if raw == KERNEL_TASK_ID_SENTINEL {
        None
    } else {
        Some(raw)
    }
}

/// The task to blame for an allocation made now: nobody before the
/// scheduler is initialised, otherwise the task that is running.
pub fn get_current_task_id(scheduler_ready: bool, running: Option<TaskId>) -> (task_id: Option<
    TaskId,
>)
    ensures
        task_id == (if scheduler_ready {
            running
        } else {
            None
        }),
{
    if scheduler_ready {
        running
    } else {
        None
    }
}

/// `x` rounded up to the next multiple of `align`.
pub open spec fn spec_align_up(x: int, align: int) -> int {
    ((x + align - 1) / align) * align
}

/// Bytes that a request for `size` user bytes occupies: header plus at
/// least one user byte, rounded up to the alignment.
pub open spec fn spec_block_size(size: usize) -> int {
    spec_align_up(
        HEADER_SIZE + (if size == 0 {
            1int
        } else {
            size as int
        }),
        ALIGNMENT as int,
    )
}

/// Index of the block that a request is served from, if it can be served.
pub open spec fn spec_allocate_index(blocks: Seq<Block>, size: usize, align: usize) -> Option<int> {
    if align > ALIGNMENT || spec_block_size(size) > usize::MAX {
        None
    } else {
        let i = first_fit(blocks, spec_block_size(size), 0);
        if i < blocks.len() {
            Some(i)
        } else {
            None
        }
    }
}

/// Whether `ptr` is the user pointer of a live allocation: it lies one
/// header past the start of an in-use block.
pub open spec fn spec_is_allocated_ptr(blocks: Seq<Block>, ptr: int) -> bool {
    let i = block_index(blocks, ptr, 0);
    i < blocks.len() && !blocks[i].free && blocks[i].start + HEADER_SIZE == ptr
}

/// The blocks after the allocation with user pointer `ptr` is freed.
pub open spec fn spec_deallocate(blocks: Seq<Block>, ptr: int) -> Seq<Block> {
    spec_release(blocks, block_index(blocks, ptr, 0))
}

/// The extent of the allocation that contains `addr`, if any.
pub open spec fn spec_find_allocation(blocks: Seq<Block>, addr: int) -> Option<(usize, usize)> {
    let i = block_index(blocks, addr, 0);
    if i < blocks.len() && !blocks[i].free {
        Some((blocks[i].start, (blocks[i].start + blocks[i].size) as usize))
    } else {
        None
    }
}

/// The extent of the free block that contains `addr`, if any.
pub open spec fn spec_find_free_region(blocks: Seq<Block>, addr: int) -> Option<(usize, usize)> {
    let i = block_index(blocks, addr, 0);
    if i < blocks.len() && blocks[i].free {
        Some((blocks[i].start, (blocks[i].start + blocks[i].size) as usize))
    } else {
        None
    }
}

/// The owner of the allocation that contains `addr`, if any.
pub open spec fn spec_find_allocation_owner(blocks: Seq<Block>, addr: int) -> Option<
    Option<TaskId>,
> {
    let i = block_index(blocks, addr, 0);
    if i < blocks.len() && !blocks[i].free {
        Some(spec_decode_task_id(blocks[i].owner))
    } else {
        None
    }
}

/// Used and free bytes of a heap of `total` bytes.
pub open spec fn spec_heap_stats(blocks: Seq<Block>, total: int) -> (int, int) {
    (total - free_bytes(blocks), free_bytes(blocks))
}

/// The kernel heap.
pub struct LinkedListAllocator {
    /// The heap region and its blocks.
    pub region: Region,
}

impl LinkedListAllocator {
    /// The heap partitions exactly into used and free blocks, each a
    /// multiple of the alignment and no smaller than the minimum block, and
    /// no two free blocks are adjacent.
    pub open spec fn wf(&self) -> bool {
        &&& self.region.wf()
        &&& self.region.granule == ALIGNMENT
        &&& self.region.min_block == MIN_BLOCK_SIZE
    }

    /// The blocks of the heap in address order.
    pub open spec fn blocks(&self) -> Seq<Block> {
        self.region.blocks@
    }

    /// Total bytes managed.
    pub open spec fn total(&self) -> int {
        self.region.end - self.region.start
    }

    /// An allocator that manages no memory yet.
    pub fn new() -> (a: LinkedListAllocator)
        ensures
            a.wf(),
            a.blocks().len() == 0,
            a.region.start == 0,
            a.region.end == 0,
    {
        LinkedListAllocator { region: Region::new(ALIGNMENT, MIN_BLOCK_SIZE) }
    }

    /// Takes over `[heap_start, heap_start + heap_size)` as one free block.
    pub fn init(&mut self, heap_start: usize, heap_size: usize)
        requires
            old(self).wf(),
            heap_start % ALIGNMENT == 0,
            heap_size % ALIGNMENT == 0,
            heap_size >= MIN_BLOCK_SIZE,
            heap_start + heap_size <= usize::MAX,
        ensures
            final(self).wf(),
            final(self).region.start == heap_start,
            final(self).region.end == heap_start + heap_size,
            final(self).blocks() == seq![
                Block { start: heap_start, size: heap_size, free: true, owner: NO_OWNER },
            ],
    {
        self.region.init(heap_start, heap_size);
    }

    /// `addr` rounded up to a multiple of `align`, or `None` if that does
    /// not fit the address type.
    pub fn align_up(addr: usize, align: usize) -> (r: Option<usize>)
        requires
            align > 0,
        ensures
            match r {
                Some(v) => v == spec_align_up(addr as int, align as int),
                None => spec_align_up(addr as int, align as int) > usize::MAX,
            },
            spec_align_up(addr as int, align as int) >= addr,
            spec_align_up(addr as int, align as int) % (align as int) == 0,
            spec_align_up(addr as int, align as int) < addr + align,
    {
        proof {
            lemma_align_up(addr as int, align as int);
        }
        let rem: usize = addr % align;
        if rem == 0 {
            Some(addr)
        } else {
            let pad: usize = align - rem;
            if addr > usize::MAX - pad {
                None
            } else {
                Some(addr + pad)
            }
        }
    }

    /// Allocates `size` user bytes for `owner`.
    ///
    /// The request is rejected when `align` exceeds the heap alignment,
    /// and fails when no free block is large enough. Otherwise the
    /// lowest-addressed fitting free block is used: the request is carved
    /// from its front and the remainder stays free if it can stand as a
    /// block of its own, else it is absorbed. The result is the user
    /// pointer, one header past the block start.
    pub fn allocate(&mut self, size: usize, align: usize, owner: Option<TaskId>) -> (r: Option<
        usize,
    >)
        requires
            old(self).wf(),
        ensures
            final(self).wf(),
            final(self).region.start == old(self).region.start,
            final(self).region.end == old(self).region.end,
            match spec_allocate_index(old(self).blocks(), size, align) {
                None => r.is_none() && final(self).blocks() == old(self).blocks(),
                Some(i) => {
                    &&& r == Some((old(self).blocks()[i].start + HEADER_SIZE) as usize)
                    &&& final(self).blocks() == spec_take(
                        old(self).blocks(),
                        i,
                        spec_block_size(size),
                        MIN_BLOCK_SIZE as int,
                        spec_encode_task_id(owner),
                    )
                    &&& spec_is_allocated_ptr(final(self).blocks(), r.unwrap() as int)
                    &&& r.unwrap() % ALIGNMENT == 0
                },
            },
    {
        if align > ALIGNMENT {
            return None;
        }
        let user_size: usize = if size == 0 {
            1
        } else {
            size
        };
        if user_size > usize::MAX - HEADER_SIZE {
            proof {
                lemma_align_up(HEADER_SIZE + user_size, ALIGNMENT as int);
            }
            return None;
        }
        let total: usize = match Self::align_up(HEADER_SIZE + user_size, ALIGNMENT) {
            Some(t) => t,
            None => {
                return None;
            },
        };
        match self.region.find_first_fit(total) {
            None => None,
            Some(i) => {
                let start: usize = self.region.blocks[i].start;
                proof {
                    lemma_allocated_ptr_after_take(
                        self.blocks(),
                        self.region.start as int,
                        self.region.end as int,
                        i as int,
                        total as int,
                        spec_encode_task_id(owner),
                    );
                    lemma_block_in_region(
                        self.blocks(),
                        self.region.start as int,
                        self.region.end as int,
                        i as int,
                    );
                }
                let raw: u32 = encode_task_id(owner);
                self.region.take(i, total, raw);
                Some(start + HEADER_SIZE)
            },
        }
    }

    /// Whether `ptr` is the user pointer of a live allocation.
    pub fn is_allocated_ptr(&self, ptr: usize) -> (r: bool)
        ensures
            r == spec_is_allocated_ptr(self.blocks(), ptr as int),
    {
        match self.region.find_block(ptr) {
            None => false,
            Some(i) => {
                let b: Block = self.region.blocks[i];
                !b.free && ptr - b.start == HEADER_SIZE
            },
        }
    }

    /// The header that stands in front of the user bytes of the live
    /// allocation at `ptr`, at address `ptr - HEADER_SIZE`; `None` if `ptr`
    /// is no live allocation.
    pub fn header_of(&self, ptr: usize) -> (r: Option<Vec<u8>>)
        ensures
            match r {
                Some(h) => spec_header_matches(self.blocks(), ptr as int, h@) && h@ == spec_header(
                    self.blocks()[block_index(self.blocks(), ptr as int, 0)].owner,
                    self.blocks()[block_index(self.blocks(), ptr as int, 0)].size,
                ),
                None => !spec_is_allocated_ptr(self.blocks(), ptr as int),
            },
    {
        match self.region.find_block(ptr) {
            None => None,
            Some(i) => {
                let b: Block = self.region.blocks[i];
                if !b.free && ptr - b.start == HEADER_SIZE {
                    proof {
                        lemma_header_round_trip(b.owner, b.size);
                    }
                    Some(build_header(decode_task_id(b.owner), b.size))
                } else {
                    None
                }
            },
        }
    }

    /// Whether `header`, the bytes found in front of `ptr`, is the header
    /// of the live allocation at `ptr`. A pointer may be freed only if it
    /// is.
    pub fn header_matches(&self, ptr: usize, header: &[u8]) -> (r: bool)
        ensures
            r == spec_header_matches(self.blocks(), ptr as int, header@),
            r ==> spec_is_allocated_ptr(self.blocks(), ptr as int),
    {
        match self.region.find_block(ptr) {
            None => false,
            Some(i) => {
                let b: Block = self.region.blocks[i];
                if b.free || ptr - b.start != HEADER_SIZE {
                    return false;
                }
                match read_header(header) {
                    None => false,
                    Some((owner, size)) => encode_task_id(owner) == b.owner && size == b.size,
                }
            },
        }
    }

    /// Frees the allocation with user pointer `ptr`: the whole block
    /// returns to the free list and is merged with its free neighbours.
    pub fn deallocate(&mut self, ptr: usize)
        requires
            old(self).wf(),
            spec_is_allocated_ptr(old(self).blocks(), ptr as int),
        ensures
            final(self).wf(),
            final(self).region.start == old(self).region.start,
            final(self).region.end == old(self).region.end,
            final(self).blocks() == spec_deallocate(old(self).blocks(), ptr as int),
    {
        match self.region.find_block(ptr) {
            None => {},
            Some(i) => {
                self.region.release(i);
            },
        }
    }
}

/// The header at the start of an allocated block of `block_size` bytes
/// with owner word `owner`: the magic, the owner word and the block size,
/// each little-endian.
pub open spec fn spec_header(owner: u32, block_size: usize) -> Seq<u8> {
    spec_le32_bytes(HEADER_MAGIC) + spec_le32_bytes(owner) + spec_le64_bytes(block_size as u64)
}

/// The owner word and block size that a header holds; nothing if the
/// bytes are too few, do not start with the magic, or hold a size beyond
/// the address space.
pub open spec fn spec_read_header(bytes: Seq<u8>) -> Option<(u32, usize)> {
    if bytes.len() >= HEADER_SIZE && spec_le32_at(bytes, 0) == HEADER_MAGIC && spec_le64_at(
        bytes,
        8,
    ) <= usize::MAX {
        Some((spec_le32_at(bytes, 4) as u32, spec_le64_at(bytes, 8) as usize))
    } else {
        None
    }
}

/// Whether `header` is the header of the live allocation with user
/// pointer `ptr`: the pointer names a block in use, and the header holds
/// the magic and that block's owner and size.
pub open spec fn spec_header_matches(blocks: Seq<Block>, ptr: int, header: Seq<u8>) -> bool {
    let i = block_index(blocks, ptr, 0);
    spec_is_allocated_ptr(blocks, ptr) && spec_read_header(header) == Some(
        (blocks[i].owner, blocks[i].size),
    )
}

/// Builds the header of an allocated block.
pub fn build_header(owner: Option<TaskId>, block_size: usize) -> (out: Vec<u8>)
    ensures
        out@ == spec_header(spec_encode_task_id(owner), block_size),
        out@.len() == HEADER_SIZE,
{
    let mut out: Vec<u8> = Vec::new();
    push_le32(&mut out, HEADER_MAGIC);
    push_le32(&mut out, encode_task_id(owner));
    push_le64(&mut out, block_size as u64);
    out
}

/// Reads a header: the owner and the block size, or `None` if the bytes
/// are no header.
pub fn read_header(bytes: &[u8]) -> (r: Option<(Option<TaskId>, usize)>)
    ensures
        r == (match spec_read_header(bytes@) {
            Some((owner, size)) => Some((spec_decode_task_id(owner), size)),
            None => None,
        }),
{
    if bytes.len() < HEADER_SIZE {
        return None;
    }
    if le32_at(bytes, 0) != HEADER_MAGIC {
        return None;
    }
    let size: u64 = le64_at(bytes, 8);
    if size > usize::MAX as u64 {
        return None;
    }
    Some((decode_task_id(le32_at(bytes, 4)), size as usize))
}

/// A header that was built reads back as the owner and size it was built
/// for.
pub proof fn lemma_header_round_trip(owner: u32, block_size: usize)
    ensures
        spec_header(owner, block_size).len() == HEADER_SIZE,
        spec_read_header(spec_header(owner, block_size)) == Some((owner, block_size)),
{
    let h = spec_header(owner, block_size);
    let magic = spec_le32_bytes(HEADER_MAGIC);
    let word = spec_le32_bytes(owner);
    let size = spec_le64_bytes(block_size as u64);
    lemma_le32_round_trip(HEADER_MAGIC);
    lemma_le32_round_trip(owner);
    lemma_le64_round_trip(block_size as u64);
    assert(h.len() == 16);
    assert forall|k: int| 0 <= k < 4 implies h[k] == magic[k] && h[4 + k] == word[k] by {}
    assert forall|k: int| 0 <= k < 8 implies h[8 + k] == size[k] by {}
    assert(spec_le32_at(h, 0) == spec_le32_at(magic, 0));
    assert(spec_le32_at(h, 4) == spec_le32_at(word, 0));
    assert(spec_le32_at(h, 8) == spec_le32_at(size, 0));
    assert(spec_le32_at(h, 12) == spec_le32_at(size, 4));
}

/// One operation on the heap.
pub enum HeapOp {
    /// A request for `size` bytes at alignment `align` on behalf of
    /// `owner`.
    Allocate { size: usize, align: usize, owner: Option<TaskId> },
    /// The return of the allocation with user pointer `ptr`.
    Deallocate { ptr: usize },
}

/// The blocks after one operation. A request that cannot be served
/// changes nothing, and neither does the return of a pointer that is no
/// live allocation, which the allocator does not accept.
pub open spec fn spec_heap_step(blocks: Seq<Block>, op: HeapOp) -> Seq<Block> {
    match op {
        HeapOp::Allocate { size, align, owner } => match spec_allocate_index(blocks, size, align) {
            Some(i) => spec_take(
                blocks,
                i,
                spec_block_size(size),
                MIN_BLOCK_SIZE as int,
                spec_encode_task_id(owner),
            ),
            None => blocks,
        },
        HeapOp::Deallocate { ptr } => if spec_is_allocated_ptr(blocks, ptr as int) {
            spec_deallocate(blocks, ptr as int)
        } else {
            blocks
        },
    }
}

/// The blocks after a sequence of operations.
pub open spec fn spec_heap_run(blocks: Seq<Block>, ops: Seq<HeapOp>) -> Seq<Block>
    decreases ops.len(),
{
    if ops.len() == 0 {
        blocks
    } else {
        spec_heap_step(spec_heap_run(blocks, ops.drop_last()), ops.last())
    }
}

/// Every heap reached from a fresh one by any sequence of allocations and
/// deallocations partitions exactly into used and free blocks, each a
/// multiple of the alignment and no smaller than the minimum block, in
/// address order, with no two free blocks adjacent.
pub proof fn lemma_heap_invariant(heap_start: usize, heap_size: usize, ops: Seq<HeapOp>)
    requires
        heap_start % ALIGNMENT == 0,
        heap_size % ALIGNMENT == 0,
        heap_size >= MIN_BLOCK_SIZE,
        heap_start + heap_size <= usize::MAX,
    ensures
        blocks_wf(
            spec_heap_run(
                seq![Block { start: heap_start, size: heap_size, free: true, owner: NO_OWNER }],
                ops,
            ),
            heap_start as int,
            heap_start + heap_size,
            ALIGNMENT as int,
            MIN_BLOCK_SIZE as int,
        ),
    decreases ops.len(),
{
    let fresh = seq![Block { start: heap_start, size: heap_size, free: true, owner: NO_OWNER }];
    let start = heap_start as int;
    let end = heap_start + heap_size;
    if ops.len() == 0 {
        assert(crate::region::next_start(fresh, 0, end) == end);
        vstd::arithmetic::div_mod::lemma_add_mod_noop(
            heap_start as int,
            heap_size as int,
            ALIGNMENT as int,
        );
        assert(blocks_wf(fresh, start, end, ALIGNMENT as int, MIN_BLOCK_SIZE as int));
    } else {
        lemma_heap_invariant(heap_start, heap_size, ops.drop_last());
        let before = spec_heap_run(fresh, ops.drop_last());
        match ops.last() {
            HeapOp::Allocate { size, align, owner } => {
                match spec_allocate_index(before, size, align) {
                    Some(i) => {
                        let user = HEADER_SIZE + (if size == 0 {
                            1int
                        } else {
                            size as int
                        });
                        lemma_align_up(user, ALIGNMENT as int);
                        crate::region::lemma_first_fit(before, spec_block_size(size), 0);
                        lemma_take(
                            before,
                            start,
                            end,
                            ALIGNMENT as int,
                            MIN_BLOCK_SIZE as int,
                            i,
                            spec_block_size(size),
                            spec_encode_task_id(owner),
                        );
                    },
                    None => {},
                }
            },
            HeapOp::Deallocate { ptr } => {
                if spec_is_allocated_ptr(before, ptr as int) {
                    crate::region::lemma_block_index(before, ptr as int, 0);
                    lemma_release(
                        before,
                        start,
                        end,
                        ALIGNMENT as int,
                        MIN_BLOCK_SIZE as int,
                        block_index(before, ptr as int, 0),
                    );
                }
            },
        }
    }
}

/// Rounding up reaches the next multiple and no further.
pub proof fn lemma_align_up(x: int, align: int)
    requires
        x >= 0,
        align > 0,
    ensures
        spec_align_up(x, align) >= x,
        spec_align_up(x, align) < x + align,
        spec_align_up(x, align) % align == 0,
        x % align == 0 ==> spec_align_up(x, align) == x,
        x % align != 0 ==> spec_align_up(x, align) == x + (align - x % align),
{
    let q = x / align;
    let r = x % align;
    vstd::arithmetic::div_mod::lemma_fundamental_div_mod(x, align);
    assert(x == align * q + r);
    if r == 0 {
        assert(x + align - 1 == align * q + (align - 1));
        vstd::arithmetic::div_mod::lemma_fundamental_div_mod_converse(
            x + align - 1,
            align,
            q,
            align - 1,
        );
        assert(q * align == align * q) by (nonlinear_arith);
        vstd::arithmetic::div_mod::lemma_mod_multiples_basic(q, align);
    } else {
        assert(x + align - 1 == align * (q + 1) + (r - 1)) by (nonlinear_arith)
            requires
                x == align * q + r,
        ;
        vstd::arithmetic::div_mod::lemma_fundamental_div_mod_converse(
            x + align - 1,
            align,
            q + 1,
            r - 1,
        );
        assert((q + 1) * align == align * q + align) by (nonlinear_arith);
        vstd::arithmetic::div_mod::lemma_mod_multiples_basic(q + 1, align);
    }
}

/// After a block is taken, the address one header past its start is the
/// user pointer of a live allocation.
pub proof fn lemma_allocated_ptr_after_take(
    blocks: Seq<Block>,
    start: int,
    end: int,
    i: int,
    total: int,
    owner: u32,
)
    requires
        blocks_wf(blocks, start, end, ALIGNMENT as int, MIN_BLOCK_SIZE as int),
        0 <= i < blocks.len(),
        fits(blocks[i], total),
        total % (ALIGNMENT as int) == 0,
        total > HEADER_SIZE,
    ensures
        spec_is_allocated_ptr(
            spec_take(blocks, i, total, MIN_BLOCK_SIZE as int, owner),
            blocks[i].start + HEADER_SIZE,
        ),
        block_index(
            spec_take(blocks, i, total, MIN_BLOCK_SIZE as int, owner),
            blocks[i].start + HEADER_SIZE,
            0,
        ) == i,
{
    let after = spec_take(blocks, i, total, MIN_BLOCK_SIZE as int, owner);
    lemma_take(blocks, start, end, ALIGNMENT as int, MIN_BLOCK_SIZE as int, i, total, owner);
    assert(contains(after[i], blocks[i].start + HEADER_SIZE));
    lemma_block_index_is(after, start, end, blocks[i].start + HEADER_SIZE, i);
}

/// Allocating and then freeing the pointer obtained restores the heap
/// exactly, and with it the used and free byte counts.
pub proof fn lemma_allocate_deallocate_round_trip(
    heap: LinkedListAllocator,
    size: usize,
    align: usize,
    owner: Option<TaskId>,
)
    requires
        heap.wf(),
        spec_allocate_index(heap.blocks(), size, align).is_some(),
    ensures
        ({
            let i = spec_allocate_index(heap.blocks(), size, align).unwrap();
            let ptr = heap.blocks()[i].start + HEADER_SIZE;
            let allocated = spec_take(
                heap.blocks(),
                i,
                spec_block_size(size),
                MIN_BLOCK_SIZE as int,
                spec_encode_task_id(owner),
            );
            &&& spec_is_allocated_ptr(allocated, ptr)
            &&& spec_deallocate(allocated, ptr) == heap.blocks()
            &&& spec_heap_stats(spec_deallocate(allocated, ptr), heap.total()) == spec_heap_stats(
                heap.blocks(),
                heap.total(),
            )
        }),
{
    let blocks = heap.blocks();
    let total = spec_block_size(size);
    let user: int = if size == 0 {
        1
    } else {
        size as int
    };
    lemma_align_up(HEADER_SIZE + user, ALIGNMENT as int);
    lemma_first_fit(blocks, total, 0);
    let i = first_fit(blocks, total, 0);
    lemma_allocated_ptr_after_take(
        blocks,
        heap.region.start as int,
        heap.region.end as int,
        i,
        total,
        spec_encode_task_id(owner),
    );
    lemma_take_release_round_trip(
        blocks,
        heap.region.start as int,
        heap.region.end as int,
        ALIGNMENT as int,
        MIN_BLOCK_SIZE as int,
        i,
        total,
        spec_encode_task_id(owner),
    );
}

/// After a live allocation is freed, its pointer lies in a free block:
/// looking it up as an allocation finds nothing, and looking it up as a
/// free region finds one.
pub proof fn lemma_deallocated_is_free(heap: LinkedListAllocator, ptr: usize)
    requires
        heap.wf(),
        spec_is_allocated_ptr(heap.blocks(), ptr as int),
    ensures
        spec_find_allocation(spec_deallocate(heap.blocks(), ptr as int), ptr as int).is_none(),
        spec_find_free_region(spec_deallocate(heap.blocks(), ptr as int), ptr as int).is_some(),
{
    let blocks = heap.blocks();
    let i = block_index(blocks, ptr as int, 0);
    lemma_block_index(blocks, ptr as int, 0);
    lemma_release(
        blocks,
        heap.region.start as int,
        heap.region.end as int,
        ALIGNMENT as int,
        MIN_BLOCK_SIZE as int,
        i,
    );
    let after = spec_release(blocks, i);
    let k = release_lo(blocks, i);
    assert(contains(after[k], ptr as int));
    lemma_block_index_is(after, heap.region.start as int, heap.region.end as int, ptr as int, k);
}

/// Most owners that `find_majority_owner` keeps a byte count for.
pub const MAX_TRACKED_OWNERS: usize = 8;

/// Most allocations that `get_task_heap_allocations` reports.
pub const MAX_SNAPSHOT_ALLOCS: usize = 256;

/// Bytes that block `b` shares with the range `[lo, hi)`.
pub open spec fn overlap(b: Block, lo: int, hi: int) -> int {
    let s = if b.start >= lo {
        b.start as int
    } else {
        lo
    };
    let e = if b.start + b.size <= hi {
        b.start + b.size
    } else {
        hi
    };
    if e > s {
        e - s
    } else {
        0
    }
}

/// Index of the first entry at or after `from` that counts bytes for
/// `owner`, or the table length if there is none.
pub open spec fn owner_slot(table: Seq<(u32, int)>, owner: u32, from: int) -> int
    decreases table.len() - from,
{
    if from >= table.len() {
        table.len() as int
    } else if table[from].0 == owner {
        from
    } else {
        owner_slot(table, owner, from + 1)
    }
}

/// The table after `bytes` are credited to `owner`: added to the owner's
/// entry, or to a new entry while the table has room; dropped otherwise.
pub open spec fn credit(table: Seq<(u32, int)>, owner: u32, bytes: int) -> Seq<(u32, int)> {
    let k = owner_slot(table, owner, 0);
    if k < table.len() {
        table.update(k, (owner, table[k].1 + bytes))
    } else if table.len() < MAX_TRACKED_OWNERS {
        table.push((owner, bytes))
    } else {
        table
    }
}

/// Bytes of `[lo, hi)` per owner over the first `n` blocks, owners in the
/// order in which their first overlapping allocation is met.
pub open spec fn tally(blocks: Seq<Block>, lo: int, hi: int, n: int) -> Seq<(u32, int)>
    decreases n,
{
    if n <= 0 {
        Seq::empty()
    } else {
        let before = tally(blocks, lo, hi, n - 1);
        let b = blocks[n - 1];
        if !b.free && overlap(b, lo, hi) > 0 {
            credit(before, b.owner, overlap(b, lo, hi))
        } else {
            before
        }
    }
}

/// The entry with the most bytes among the first `n`; of several with the
/// same count, the earliest.
pub open spec fn best_entry(table: Seq<(u32, int)>, n: int) -> Option<(u32, int)>
    decreases n,
{
    if n <= 0 {
        None
    } else {
        let prev = best_entry(table, n - 1);
        let e = table[n - 1];
        if e.1 > 0 && (prev.is_none() || e.1 > prev.unwrap().1) {
            Some(e)
        } else {
            prev
        }
    }
}

/// The owner with the most allocated bytes inside `[lo, hi)`, with that
/// byte count.
pub open spec fn spec_find_majority_owner(blocks: Seq<Block>, lo: int, hi: int) -> Option<
    (Option<TaskId>, usize),
> {
    let table = tally(blocks, lo, hi, blocks.len() as int);
    match best_entry(table, table.len() as int) {
        None => None,
        Some(e) => Some((spec_decode_task_id(e.0), e.1 as usize)),
    }
}

/// The first `limit` allocations of `owner` among the first `n` blocks, in
/// address order, each as (start, size).
pub open spec fn owned_blocks(blocks: Seq<Block>, owner: u32, n: int, limit: int) -> Seq<
    (usize, usize),
>
    decreases n,
{
    if n <= 0 {
        Seq::empty()
    } else {
        let before = owned_blocks(blocks, owner, n - 1, limit);
        let b = blocks[n - 1];
        if !b.free && b.owner == owner && before.len() < limit {
            before.push((b.start, b.size))
        } else {
            before
        }
    }
}

/// Bytes from the region start to the end of block `n - 1`.
pub open spec fn covered(blocks: Seq<Block>, start: int, n: int) -> int {
    if n <= 0 {
        0
    } else {
        blocks[n - 1].start + blocks[n - 1].size - start
    }
}

/// Whether an executable byte table holds exactly the counts of `t`.
pub open spec fn same_table(table: Seq<(u32, usize)>, t: Seq<(u32, int)>) -> bool {
    &&& table.len() == t.len()
    &&& forall|k: int| 0 <= k < t.len()
        ==> (#[trigger] table[k]).0 == t[k].0 && table[k].1 == t[k].1
}

/// Used and free bytes of the heap.
pub fn get_heap_stats(heap: &LinkedListAllocator) -> (r: (usize, usize))
    requires
        heap.wf(),
    ensures
        (r.0 as int, r.1 as int) == spec_heap_stats(heap.blocks(), heap.total()),
        r.0 + r.1 == heap.total(),
{
    let free: usize = heap.region.free_total();
    let total: usize = heap.region.end - heap.region.start;
    (total - free, free)
}

/// The extent `(start, end)` of the allocation that contains `addr`;
/// `None` if the address is free or outside the heap.
pub fn find_allocation(heap: &LinkedListAllocator, addr: usize) -> (r: Option<(usize, usize)>)
    requires
        heap.wf(),
    ensures
        r == spec_find_allocation(heap.blocks(), addr as int),
{
    match heap.region.find_block(addr) {
        None => None,
        Some(i) => {
            let b: Block = heap.region.blocks[i];
            proof {
                lemma_block_in_region(
                    heap.blocks(),
                    heap.region.start as int,
                    heap.region.end as int,
                    i as int,
                );
            }
            if b.free {
                None
            } else {
                Some((b.start, b.start + b.size))
            }
        },
    }
}

/// The extent `(start, end)` of the free block that contains `addr`;
/// `None` if the address is allocated or outside the heap.
pub fn find_free_region(heap: &LinkedListAllocator, addr: usize) -> (r: Option<(usize, usize)>)
    requires
        heap.wf(),
    ensures
        r == spec_find_free_region(heap.blocks(), addr as int),
{
    match heap.region.find_block(addr) {
        None => None,
        Some(i) => {
            let b: Block = heap.region.blocks[i];
            proof {
                lemma_block_in_region(
                    heap.blocks(),
                    heap.region.start as int,
                    heap.region.end as int,
                    i as int,
                );
            }
            if b.free {
                Some((b.start, b.start + b.size))
            } else {
                None
            }
        },
    }
}

/// The owner of the allocation that contains `addr`: `Some(None)` for a
/// kernel allocation, `None` if the address is not allocated.
pub fn find_allocation_owner(heap: &LinkedListAllocator, addr: usize) -> (r: Option<
    Option<TaskId>,
>)
    requires
        heap.wf(),
    ensures
        r == spec_find_allocation_owner(heap.blocks(), addr as int),
{
    match heap.region.find_block(addr) {
        None => None,
        Some(i) => {
            let b: Block = heap.region.blocks[i];
            if b.free {
                None
            } else {
                Some(decode_task_id(b.owner))
            }
        },
    }
}

/// Bytes that block `b` shares with `[lo, hi)`.
fn overlap_bytes(b: &Block, lo: usize, hi: usize) -> (r: usize)
    requires
        b.start + b.size <= usize::MAX,
    ensures
        r == overlap(*b, lo as int, hi as int),
        r <= b.size,
{
    let s: usize = if b.start >= lo {
        b.start
    } else {
        lo
    };
    let e: usize = if b.start + b.size <= hi {
        b.start + b.size
    } else {
        hi
    };
    if e > s {
        e - s
    } else {
        0
    }
}

/// Credits `bytes` to `owner` in the table.
fn credit_owner(table: &mut Vec<(u32, usize)>, owner: u32, bytes: usize, Ghost(t): Ghost<
    Seq<(u32, int)>,
>, Ghost(bound): Ghost<int>)
    requires
        same_table(old(table)@, t),
        t.len() <= MAX_TRACKED_OWNERS,
        forall|k: int| 0 <= k < t.len() ==> (#[trigger] t[k]).1 + bytes <= bound,
        bytes <= bound,
        bound <= usize::MAX,
    ensures
        same_table(final(table)@, credit(t, owner, bytes as int)),
        credit(t, owner, bytes as int).len() <= MAX_TRACKED_OWNERS,
        forall|k: int|
            0 <= k < credit(t, owner, bytes as int).len() ==> (#[trigger] credit(
                t,
                owner,
                bytes as int,
            )[k]).1 <= bound,
{
    let n: usize = table.len();
    let mut k: usize = 0;
    while k < n
        invariant
            n == table@.len(),
            k <= n,
            *table == *old(table),
            same_table(table@, t),
            owner_slot(t, owner, 0) == owner_slot(t, owner, k as int),
            forall|j: int| 0 <= j < t.len() ==> (#[trigger] t[j]).1 + bytes <= bound,
            bound <= usize::MAX,
            t.len() <= MAX_TRACKED_OWNERS,
        decreases n - k,
    {
        let e: (u32, usize) = table[k];
        if e.0 == owner {
            assert(t[k as int].1 + bytes <= bound);
            table.set(k, (owner, e.1 + bytes));
            return ;
        }
        k += 1;
    }
    if n < MAX_TRACKED_OWNERS {
        table.push((owner, bytes));
    }
}

/// The owner of most of the allocated bytes inside
/// `[range_start, range_end)`, with its byte count.
///
/// Byte counts are kept for the first eight distinct owners met in address
/// order; of owners with equal counts the one met first wins. `None` if no
/// allocation overlaps the range.
pub fn find_majority_owner(heap: &LinkedListAllocator, range_start: usize, range_end: usize) -> (r:
    Option<(Option<TaskId>, usize)>)
    requires
        heap.wf(),
    ensures
        r == spec_find_majority_owner(heap.blocks(), range_start as int, range_end as int),
{
    let n: usize = heap.region.blocks.len();
    let mut table: Vec<(u32, usize)> = Vec::new();
    let ghost blocks = heap.blocks();
    let ghost start = heap.region.start as int;
    let ghost end = heap.region.end as int;
    let ghost lo = range_start as int;
    let ghost hi = range_end as int;
    let mut i: usize = 0;
    while i < n
        invariant
            heap.wf(),
            blocks == heap.blocks(),
            start == heap.region.start,
            end == heap.region.end,
            lo == range_start,
            hi == range_end,
            n == blocks.len(),
            i <= n,
            same_table(table@, tally(blocks, lo, hi, i as int)),
            table@.len() <= MAX_TRACKED_OWNERS,
            forall|k: int|
                0 <= k < table@.len() ==> (#[trigger] tally(blocks, lo, hi, i as int)[k]).1
                    <= covered(blocks, start, i as int),
        decreases n - i,
    {
        let b: Block = heap.region.blocks[i];
        proof {
            lemma_block_in_region(blocks, start, end, i as int);
            if i > 0 {
                assert(blocks[i as int - 1].start + blocks[i as int - 1].size
                    == crate::region::next_start(blocks, i as int - 1, end));
            }
            assert(covered(blocks, start, i as int + 1) == covered(blocks, start, i as int)
                + b.size);
        }
        if !b.free {
            let ov: usize = overlap_bytes(&b, range_start, range_end);
            if ov > 0 {
                credit_owner(
                    &mut table,
                    b.owner,
                    ov,
                    Ghost(tally(blocks, lo, hi, i as int)),
                    Ghost(covered(blocks, start, i as int + 1)),
                );
            }
        }
        i += 1;
    }
    let ghost t = tally(blocks, lo, hi, n as int);
    let m: usize = table.len();
    let mut best: Option<(u32, usize)> = None;
    let mut k: usize = 0;
    while k < m
        invariant
            m == table@.len(),
            k <= m,
            same_table(table@, t),
            match best {
                None => best_entry(t, k as int).is_none(),
                Some(e) => best_entry(t, k as int) == Some((e.0, e.1 as int)),
            },
        decreases m - k,
    {
        let e: (u32, usize) = table[k];
        assert(e.0 == t[k as int].0 && e.1 == t[k as int].1);
        if e.1 > 0 {
            match best {
                None => {
                    best = Some(e);
                },
                Some(cur) => {
                    if e.1 > cur.1 {
                        best = Some(e);
                    }
                },
            }
        }
        k += 1;
    }
    match best {
        None => None,
        Some(e) => Some((decode_task_id(e.0), e.1)),
    }
}

/// The first `limit` allocations of a task in address order, each as
/// (block start, block size).
pub fn snapshot_task_heap_allocations(
    heap: &LinkedListAllocator,
    task_id: Option<TaskId>,
    limit: usize,
) -> (out: Vec<(usize, usize)>)
    ensures
        out@ == owned_blocks(
            heap.blocks(),
            spec_encode_task_id(task_id),
            heap.blocks().len() as int,
            limit as int,
        ),
        out@.len() <= limit,
{
    let want: u32 = encode_task_id(task_id);
    let n: usize = heap.region.blocks.len();
    let mut out: Vec<(usize, usize)> = Vec::new();
    let mut i: usize = 0;
    while i < n
        invariant
            n == heap.blocks().len(),
            i <= n,
            want == spec_encode_task_id(task_id),
            out@ == owned_blocks(heap.blocks(), want, i as int, limit as int),
            out@.len() <= limit,
        decreases n - i,
    {
        let b: Block = heap.region.blocks[i];
        if !b.free && b.owner == want && out.len() < limit {
            out.push((b.start, b.size));
        }
        i += 1;
    }
    out
}

/// The heap allocations of a task, `None` standing for the kernel itself:
/// the first 256 in address order, each as (block start, block size).
pub fn get_task_heap_allocations(heap: &LinkedListAllocator, task_id: Option<TaskId>) -> (out: Vec<
    (usize, usize),
>)
    ensures
        out@ == owned_blocks(
            heap.blocks(),
            spec_encode_task_id(task_id),
            heap.blocks().len() as int,
            MAX_SNAPSHOT_ALLOCS as int,
        ),
{
    snapshot_task_heap_allocations(heap, task_id, MAX_SNAPSHOT_ALLOCS)
}

/// A critical section around `T`: holding it means that maskable
/// interrupts are off, so no handler can observe `T` mid-update.
pub struct Spinlock<T> {
    /// Whether the lock is held.
    pub locked: bool,
    /// The protected value.
    pub data: T,
}

/// Proof of holding a `Spinlock`; remembers the interrupt state to
/// restore on release.
pub struct SpinlockGuard {
    /// Whether interrupts were enabled when the lock was taken.
    pub interrupts_were_enabled: bool,
}

impl<T> Spinlock<T> {
    /// A released lock around `data`.
    pub fn new(data: T) -> (lock: Spinlock<T>)
        ensures
            !lock.locked,
            lock.data == data,
    {
        Spinlock { locked: false, data }
    }

    /// Enters the critical section: interrupts go off, then the lock is
    /// taken. Contention cannot be waited out on a single CPU, so taking a
    /// held lock is a fatal error that callers must rule out.
    pub fn lock(&mut self, interrupts_enabled: &mut bool) -> (guard: SpinlockGuard)
        requires
            !old(self).locked,
        ensures
            final(self).locked,
            final(self).data == old(self).data,
            !*final(interrupts_enabled),
            guard.interrupts_were_enabled == *old(interrupts_enabled),
    {
        let were_enabled: bool = *interrupts_enabled;
        *interrupts_enabled = false;
        self.locked = true;
        SpinlockGuard { interrupts_were_enabled: were_enabled }
    }

    /// Leaves the critical section: the lock is released, then interrupts
    /// come back on if they were on at entry.
    pub fn unlock(&mut self, guard: SpinlockGuard, interrupts_enabled: &mut bool)
        requires
            old(self).locked,
        ensures
            !final(self).locked,
            final(self).data == old(self).data,
            *final(interrupts_enabled) == (*old(interrupts_enabled)
                || guard.interrupts_were_enabled),
    {
        self.locked = false;
        if guard.interrupts_were_enabled {
            *interrupts_enabled = true;
        }
    }
}

/// The kernel heap behind its critical section, with the flag that tells
/// whether allocations can be attributed to a running task yet.
pub struct LockedAllocator {
    /// The heap and its lock.
    pub inner: Spinlock<LinkedListAllocator>,
    /// Set once the scheduler is initialised.
    pub scheduler_ready: bool,
}

/// Records that the scheduler is initialised: from now on allocations are
/// attributed to the running task.
pub fn mark_scheduler_ready(heap: &mut LockedAllocator)
    ensures
        final(heap).scheduler_ready,
        final(heap).inner == old(heap).inner,
{
    heap.scheduler_ready = true;
}

impl LockedAllocator {
    /// The lock is released and the heap inside it is well formed.
    pub open spec fn wf(&self) -> bool {
        !self.inner.locked && self.inner.data.wf()
    }

    /// An allocator that manages no memory yet; allocations are attributed
    /// to the kernel until the scheduler is marked ready.
    pub fn new() -> (a: LockedAllocator)
        ensures
            a.wf(),
            !a.scheduler_ready,
            a.inner.data.blocks().len() == 0,
            a.inner.data.region.start == 0,
            a.inner.data.region.end == 0,
    {
        LockedAllocator { inner: Spinlock::new(LinkedListAllocator::new()), scheduler_ready: false }
    }

    /// Takes over `[heap_start, heap_start + heap_size)` as one free block,
    /// inside the critical section.
    pub fn init(&mut self, heap_start: usize, heap_size: usize, interrupts_enabled: &mut bool)
        requires
            old(self).wf(),
            heap_start % ALIGNMENT == 0,
            heap_size % ALIGNMENT == 0,
            heap_size >= MIN_BLOCK_SIZE,
            heap_start + heap_size <= usize::MAX,
        ensures
            final(self).wf(),
            final(self).scheduler_ready == old(self).scheduler_ready,
            final(self).inner.data.region.start == heap_start,
            final(self).inner.data.region.end == heap_start + heap_size,
            final(self).inner.data.blocks() == seq![
                Block { start: heap_start, size: heap_size, free: true, owner: NO_OWNER },
            ],
            *final(interrupts_enabled) == *old(interrupts_enabled),
    {
        let guard = self.inner.lock(interrupts_enabled);
        self.inner.data.init(heap_start, heap_size);
        self.inner.unlock(guard, interrupts_enabled);
    }

    /// Allocates inside the critical section, attributing the block to
    /// `running` once the scheduler is ready and to the kernel before.
    pub fn allocate(
        &mut self,
        size: usize,
        align: usize,
        running: Option<TaskId>,
        interrupts_enabled: &mut bool,
    ) -> (r: Option<usize>)
        requires
            old(self).wf(),
        ensures
            final(self).wf(),
            final(self).scheduler_ready == old(self).scheduler_ready,
            *final(interrupts_enabled) == *old(interrupts_enabled),
            final(self).inner.data.region.start == old(self).inner.data.region.start,
            final(self).inner.data.region.end == old(self).inner.data.region.end,
            match spec_allocate_index(old(self).inner.data.blocks(), size, align) {
                None => r.is_none()
                    && final(self).inner.data.blocks() == old(self).inner.data.blocks(),
                Some(i) => {
                    &&& r == Some((old(self).inner.data.blocks()[i].start + HEADER_SIZE) as usize)
                    &&& final(self).inner.data.blocks() == spec_take(
                        old(self).inner.data.blocks(),
                        i,
                        spec_block_size(size),
                        MIN_BLOCK_SIZE as int,
                        spec_encode_task_id(
                            if old(self).scheduler_ready {
                                running
                            } else {
                                None
                            },
                        ),
                    )
                },
            },
    {
        let guard = self.inner.lock(interrupts_enabled);
        let owner: Option<TaskId> = get_current_task_id(self.scheduler_ready, running);
        let r: Option<usize> = self.inner.data.allocate(size, align, owner);
        self.inner.unlock(guard, interrupts_enabled);
        r
    }

    /// Frees inside the critical section.
    pub fn deallocate(&mut self, ptr: usize, interrupts_enabled: &mut bool)
        requires
            old(self).wf(),
            spec_is_allocated_ptr(old(self).inner.data.blocks(), ptr as int),
        ensures
            final(self).wf(),
            final(self).scheduler_ready == old(self).scheduler_ready,
            *final(interrupts_enabled) == *old(interrupts_enabled),
            final(self).inner.data.blocks() == spec_deallocate(
                old(self).inner.data.blocks(),
                ptr as int,
            ),
    {
        let guard = self.inner.lock(interrupts_enabled);
        self.inner.data.deallocate(ptr);
        self.inner.unlock(guard, interrupts_enabled);
    }
}

/// Sets up the kernel heap over `[heap_start, heap_start + heap_size)`.
pub fn init_heap(
    heap: &mut LockedAllocator,
    heap_start: usize,
    heap_size: usize,
    interrupts_enabled: &mut bool,
)
    requires
        old(heap).wf(),
        heap_start % ALIGNMENT == 0,
        heap_size % ALIGNMENT == 0,
        heap_size >= MIN_BLOCK_SIZE,
        heap_start + heap_size <= usize::MAX,
    ensures
        final(heap).wf(),
        final(heap).scheduler_ready == old(heap).scheduler_ready,
        final(heap).inner.data.region.start == heap_start,
        final(heap).inner.data.region.end == heap_start + heap_size,
        final(heap).inner.data.blocks() == seq![
            Block { start: heap_start, size: heap_size, free: true, owner: NO_OWNER },
        ],
        *final(interrupts_enabled) == *old(interrupts_enabled),
{
    heap.init(heap_start, heap_size, interrupts_enabled);
}

} // verus!
