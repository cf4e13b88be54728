//! A memory region tiled by blocks in address order.
//!
//! Both allocators keep their region as a sequence of blocks that covers it
//! exactly: each block starts where its predecessor ends, is either free or
//! in use, and no two neighbours are both free. First-fit search, splitting
//! and coalescing are operations on that sequence.

use vstd::prelude::*;

verus! {

/// Owner recorded for free blocks and for allocations made on behalf of the
/// kernel itself.
pub const NO_OWNER: u32 = u32::MAX;

/// One block of a region.
#[derive(Clone, Copy, Debug, PartialEq, Eq, Structural)]
pub struct Block {
    /// First address of the block.
    pub start: usize,
    /// Bytes covered, header included.
    pub size: usize,
    /// Whether the block is on the free list.
    pub free: bool,
    /// Encoded owner; `NO_OWNER` for free blocks.
    pub owner: u32,
}

/// A region and the blocks that tile it.
pub struct Region {
    /// Blocks in ascending address order.
    pub blocks: Vec<Block>,
    /// First address of the region.
    pub start: usize,
    /// One past the last address of the region.
    pub end: usize,
    /// Every block start and size is a multiple of this.
    pub granule: usize,
    /// Smallest block that may exist.
    pub min_block: usize,
}

/// Where the block after block `i` starts: at the next block, or at the
/// end of the region behind the last block.
pub open spec fn next_start(blocks: Seq<Block>, i: int, end: int) -> int {
    if i + 1 < blocks.len() {
        blocks[i + 1].start as int
    } else {
        end
    }
}

/// Whether block `i` and its successor are both free.
pub open spec fn both_free(blocks: Seq<Block>, i: int) -> bool {
    blocks[i].free && blocks[i + 1].free
}

/// The blocks cover `[start, end)` without gap or overlap.
pub open spec fn tiles(blocks: Seq<Block>, start: int, end: int) -> bool {
    &&& start <= end
    &&& (blocks.len() == 0 ==> start == end)
    &&& (blocks.len() > 0 ==> blocks[0].start == start)
    &&& forall|i: int|
        0 <= i < blocks.len() ==> blocks[i].start + blocks[i].size == #[trigger] next_start(
            blocks,
            i,
            end,
        )
}

/// Every block is aligned, a multiple of the granule, at least the minimum
/// size, and carries no owner while free.
pub open spec fn sized(blocks: Seq<Block>, granule: int, min_block: int) -> bool {
    forall|i: int|
        0 <= i < blocks.len() ==> {
            &&& (#[trigger] blocks[i]).size as int % granule == 0
            &&& blocks[i].start as int % granule == 0
            &&& blocks[i].size >= min_block
            &&& (blocks[i].free ==> blocks[i].owner == NO_OWNER)
        }
}

/// No two neighbouring blocks are both free.
pub open spec fn coalesced(blocks: Seq<Block>) -> bool {
    forall|i: int| 0 <= i < blocks.len() - 1 ==> !#[trigger] both_free(blocks, i)
}

/// Whether a block can satisfy a request of `total` bytes.
pub open spec fn fits(b: Block, total: int) -> bool {
    b.free && b.size >= total
}

/// Index of the first block at or after `from` that fits `total` bytes, or
/// the number of blocks if there is none.
pub open spec fn first_fit(blocks: Seq<Block>, total: int, from: int) -> int
    decreases blocks.len() - from,
{
    if from >= blocks.len() {
        blocks.len() as int
    } else if fits(blocks[from], total) {
        from
    } else {
        first_fit(blocks, total, from + 1)
    }
}

/// Whether an address lies inside a block.
pub open spec fn contains(b: Block, addr: int) -> bool {
    b.start <= addr < b.start + b.size
}

/// Index of the first block at or after `from` that contains `addr`, or the
/// number of blocks if there is none.
pub open spec fn block_index(blocks: Seq<Block>, addr: int, from: int) -> int
    decreases blocks.len() - from,
{
    if from >= blocks.len() {
        blocks.len() as int
    } else if contains(blocks[from], addr) {
        from
    } else {
        block_index(blocks, addr, from + 1)
    }
}

/// Sum of the sizes of the free blocks among the first `n`.
pub open spec fn free_upto(blocks: Seq<Block>, n: int) -> int
    decreases n,
{
    if n <= 0 {
        0
    } else {
        free_upto(blocks, n - 1) + if blocks[n - 1].free {
            blocks[n - 1].size as int
        } else {
            0
        }
    }
}

/// Total bytes on the free list.
pub open spec fn free_bytes(blocks: Seq<Block>) -> int {
    free_upto(blocks, blocks.len() as int)
}

/// The in-use block carved from the front of block `b`.
pub open spec fn used_part(b: Block, size: int, owner: u32) -> Block {
    Block { start: b.start, size: size as usize, free: false, owner }
}

/// The free remainder behind the first `total` bytes of block `b`.
pub open spec fn rest_part(b: Block, total: int) -> Block {
    Block {
        start: (b.start + total) as usize,
        size: (b.size - total) as usize,
        free: true,
        owner: NO_OWNER,
    }
}

/// Whether taking `total` bytes from block `b` leaves a remainder large
/// enough to stand as a free block of its own.
pub open spec fn splits(b: Block, total: int, min_block: int) -> bool {
    b.size - total >= min_block
}

/// Bytes that an allocation of `total` bytes from block `b` occupies: the
/// request itself, or the whole block when the remainder is too small.
pub open spec fn taken_size(b: Block, total: int, min_block: int) -> int {
    if splits(b, total, min_block) {
        total
    } else {
        b.size as int
    }
}

/// The block sequence after `total` bytes of free block `i` are given to
/// `owner`.
pub open spec fn spec_take(
    blocks: Seq<Block>,
    i: int,
    total: int,
    min_block: int,
    owner: u32,
) -> Seq<Block> {
    let b = blocks[i];
    let middle = if splits(b, total, min_block) {
        seq![used_part(b, total, owner), rest_part(b, total)]
    } else {
        seq![used_part(b, b.size as int, owner)]
    };
    blocks.subrange(0, i) + middle + blocks.subrange(i + 1, blocks.len() as int)
}

/// The block sequence after block `i` is returned to the free list and
/// merged with whichever neighbours are free.
pub open spec fn spec_release(blocks: Seq<Block>, i: int) -> Seq<Block> {
    let with_next = i + 1 < blocks.len() && blocks[i + 1].free;
    let with_prev = i > 0 && blocks[i - 1].free;
    let lo = if with_prev {
        i - 1
    } else {
        i
    };
    let hi = if with_next {
        i + 2
    } else {
        i + 1
    };
    let size = blocks[i].size + (if with_next {
        blocks[i + 1].size as int
    } else {
        0
    }) + (if with_prev {
        blocks[i - 1].size as int
    } else {
        0
    });
    let merged = Block { start: blocks[lo].start, size: size as usize, free: true, owner: NO_OWNER };
    blocks.subrange(0, lo) + seq![merged] + blocks.subrange(hi, blocks.len() as int)
}

/// Well-formedness of a block sequence for a region with the given bounds
/// and granularity.
pub open spec fn blocks_wf(
    blocks: Seq<Block>,
    start: int,
    end: int,
    granule: int,
    min_block: int,
) -> bool {
    &&& granule > 0
    &&& min_block > 0
    &&& min_block % granule == 0
    &&& start % granule == 0
    &&& end % granule == 0
    &&& end <= usize::MAX
    &&& 0 <= start
    &&& tiles(blocks, start, end)
    &&& sized(blocks, granule, min_block)
    &&& coalesced(blocks)
}

/// In a tiling, address order and index order agree: a later block starts
/// at or after the end of every earlier one and ends within the region.
pub proof fn lemma_blocks_ordered(blocks: Seq<Block>, start: int, end: int, i: int, j: int)
    requires
        tiles(blocks, start, end),
        0 <= i < j < blocks.len(),
    ensures
        blocks[i].start + blocks[i].size <= blocks[j].start,
        blocks[j].start + blocks[j].size <= end,
        start <= blocks[i].start,
    decreases j - i,
{
    lemma_block_in_region(blocks, start, end, j);
    lemma_block_in_region(blocks, start, end, i);
    if i + 1 < j {
        lemma_blocks_ordered(blocks, start, end, i + 1, j);
    }
    assert(blocks[i].start + blocks[i].size == next_start(blocks, i, end));
}

/// Every block of a tiling lies inside the region.
pub proof fn lemma_block_in_region(blocks: Seq<Block>, start: int, end: int, i: int)
    requires
        tiles(blocks, start, end),
        0 <= i < blocks.len(),
    ensures
        start <= blocks[i].start,
        blocks[i].start + blocks[i].size <= end,
{
    lemma_prefix_from_start(blocks, start, end, i);
    lemma_suffix_to_end(blocks, start, end, i);
}

proof fn lemma_prefix_from_start(blocks: Seq<Block>, start: int, end: int, i: int)
    requires
        tiles(blocks, start, end),
        0 <= i < blocks.len(),
    ensures
        start <= blocks[i].start,
    decreases i,
{
    if i > 0 {
        lemma_prefix_from_start(blocks, start, end, i - 1);
        assert(blocks[i - 1].start + blocks[i - 1].size == next_start(blocks, i - 1, end));
    }
}

proof fn lemma_suffix_to_end(blocks: Seq<Block>, start: int, end: int, i: int)
    requires
        tiles(blocks, start, end),
        0 <= i < blocks.len(),
    ensures
        blocks[i].start + blocks[i].size <= end,
    decreases blocks.len() - i,
{
    if i + 1 < blocks.len() {
        lemma_suffix_to_end(blocks, start, end, i + 1);
    }
    assert(blocks[i].start + blocks[i].size == next_start(blocks, i, end));
}

/// The index found by `first_fit` names a fitting block that no earlier
/// block precedes; if it is the length, no block fits.
pub proof fn lemma_first_fit(blocks: Seq<Block>, total: int, from: int)
    requires
        0 <= from <= blocks.len(),
    ensures
        from <= first_fit(blocks, total, from) <= blocks.len(),
        first_fit(blocks, total, from) < blocks.len() ==> fits(
            blocks[first_fit(blocks, total, from)],
            total,
        ),
        forall|j: int| from <= j < first_fit(blocks, total, from) ==> !fits(blocks[j], total),
    decreases blocks.len() - from,
{
    if from < blocks.len() && !fits(blocks[from], total) {
        lemma_first_fit(blocks, total, from + 1);
    }
}

/// The index found by `block_index` names a block that contains the
/// address and that no earlier such block precedes.
pub proof fn lemma_block_index(blocks: Seq<Block>, addr: int, from: int)
    requires
        0 <= from <= blocks.len(),
    ensures
        from <= block_index(blocks, addr, from) <= blocks.len(),
        block_index(blocks, addr, from) < blocks.len() ==> contains(
            blocks[block_index(blocks, addr, from)],
            addr,
        ),
        forall|j: int| from <= j < block_index(blocks, addr, from) ==> !contains(blocks[j], addr),
    decreases blocks.len() - from,
{
    if from < blocks.len() && !contains(blocks[from], addr) {
        lemma_block_index(blocks, addr, from + 1);
    }
}

/// In a tiling, the block that contains an address is unique, so
/// `block_index` finds exactly it.
pub proof fn lemma_block_index_is(blocks: Seq<Block>, start: int, end: int, addr: int, i: int)
    requires
        tiles(blocks, start, end),
        0 <= i < blocks.len(),
        contains(blocks[i], addr),
    ensures
        block_index(blocks, addr, 0) == i,
{
    lemma_block_index(blocks, addr, 0);
    let k = block_index(blocks, addr, 0);
    if k < i {
        lemma_blocks_ordered(blocks, start, end, k, i);
    }
}

/// A tiling covers its region: every address of the region lies in a block.
pub proof fn lemma_tiling_covers(blocks: Seq<Block>, start: int, end: int, addr: int)
    requires
        tiles(blocks, start, end),
        start <= addr < end,
    ensures
        block_index(blocks, addr, 0) < blocks.len(),
{
    lemma_covers_from(blocks, start, end, addr, 0);
}

proof fn lemma_covers_from(blocks: Seq<Block>, start: int, end: int, addr: int, from: int)
    requires
        tiles(blocks, start, end),
        0 <= from < blocks.len(),
        blocks[from].start <= addr < end,
    ensures
        exists|k: int| from <= k < blocks.len() && contains(blocks[k], addr),
        block_index(blocks, addr, 0) < blocks.len(),
    decreases blocks.len() - from,
{
    if contains(blocks[from], addr) {
        lemma_block_index_is(blocks, start, end, addr, from);
    } else {
        assert(blocks[from].start + blocks[from].size == next_start(blocks, from, end));
        if from + 1 < blocks.len() {
            lemma_covers_from(blocks, start, end, addr, from + 1);
        }
    }
}

/// The free bytes among the first `n` blocks depend on those blocks only.
pub proof fn lemma_free_upto_agrees(a: Seq<Block>, b: Seq<Block>, n: int)
    requires
        0 <= n <= a.len(),
        n <= b.len(),
        forall|k: int| 0 <= k < n ==> a[k] == b[k],
    ensures
        free_upto(a, n) == free_upto(b, n),
    decreases n,
{
    if n > 0 {
        lemma_free_upto_agrees(a, b, n - 1);
    }
}

/// Free bytes are additive over concatenation.
pub proof fn lemma_free_bytes_concat(a: Seq<Block>, b: Seq<Block>)
    ensures
        free_bytes(a + b) == free_bytes(a) + free_bytes(b),
{
    lemma_free_concat_upto(a, b, b.len() as int);
}

proof fn lemma_free_concat_upto(a: Seq<Block>, b: Seq<Block>, k: int)
    requires
        0 <= k <= b.len(),
    ensures
        free_upto(a + b, a.len() + k) == free_upto(a, a.len() as int) + free_upto(b, k),
    decreases k,
{
    if k > 0 {
        lemma_free_concat_upto(a, b, k - 1);
        assert((a + b)[a.len() + k - 1] == b[k - 1]);
    } else {
        lemma_free_upto_agrees(a + b, a, a.len() as int);
    }
}

/// The free bytes among the first `n` blocks of a tiling fit between the
/// region start and the end of block `n - 1`.
pub proof fn lemma_free_upto_bound(blocks: Seq<Block>, start: int, end: int, n: int)
    requires
        tiles(blocks, start, end),
        0 <= n <= blocks.len(),
    ensures
        0 <= free_upto(blocks, n),
        n > 0 ==> free_upto(blocks, n) <= blocks[n - 1].start + blocks[n - 1].size - start,
        n == 0 ==> free_upto(blocks, n) == 0,
        free_upto(blocks, n) <= end - start,
    decreases n,
{
    if n > 0 {
        lemma_free_upto_bound(blocks, start, end, n - 1);
        lemma_block_in_region(blocks, start, end, n - 1);
        if n > 1 {
            assert(blocks[n - 2].start + blocks[n - 2].size == next_start(blocks, n - 2, end));
        }
    }
}

/// Splitting a sequence around block `i` leaves the free bytes of the
/// parts summing to the whole.
pub proof fn lemma_free_bytes_split(blocks: Seq<Block>, lo: int, hi: int)
    requires
        0 <= lo <= hi <= blocks.len(),
    ensures
        free_bytes(blocks) == free_bytes(blocks.subrange(0, lo)) + free_bytes(
            blocks.subrange(lo, hi),
        ) + free_bytes(blocks.subrange(hi, blocks.len() as int)),
{
    let a = blocks.subrange(0, lo);
    let m = blocks.subrange(lo, hi);
    let z = blocks.subrange(hi, blocks.len() as int);
    assert(blocks =~= (a + m) + z);
    lemma_free_bytes_concat(a + m, z);
    lemma_free_bytes_concat(a, m);
}

proof fn lemma_free_bytes_one(b: Block)
    ensures
        free_bytes(seq![b]) == if b.free {
            b.size as int
        } else {
            0
        },
{
    assert(free_upto(seq![b], 0) == 0);
    assert(seq![b][0] == b);
}

proof fn lemma_free_bytes_two(a: Block, b: Block)
    ensures
        free_bytes(seq![a, b]) == (if a.free {
            a.size as int
        } else {
            0
        }) + (if b.free {
            b.size as int
        } else {
            0
        }),
{
    assert(seq![a, b] =~= seq![a] + seq![b]);
    lemma_free_bytes_concat(seq![a], seq![b]);
    lemma_free_bytes_one(a);
    lemma_free_bytes_one(b);
}

/// Sums and differences of multiples of `g` are multiples of `g`.
pub proof fn lemma_multiples_closed(a: int, b: int, g: int)
    requires
        g > 0,
        a % g == 0,
        b % g == 0,
    ensures
        (a + b) % g == 0,
        (a - b) % g == 0,
{
    vstd::arithmetic::div_mod::lemma_fundamental_div_mod(a, g);
    vstd::arithmetic::div_mod::lemma_fundamental_div_mod(b, g);
    let qa = a / g;
    let qb = b / g;
    assert(a + b == g * (qa + qb)) by (nonlinear_arith)
        requires
            a == g * qa,
            b == g * qb,
    ;
    assert(a - b == g * (qa - qb)) by (nonlinear_arith)
        requires
            a == g * qa,
            b == g * qb,
    ;
    vstd::arithmetic::div_mod::lemma_mod_multiples_basic(qa + qb, g);
    vstd::arithmetic::div_mod::lemma_mod_multiples_basic(qa - qb, g);
    assert(g * (qa + qb) == (qa + qb) * g) by (nonlinear_arith);
    assert(g * (qa - qb) == (qa - qb) * g) by (nonlinear_arith);
}

/// Taking from a fitting block keeps the sequence well formed and removes
/// exactly the taken bytes from the free list.
pub proof fn lemma_take(
    blocks: Seq<Block>,
    start: int,
    end: int,
    granule: int,
    min_block: int,
    i: int,
    total: int,
    owner: u32,
)
    requires
        blocks_wf(blocks, start, end, granule, min_block),
        0 <= i < blocks.len(),
        fits(blocks[i], total),
        total % granule == 0,
        total >= min_block,
    ensures
        blocks_wf(spec_take(blocks, i, total, min_block, owner), start, end, granule, min_block),
        free_bytes(spec_take(blocks, i, total, min_block, owner)) == free_bytes(blocks)
            - taken_size(blocks[i], total, min_block),
        spec_take(blocks, i, total, min_block, owner)[i] == used_part(
            blocks[i],
            taken_size(blocks[i], total, min_block),
            owner,
        ),
        spec_take(blocks, i, total, min_block, owner).len() == blocks.len() + if splits(
            blocks[i],
            total,
            min_block,
        ) {
            1int
        } else {
            0int
        },
{
    let b = blocks[i];
    let after = spec_take(blocks, i, total, min_block, owner);
    let n = blocks.len() as int;
    lemma_block_in_region(blocks, start, end, i);
    lemma_multiples_closed(b.size as int, total, granule);
    lemma_multiples_closed(b.start as int, total, granule);
    if splits(b, total, min_block) {
        let middle = seq![used_part(b, total, owner), rest_part(b, total)];
        assert(after.len() == n + 1);
        assert forall|k: int| 0 <= k < after.len() implies after[k] == (if k < i {
            blocks[k]
        } else if k == i {
            used_part(b, total, owner)
        } else if k == i + 1 {
            rest_part(b, total)
        } else {
            blocks[k - 1]
        }) by {
            if k >= i + 2 {
                assert(after[k] == blocks.subrange(i + 1, n)[k - i - 2]);
            } else if k >= i {
                assert(after[k] == middle[k - i]);
            }
        }
        assert forall|k: int| 0 <= k < after.len() implies after[k].start + after[k].size
            == #[trigger] next_start(after, k, end) by {
            if k < i {
                assert(blocks[k].start + blocks[k].size == next_start(blocks, k, end));
            } else if k > i + 1 {
                assert(blocks[k - 1].start + blocks[k - 1].size == next_start(blocks, k - 1, end));
            } else if k == i + 1 {
                assert(blocks[i].start + blocks[i].size == next_start(blocks, i, end));
            }
        }
        assert forall|k: int| 0 <= k < after.len() - 1 implies !#[trigger] both_free(after, k) by {
            if k < i - 1 {
                assert(!both_free(blocks, k));
            } else if k == i + 1 {
                assert(!both_free(blocks, i));
            } else if k > i + 1 {
                assert(!both_free(blocks, k - 1));
            }
        }
        assert(sized(after, granule, min_block));
        lemma_free_bytes_two(used_part(b, total, owner), rest_part(b, total));
    } else {
        let middle = seq![used_part(b, b.size as int, owner)];
        assert(after.len() == n);
        assert forall|k: int| 0 <= k < after.len() implies after[k] == (if k == i {
            used_part(b, b.size as int, owner)
        } else {
            blocks[k]
        }) by {
            if k > i {
                assert(after[k] == blocks.subrange(i + 1, n)[k - i - 1]);
            } else if k == i {
                assert(after[k] == middle[0]);
            }
        }
        assert forall|k: int| 0 <= k < after.len() implies after[k].start + after[k].size
            == #[trigger] next_start(after, k, end) by {
            assert(blocks[k].start + blocks[k].size == next_start(blocks, k, end));
        }
        assert forall|k: int| 0 <= k < after.len() - 1 implies !#[trigger] both_free(after, k) by {
            assert(!both_free(blocks, k));
        }
        assert(sized(after, granule, min_block));
        lemma_free_bytes_one(used_part(b, b.size as int, owner));
    }
    lemma_free_bytes_split(blocks, i, i + 1);
    assert(blocks.subrange(i, i + 1) =~= seq![b]);
    lemma_free_bytes_one(b);
    let a = blocks.subrange(0, i);
    let z = blocks.subrange(i + 1, n);
    let middle = if splits(b, total, min_block) {
        seq![used_part(b, total, owner), rest_part(b, total)]
    } else {
        seq![used_part(b, b.size as int, owner)]
    };
    lemma_free_bytes_concat(a + middle, z);
    lemma_free_bytes_concat(a, middle);
}

/// First index that a release of block `i` replaces.
pub open spec fn release_lo(blocks: Seq<Block>, i: int) -> int {
    if i > 0 && blocks[i - 1].free {
        i - 1
    } else {
        i
    }
}

/// One past the last index that a release of block `i` replaces.
pub open spec fn release_hi(blocks: Seq<Block>, i: int) -> int {
    if i + 1 < blocks.len() && blocks[i + 1].free {
        i + 2
    } else {
        i + 1
    }
}

/// The elements of the sequence after a release, index by index.
proof fn lemma_release_shape(blocks: Seq<Block>, end: int, i: int)
    requires
        0 <= i < blocks.len(),
        forall|k: int|
            0 <= k < blocks.len() ==> blocks[k].start + blocks[k].size == #[trigger] next_start(
                blocks,
                k,
                end,
            ),
        end <= usize::MAX,
    ensures
        spec_release(blocks, i).len() == blocks.len() - (release_hi(blocks, i) - release_lo(
            blocks,
            i,
        )) + 1,
        forall|k: int|
            0 <= k < release_lo(blocks, i) ==> (#[trigger] spec_release(blocks, i)[k]) == blocks[k],
        forall|k: int|
            release_lo(blocks, i) < k < spec_release(blocks, i).len() ==> (#[trigger] spec_release(
                blocks,
                i,
            )[k]) == blocks[k + (release_hi(blocks, i) - release_lo(blocks, i)) - 1],
        spec_release(blocks, i)[release_lo(blocks, i)].free,
        spec_release(blocks, i)[release_lo(blocks, i)].owner == NO_OWNER,
        spec_release(blocks, i)[release_lo(blocks, i)].start == blocks[release_lo(blocks, i)].start,
        spec_release(blocks, i)[release_lo(blocks, i)].start + spec_release(blocks, i)[release_lo(
            blocks,
            i,
        )].size == blocks[release_hi(blocks, i) - 1].start + blocks[release_hi(blocks, i) - 1].size,
{
    let n = blocks.len() as int;
    let after = spec_release(blocks, i);
    let lo = release_lo(blocks, i);
    let hi = release_hi(blocks, i);
    assert(blocks[i].start + blocks[i].size == next_start(blocks, i, end));
    if lo < i {
        assert(blocks[i - 1].start + blocks[i - 1].size == next_start(blocks, i - 1, end));
    }
    if hi > i + 1 {
        assert(blocks[i + 1].start + blocks[i + 1].size == next_start(blocks, i + 1, end));
    }
    assert(blocks[hi - 1].start + blocks[hi - 1].size == next_start(blocks, hi - 1, end));
    assert forall|k: int| lo < k < after.len() implies (#[trigger] after[k]) == blocks[k + (hi - lo)
        - 1] by {
        assert(after[k] == blocks.subrange(hi, n)[k - lo - 1]);
    }
}

/// Releasing an in-use block keeps the sequence well formed, adds exactly
/// its bytes to the free list, and leaves a free block over its range.
pub proof fn lemma_release(
    blocks: Seq<Block>,
    start: int,
    end: int,
    granule: int,
    min_block: int,
    i: int,
)
    requires
        blocks_wf(blocks, start, end, granule, min_block),
        0 <= i < blocks.len(),
        !blocks[i].free,
    ensures
        blocks_wf(spec_release(blocks, i), start, end, granule, min_block),
        free_bytes(spec_release(blocks, i)) == free_bytes(blocks) + blocks[i].size,
        0 <= release_lo(blocks, i) < spec_release(blocks, i).len(),
        spec_release(blocks, i)[release_lo(blocks, i)].free,
        spec_release(blocks, i)[release_lo(blocks, i)].start <= blocks[i].start,
        blocks[i].start + blocks[i].size <= spec_release(blocks, i)[release_lo(blocks, i)].start
            + spec_release(blocks, i)[release_lo(blocks, i)].size,
{
    lemma_release_shape(blocks, end, i);
    lemma_release_tiles(blocks, start, end, i);
    lemma_release_sized(blocks, start, end, granule, min_block, i);
    lemma_release_coalesced(blocks, end, i);
    lemma_release_free_bytes(blocks, end, i);
    let lo = release_lo(blocks, i);
    let hi = release_hi(blocks, i);
    if lo < i {
        lemma_blocks_ordered(blocks, start, end, lo, i);
    }
    if hi - 1 > i {
        lemma_blocks_ordered(blocks, start, end, i, hi - 1);
    }
}

proof fn lemma_release_tiles(blocks: Seq<Block>, start: int, end: int, i: int)
    requires
        tiles(blocks, start, end),
        end <= usize::MAX,
        0 <= i < blocks.len(),
    ensures
        tiles(spec_release(blocks, i), start, end),
{
    let after = spec_release(blocks, i);
    let lo = release_lo(blocks, i);
    let hi = release_hi(blocks, i);
    lemma_release_shape(blocks, end, i);
    assert forall|k: int| 0 <= k < after.len() implies after[k].start + after[k].size
        == #[trigger] next_start(after, k, end) by {
        if k < lo {
            assert(blocks[k].start + blocks[k].size == next_start(blocks, k, end));
            if k + 1 < lo {
                assert(after[k + 1] == blocks[k + 1]);
            }
        } else if k == lo {
            assert(blocks[hi - 1].start + blocks[hi - 1].size == next_start(blocks, hi - 1, end));
            if k + 1 < after.len() {
                assert(after[k + 1] == blocks[hi]);
            }
        } else {
            let j = k + (hi - lo) - 1;
            assert(blocks[j].start + blocks[j].size == next_start(blocks, j, end));
            if k + 1 < after.len() {
                assert(after[k + 1] == blocks[j + 1]);
            }
        }
    }
    if lo > 0 {
        assert(after[0] == blocks[0]);
    }
}

proof fn lemma_release_sized(
    blocks: Seq<Block>,
    start: int,
    end: int,
    granule: int,
    min_block: int,
    i: int,
)
    requires
        blocks_wf(blocks, start, end, granule, min_block),
        0 <= i < blocks.len(),
    ensures
        sized(spec_release(blocks, i), granule, min_block),
{
    let after = spec_release(blocks, i);
    let lo = release_lo(blocks, i);
    let hi = release_hi(blocks, i);
    lemma_release_shape(blocks, end, i);
    let merged = after[lo];
    if lo < hi - 1 {
        lemma_blocks_ordered(blocks, start, end, lo, hi - 1);
    }
    lemma_multiples_closed(blocks[hi - 1].start as int, blocks[hi - 1].size as int, granule);
    lemma_multiples_closed(
        (blocks[hi - 1].start + blocks[hi - 1].size) as int,
        blocks[lo].start as int,
        granule,
    );
    assert(merged.size == blocks[hi - 1].start + blocks[hi - 1].size - blocks[lo].start);
    assert(merged.size >= blocks[hi - 1].size);
    assert forall|k: int| 0 <= k < after.len() implies {
        &&& (#[trigger] after[k]).size as int % granule == 0
        &&& after[k].start as int % granule == 0
        &&& after[k].size >= min_block
        &&& (after[k].free ==> after[k].owner == NO_OWNER)
    } by {
        if k < lo {
            assert(after[k] == blocks[k]);
        } else if k > lo {
            assert(after[k] == blocks[k + (hi - lo) - 1]);
        }
    }
}

proof fn lemma_release_coalesced(blocks: Seq<Block>, end: int, i: int)
    requires
        coalesced(blocks),
        0 <= i < blocks.len(),
        !blocks[i].free,
        forall|k: int|
            0 <= k < blocks.len() ==> blocks[k].start + blocks[k].size == #[trigger] next_start(
                blocks,
                k,
                end,
            ),
        end <= usize::MAX,
    ensures
        coalesced(spec_release(blocks, i)),
{
    let after = spec_release(blocks, i);
    let lo = release_lo(blocks, i);
    let hi = release_hi(blocks, i);
    lemma_release_shape(blocks, end, i);
    assert forall|k: int| 0 <= k < after.len() - 1 implies !#[trigger] both_free(after, k) by {
        if k < lo - 1 {
            assert(!both_free(blocks, k));
            assert(after[k] == blocks[k]);
            assert(after[k + 1] == blocks[k + 1]);
        } else if k == lo - 1 {
            assert(after[k] == blocks[k]);
            if lo < i {
                assert(!both_free(blocks, lo - 1));
            }
        } else if k == lo {
            assert(after[k + 1] == blocks[hi]);
            if hi > i + 1 {
                assert(!both_free(blocks, hi - 1));
            }
        } else {
            let j = k + (hi - lo) - 1;
            assert(!both_free(blocks, j));
            assert(after[k] == blocks[j]);
            assert(after[k + 1] == blocks[j + 1]);
        }
    }
}

proof fn lemma_release_free_bytes(blocks: Seq<Block>, end: int, i: int)
    requires
        0 <= i < blocks.len(),
        !blocks[i].free,
        forall|k: int|
            0 <= k < blocks.len() ==> blocks[k].start + blocks[k].size == #[trigger] next_start(
                blocks,
                k,
                end,
            ),
        end <= usize::MAX,
    ensures
        free_bytes(spec_release(blocks, i)) == free_bytes(blocks) + blocks[i].size,
{
    let n = blocks.len() as int;
    let after = spec_release(blocks, i);
    let lo = release_lo(blocks, i);
    let hi = release_hi(blocks, i);
    lemma_release_shape(blocks, end, i);
    let merged = after[lo];
    assert(blocks[i].start + blocks[i].size == next_start(blocks, i, end));
    if lo < i {
        assert(blocks[i - 1].start + blocks[i - 1].size == next_start(blocks, i - 1, end));
    }
    lemma_free_bytes_split(blocks, lo, hi);
    let a = blocks.subrange(0, lo);
    let z = blocks.subrange(hi, n);
    assert(after =~= (a + seq![merged]) + z);
    lemma_free_bytes_concat(a + seq![merged], z);
    lemma_free_bytes_concat(a, seq![merged]);
    lemma_free_bytes_one(merged);
    let mid = blocks.subrange(lo, hi);
    if lo < i && hi > i + 1 {
        assert(mid =~= seq![blocks[i - 1], blocks[i]] + seq![blocks[i + 1]]);
        lemma_free_bytes_concat(seq![blocks[i - 1], blocks[i]], seq![blocks[i + 1]]);
        lemma_free_bytes_two(blocks[i - 1], blocks[i]);
        lemma_free_bytes_one(blocks[i + 1]);
    } else if lo < i {
        assert(mid =~= seq![blocks[i - 1], blocks[i]]);
        lemma_free_bytes_two(blocks[i - 1], blocks[i]);
    } else if hi > i + 1 {
        assert(mid =~= seq![blocks[i], blocks[i + 1]]);
        lemma_free_bytes_two(blocks[i], blocks[i + 1]);
    } else {
        assert(mid =~= seq![blocks[i]]);
        lemma_free_bytes_one(blocks[i]);
    }
}

/// Taking from a free block and releasing what was taken restores the
/// block sequence exactly: the split is undone by coalescing.
pub proof fn lemma_take_release_round_trip(
    blocks: Seq<Block>,
    start: int,
    end: int,
    granule: int,
    min_block: int,
    i: int,
    total: int,
    owner: u32,
)
    requires
        blocks_wf(blocks, start, end, granule, min_block),
        0 <= i < blocks.len(),
        fits(blocks[i], total),
        total % granule == 0,
        total >= min_block,
    ensures
        spec_release(spec_take(blocks, i, total, min_block, owner), i) == blocks,
{
    let n = blocks.len() as int;
    let b = blocks[i];
    let taken = spec_take(blocks, i, total, min_block, owner);
    lemma_take(blocks, start, end, granule, min_block, i, total, owner);
    let back = spec_release(taken, i);
    if i > 0 {
        assert(!both_free(blocks, i - 1));
        assert(taken[i - 1] == blocks[i - 1]);
    }
    if splits(b, total, min_block) {
        let middle = seq![used_part(b, total, owner), rest_part(b, total)];
        assert(taken[i + 1] == middle[1]);
        assert(taken.len() == n + 1);
        assert(back.len() == n);
        assert forall|k: int| 0 <= k < n implies back[k] == blocks[k] by {
            if k > i {
                assert(back[k] == taken.subrange(i + 2, n + 1)[k - i - 1]);
                assert(taken[k + 1] == blocks.subrange(i + 1, n)[k - i - 1]);
            }
        }
    } else {
        if i + 1 < n {
            assert(!both_free(blocks, i));
            assert(taken[i + 1] == blocks.subrange(i + 1, n)[0]);
        }
        assert(back.len() == n);
        assert forall|k: int| 0 <= k < n implies back[k] == blocks[k] by {
            if k > i {
                assert(back[k] == taken.subrange(i + 1, n)[k - i - 1]);
                assert(taken[k] == blocks.subrange(i + 1, n)[k - i - 1]);
            }
        }
    }
    assert(back =~= blocks);
}

impl Region {
    /// Well-formedness: the blocks tile the region, respect its granularity
    /// and minimum block size, and are fully coalesced.
    pub open spec fn wf(&self) -> bool {
        blocks_wf(
            self.blocks@,
            self.start as int,
            self.end as int,
            self.granule as int,
            self.min_block as int,
        )
    }

    /// An empty region at address zero with the given granularity.
    pub fn new(granule: usize, min_block: usize) -> (r: Region)
        requires
            granule > 0,
            min_block > 0,
            min_block % granule == 0,
        ensures
            r.wf(),
            r.blocks@.len() == 0,
            r.start == 0,
            r.end == 0,
            r.granule == granule,
            r.min_block == min_block,
    {
        Region { blocks: Vec::new(), start: 0, end: 0, granule, min_block }
    }

    /// Makes the region cover `[start, start + size)` with one free block.
    pub fn init(&mut self, start: usize, size: usize)
        requires
            old(self).granule > 0,
            old(self).min_block > 0,
            old(self).min_block % old(self).granule == 0,
            start % old(self).granule == 0,
            size % old(self).granule == 0,
            size >= old(self).min_block,
            start + size <= usize::MAX,
        ensures
            final(self).wf(),
            final(self).start == start,
            final(self).end == start + size,
            final(self).granule == old(self).granule,
            final(self).min_block == old(self).min_block,
            final(self).blocks@ == seq![Block { start, size, free: true, owner: NO_OWNER }],
    {
        let mut blocks: Vec<Block> = Vec::new();
        blocks.push(Block { start, size, free: true, owner: NO_OWNER });
        self.blocks = blocks;
        self.start = start;
        self.end = start + size;
        proof {
            lemma_multiples_closed(start as int, size as int, self.granule as int);
            assert(self.blocks@ =~= seq![Block { start, size, free: true, owner: NO_OWNER }]);
            assert(self.blocks@[0].start + self.blocks@[0].size == next_start(
                self.blocks@,
                0,
                self.end as int,
            ));
        }
    }

    /// First-fit search: the lowest-addressed free block of at least
    /// `total` bytes.
    pub fn find_first_fit(&self, total: usize) -> (r: Option<usize>)
        ensures
            match r {
                Some(i) => i < self.blocks@.len() && i == first_fit(self.blocks@, total as int, 0)
                    && fits(self.blocks@[i as int], total as int),
                None => first_fit(self.blocks@, total as int, 0) == self.blocks@.len(),
            },
    {
        let n: usize = self.blocks.len();
        let mut i: usize = 0;
        while i < n
            invariant
                n == self.blocks@.len(),
                i <= n,
                first_fit(self.blocks@, total as int, 0) == first_fit(
                    self.blocks@,
                    total as int,
                    i as int,
                ),
            decreases n - i,
        {
            let b: Block = self.blocks[i];
            if b.free && b.size >= total {
                return Some(i);
            }
            i += 1;
        }
        None
    }

    /// Gives `total` bytes of free block `i` to `owner`, splitting off the
    /// remainder as a free block when it is large enough and absorbing it
    /// otherwise. Returns the size of the block now in use.
    pub fn take(&mut self, i: usize, total: usize, owner: u32) -> (taken: usize)
        requires
            old(self).wf(),
            i < old(self).blocks@.len(),
            fits(old(self).blocks@[i as int], total as int),
            total % old(self).granule == 0,
            total >= old(self).min_block,
        ensures
            final(self).wf(),
            final(self).start == old(self).start,
            final(self).end == old(self).end,
            final(self).granule == old(self).granule,
            final(self).min_block == old(self).min_block,
            final(self).blocks@ == spec_take(
                old(self).blocks@,
                i as int,
                total as int,
                old(self).min_block as int,
                owner,
            ),
            taken == taken_size(
                old(self).blocks@[i as int],
                total as int,
                old(self).min_block as int,
            ),
    {
        let n: usize = self.blocks.len();
        let b: Block = self.blocks[i];
        proof {
            lemma_take(
                self.blocks@,
                self.start as int,
                self.end as int,
                self.granule as int,
                self.min_block as int,
                i as int,
                total as int,
                owner,
            );
            lemma_block_in_region(self.blocks@, self.start as int, self.end as int, i as int);
        }
        if b.size - total >= self.min_block {
            self.blocks.set(i, Block { start: b.start, size: total, free: false, owner });
            self.blocks.insert(
                i + 1,
                Block { start: b.start + total, size: b.size - total, free: true, owner: NO_OWNER },
            );
            proof {
                assert(self.blocks@ =~= spec_take(
                    old(self).blocks@,
                    i as int,
                    total as int,
                    old(self).min_block as int,
                    owner,
                ));
            }
            total
        } else {
            self.blocks.set(i, Block { start: b.start, size: b.size, free: false, owner });
            proof {
                assert(self.blocks@ =~= spec_take(
                    old(self).blocks@,
                    i as int,
                    total as int,
                    old(self).min_block as int,
                    owner,
                ));
            }
            b.size
        }
    }

    /// Returns in-use block `i` to the free list and merges it with its
    /// free neighbours.
    pub fn release(&mut self, i: usize)
        requires
            old(self).wf(),
            i < old(self).blocks@.len(),
            !old(self).blocks@[i as int].free,
        ensures
            final(self).wf(),
            final(self).start == old(self).start,
            final(self).end == old(self).end,
            final(self).granule == old(self).granule,
            final(self).min_block == old(self).min_block,
            final(self).blocks@ == spec_release(old(self).blocks@, i as int),
    {
        proof {
            lemma_release(
                self.blocks@,
                self.start as int,
                self.end as int,
                self.granule as int,
                self.min_block as int,
                i as int,
            );
            lemma_block_in_region(self.blocks@, self.start as int, self.end as int, i as int);
            assert(self.blocks@[i as int].start + self.blocks@[i as int].size == next_start(
                self.blocks@,
                i as int,
                self.end as int,
            ));
        }
        let n: usize = self.blocks.len();
        let b: Block = self.blocks[i];
        let mut start: usize = b.start;
        let mut size: usize = b.size;
        let mut lo: usize = i;
        if i + 1 < n && self.blocks[i + 1].free {
            proof {
                lemma_block_in_region(
                    self.blocks@,
                    self.start as int,
                    self.end as int,
                    i as int + 1,
                );
            }
            size = size + self.blocks[i + 1].size;
            self.blocks.remove(i + 1);
        }
        if i > 0 && self.blocks[i - 1].free {
            proof {
                assert(old(self).blocks@[i as int - 1].start + old(self).blocks@[i as int - 1].size
                    == next_start(old(self).blocks@, i as int - 1, self.end as int));
            }
            start = self.blocks[i - 1].start;
            size = size + self.blocks[i - 1].size;
            self.blocks.remove(i);
            lo = i - 1;
        }
        self.blocks.set(lo, Block { start, size, free: true, owner: NO_OWNER });
        proof {
            assert(self.blocks@ =~= spec_release(old(self).blocks@, i as int));
        }
    }

    /// Index of the block that contains `addr`, if the address lies in the
    /// region.
    pub fn find_block(&self, addr: usize) -> (r: Option<usize>)
        ensures
            match r {
                Some(i) => i < self.blocks@.len() && i == block_index(self.blocks@, addr as int, 0)
                    && contains(self.blocks@[i as int], addr as int),
                None => block_index(self.blocks@, addr as int, 0) == self.blocks@.len(),
            },
    {
        let n: usize = self.blocks.len();
        let mut i: usize = 0;
        while i < n
            invariant
                n == self.blocks@.len(),
                i <= n,
                block_index(self.blocks@, addr as int, 0) == block_index(
                    self.blocks@,
                    addr as int,
                    i as int,
                ),
            decreases n - i,
        {
            let b: Block = self.blocks[i];
            if b.start <= addr && addr - b.start < b.size {
                return Some(i);
            }
            i += 1;
        }
        None
    }

    /// Total bytes on the free list, by one walk over the blocks.
    pub fn free_total(&self) -> (free: usize)
        requires
            self.wf(),
        ensures
            free == free_bytes(self.blocks@),
            free <= self.end - self.start,
    {
        let n: usize = self.blocks.len();
        let mut free: usize = 0;
        let mut i: usize = 0;
        proof {
            lemma_free_upto_bound(self.blocks@, self.start as int, self.end as int, n as int);
        }
        while i < n
            invariant
                n == self.blocks@.len(),
                i <= n,
                self.wf(),
                free == free_upto(self.blocks@, i as int),
            decreases n - i,
        {
            proof {
                lemma_free_upto_bound(
                    self.blocks@,
                    self.start as int,
                    self.end as int,
                    i as int + 1,
                );
            }
            let b: Block = self.blocks[i];
            if b.free {
                free = free + b.size;
            }
            i += 1;
        }
        free
    }
}

/// The free list is strictly sorted by address and fully coalesced: of
/// two free blocks, the later one starts beyond the end of the earlier
/// one, with at least one block in use between them.
pub proof fn lemma_free_blocks_apart(
    blocks: Seq<Block>,
    start: int,
    end: int,
    granule: int,
    min_block: int,
    i: int,
    j: int,
)
    requires
        blocks_wf(blocks, start, end, granule, min_block),
        0 <= i < j < blocks.len(),
        blocks[i].free,
        blocks[j].free,
    ensures
        i + 1 < j,
        !blocks[i + 1].free,
        blocks[i].start + blocks[i].size + min_block <= blocks[j].start,
{
    assert(!both_free(blocks, i));
    assert(blocks[i].start + blocks[i].size == next_start(blocks, i, end));
    lemma_blocks_ordered(blocks, start, end, i + 1, j);
}

} // verus!
