//! Executable table and loader.
//!
//! The boot image carries a table of named blobs behind the kernel. This
//! module finds and validates that table in a snapshot of low memory, looks
//! blobs up by name, loads ELF images into the program region, and keeps
//! the per-task ledger of program-region allocations.

use vstd::prelude::*;
use crate::bytes::{le32_at, spec_le32_at};
use vstd::slice::slice_subrange;
use crate::elf::{
    load_parsed, spec_load_elf, spec_memory_requirements, spec_parse_error, spec_segments, Elf,
    ElfError,
};
use crate::program_alloc::{spec_is_allocated, spec_page_round, ProgramAllocator, PAGE_SIZE};
use crate::region::{block_index, spec_release, spec_take, Block, NO_OWNER};
use crate::task::TaskId;

verus! {

/// Most entries a table may hold.
pub const MAX_EXECUTABLES: usize = 15;

/// Bytes of the table header in front of the entries.
pub const TABLE_HEADER_SIZE: usize = 16;

/// Bytes of one table entry.
pub const ENTRY_SIZE: usize = 32;

/// Bytes of the name field of an entry.
pub const NAME_SIZE: usize = 16;

/// Bytes reserved for the table in front of the first blob; blobs are
/// aligned to this size too.
pub const TABLE_BLOCK_SIZE: usize = 512;

/// Whether the four bytes at `at` are the table magic "REXE".
pub open spec fn spec_has_magic(mem: Seq<u8>, at: int) -> bool {
    mem[at] == 0x52 && mem[at + 1] == 0x45 && mem[at + 2] == 0x58 && mem[at + 3] == 0x45
}

/// The entry count stored in the header at `at`.
pub open spec fn spec_count(mem: Seq<u8>, at: int) -> int {
    spec_le32_at(mem, at + 8)
}

/// Where entry `i` of the table at `at` starts.
pub open spec fn spec_entry_at(at: int, i: int) -> int {
    at + TABLE_HEADER_SIZE + i * ENTRY_SIZE
}

/// The blob offset of entry `i`, counted from the table start.
pub open spec fn spec_entry_offset(mem: Seq<u8>, at: int, i: int) -> int {
    spec_le32_at(mem, spec_entry_at(at, i) + 16)
}

/// The blob size of entry `i`.
pub open spec fn spec_entry_size(mem: Seq<u8>, at: int, i: int) -> int {
    spec_le32_at(mem, spec_entry_at(at, i) + 20)
}

/// Whether entry `i` names a blob: its offset and its size are not zero.
pub open spec fn spec_entry_ok(mem: Seq<u8>, at: int, i: int) -> bool {
    spec_entry_offset(mem, at, i) != 0 && spec_entry_size(mem, at, i) != 0
}

/// Whether each of the first `n` entries names a blob.
pub open spec fn spec_entries_ok(mem: Seq<u8>, at: int, n: int) -> bool {
    forall|i: int| 0 <= i < n ==> #[trigger] spec_entry_ok(mem, at, i)
}

/// Whether a valid table starts at `at`: magic, version 1, at most 15
/// entries that all lie inside `mem` and all name a blob.
pub open spec fn spec_is_table(mem: Seq<u8>, at: int) -> bool {
    &&& 0 <= at
    &&& at + TABLE_HEADER_SIZE <= mem.len()
    &&& spec_has_magic(mem, at)
    &&& spec_le32_at(mem, at + 4) == 1
    &&& spec_count(mem, at) <= MAX_EXECUTABLES
    &&& spec_entry_at(at, spec_count(mem, at)) <= mem.len()
    &&& spec_entries_ok(mem, at, spec_count(mem, at))
}

/// The first valid table at a 4-byte step at or after `from`.
pub open spec fn spec_find_table(mem: Seq<u8>, from: int) -> Option<int>
    decreases mem.len() - from,
{
    if from < 0 || from + TABLE_HEADER_SIZE > mem.len() {
        None
    } else if spec_is_table(mem, from) {
        Some(from)
    } else {
        spec_find_table(mem, from + 4)
    }
}

/// Length of the name in a name field: the bytes in front of the first
/// NUL at or after `from`, the whole field if there is none.
pub open spec fn spec_name_len(field: Seq<u8>, from: int) -> int
    decreases field.len() - from,
{
    if from >= field.len() {
        field.len() as int
    } else if field[from] == 0 {
        from
    } else {
        spec_name_len(field, from + 1)
    }
}

/// The name of entry `i`: its name field up to the first NUL.
pub open spec fn spec_entry_name(mem: Seq<u8>, at: int, i: int) -> Seq<u8> {
    let field = mem.subrange(spec_entry_at(at, i), spec_entry_at(at, i) + NAME_SIZE);
    field.subrange(0, spec_name_len(field, 0))
}

/// Index of the first entry at or after `from` whose name is `name`, or
/// `count` if there is none.
pub open spec fn spec_lookup(mem: Seq<u8>, at: int, count: int, name: Seq<u8>, from: int) -> int
    decreases count - from,
{
    if from >= count {
        count
    } else if spec_entry_name(mem, at, from) == name {
        from
    } else {
        spec_lookup(mem, at, count, name, from + 1)
    }
}

/// Whether a valid table starts at offset `at` of `mem`.
pub fn validate_table(mem: &[u8], at: usize) -> (ok: bool)
    ensures
        ok == spec_is_table(mem@, at as int),
{
    let len: usize = mem.len();
    if len < TABLE_HEADER_SIZE || at > len - TABLE_HEADER_SIZE {
        return false;
    }
    if !(mem[at] == 0x52 && mem[at + 1] == 0x45 && mem[at + 2] == 0x58 && mem[at + 3] == 0x45) {
        return false;
    }
    if le32_at(mem, at + 4) != 1 {
        return false;
    }
    let count: u32 = le32_at(mem, at + 8);
    if count as usize > MAX_EXECUTABLES {
        return false;
    }
    let count: usize = count as usize;
    if count * ENTRY_SIZE > len - TABLE_HEADER_SIZE - at {
        return false;
    }
    let mut i: usize = 0;
    while i < count
        invariant
            len == mem@.len(),
            at + TABLE_HEADER_SIZE + count * ENTRY_SIZE <= len,
            count <= MAX_EXECUTABLES,
            count == spec_count(mem@, at as int),
            i <= count,
            spec_entries_ok(mem@, at as int, i as int),
        decreases count - i,
    {
        let entry: usize = at + TABLE_HEADER_SIZE + i * ENTRY_SIZE;
        let offset: u32 = le32_at(mem, entry + 16);
        let size: u32 = le32_at(mem, entry + 20);
        proof {
            assert(entry == spec_entry_at(at as int, i as int));
            assert(offset == spec_entry_offset(mem@, at as int, i as int));
            assert(size == spec_entry_size(mem@, at as int, i as int));
        }
        if offset == 0 || size == 0 {
            proof {
                assert(!spec_entry_ok(mem@, at as int, i as int));
            }
            return false;
        }
        proof {
            assert(spec_entry_ok(mem@, at as int, i as int));
        }
        i += 1;
    }
    true
}

/// Scans `mem` at 4-byte steps for the first valid table.
pub fn find_table(mem: &[u8]) -> (r: Option<usize>)
    ensures
        match r {
            Some(at) => spec_find_table(mem@, 0) == Some(at as int) && spec_is_table(
                mem@,
                at as int,
            ),
            None => spec_find_table(mem@, 0).is_none(),
        },
{
    let len: usize = mem.len();
    if len < TABLE_HEADER_SIZE {
        return None;
    }
    let mut at: usize = 0;
    while at <= len - TABLE_HEADER_SIZE
        invariant
            len == mem@.len(),
            len >= TABLE_HEADER_SIZE,
            spec_find_table(mem@, 0) == spec_find_table(mem@, at as int),
        decreases len - at,
    {
        if validate_table(mem, at) {
            return Some(at);
        }
        at += 4;
    }
    None
}

/// The name stored in entry `i` of the table at `at`.
pub fn entry_name(mem: &[u8], at: usize, i: usize) -> (name: Vec<u8>)
    requires
        spec_is_table(mem@, at as int),
        i < spec_count(mem@, at as int),
    ensures
        name@ == spec_entry_name(mem@, at as int, i as int),
{
    let len: usize = mem.len();
    let entry: usize = at + TABLE_HEADER_SIZE + i * ENTRY_SIZE;
    let ghost field = mem@.subrange(entry as int, entry + NAME_SIZE);
    let mut name: Vec<u8> = Vec::new();
    let mut k: usize = 0;
    while k < NAME_SIZE
        invariant
            entry + ENTRY_SIZE <= mem@.len(),
            mem@.len() == len,
            entry == spec_entry_at(at as int, i as int),
            field == mem@.subrange(entry as int, entry + NAME_SIZE),
            field.len() == NAME_SIZE,
            k <= NAME_SIZE,
            spec_name_len(field, 0) == spec_name_len(field, k as int),
            name@ == field.subrange(0, k as int),
        decreases NAME_SIZE - k,
    {
        let b: u8 = mem[entry + k];
        assert(field[k as int] == b);
        if b == 0 {
            return name;
        }
        name.push(b);
        k += 1;
        proof {
            assert(name@ =~= field.subrange(0, k as int));
        }
    }
    name
}

/// Whether two byte strings are equal.
pub fn bytes_eq(a: &[u8], b: &[u8]) -> (r: bool)
    ensures
        r == (a@ == b@),
{
    if a.len() != b.len() {
        return false;
    }
    let n: usize = a.len();
    let mut i: usize = 0;
    while i < n
        invariant
            n == a@.len(),
            n == b@.len(),
            i <= n,
            a@.subrange(0, i as int) == b@.subrange(0, i as int),
        decreases n - i,
    {
        if a[i] != b[i] {
            proof {
                assert(a@[i as int] != b@[i as int]);
            }
            return false;
        }
        i += 1;
        proof {
            assert(a@.subrange(0, i as int) =~= a@.subrange(0, i as int - 1).push(a@[i as int - 1]));
            assert(b@.subrange(0, i as int) =~= b@.subrange(0, i as int - 1).push(b@[i as int - 1]));
        }
    }
    proof {
        assert(a@ =~= a@.subrange(0, n as int));
        assert(b@ =~= b@.subrange(0, n as int));
    }
    true
}

/// A program placed in the program region.
pub struct LoadedProgram {
    /// Name under which the table lists it.
    pub name: Vec<u8>,
    /// Where its image starts.
    pub base_addr: usize,
    /// Bytes allocated for it.
    pub size: usize,
    /// Absolute address of its entry point.
    pub entry: usize,
}

/// Why the loader refused.
#[derive(Debug, Clone, Copy, PartialEq, Eq)]
pub enum ExecError {
    /// The registry has not been initialised.
    NotInitialized,
    /// No table was found at initialisation.
    NoTableFound,
    /// The table has no entry of that name.
    NotFound,
    /// The blob is not a loadable ELF image.
    ElfError(ElfError),
    /// The program region has no room.
    AllocationFailed,
    /// An entry points outside the memory that holds the table.
    InvalidTable,
}

/// The program-region allocations of one task.
pub struct TaskAllocations {
    /// The task.
    pub task_id: TaskId,
    /// Its stack as (base, size).
    pub stack: (usize, usize),
    /// Its program image as (base, size, name), for a loaded program.
    pub program: Option<(usize, usize, Vec<u8>)>,
    /// Its program heap blocks as (address, size), oldest first.
    pub heap_blocks: Vec<(usize, usize)>,
}

/// The program-region allocations of one task as plain values.
pub struct AllocationsView {
    pub task_id: TaskId,
    pub stack: (usize, usize),
    pub program: Option<(usize, usize, Seq<u8>)>,
    pub heap_blocks: Seq<(usize, usize)>,
}

impl View for TaskAllocations {
    type V = AllocationsView;

    open spec fn view(&self) -> AllocationsView {
        AllocationsView {
            task_id: self.task_id,
            stack: self.stack,
            program: match self.program {
                Some((base, size, name)) => Some((base, size, name@)),
                None => None,
            },
            heap_blocks: self.heap_blocks@,
        }
    }
}

impl TaskAllocations {
    /// The ledger entry of a task that owns only its stack.
    pub fn new(task_id: TaskId, stack_base: usize, stack_size: usize) -> (t: TaskAllocations)
        ensures
            t@ == spec_fresh(task_id, stack_base, stack_size),
    {
        TaskAllocations {
            task_id,
            stack: (stack_base, stack_size),
            program: None,
            heap_blocks: Vec::new(),
        }
    }
}

/// A snapshot of one task's ledger entry.
pub struct TaskMemoryInfo {
    /// The task.
    pub task_id: TaskId,
    /// Its stack as (base, size).
    pub stack: (usize, usize),
    /// Its program image as (base, size, name), if any.
    pub program: Option<(usize, usize, Vec<u8>)>,
    /// Its program heap blocks as (address, size).
    pub heap_blocks: Vec<(usize, usize)>,
}

impl View for TaskMemoryInfo {
    type V = AllocationsView;

    open spec fn view(&self) -> AllocationsView {
        AllocationsView {
            task_id: self.task_id,
            stack: self.stack,
            program: match self.program {
                Some((base, size, name)) => Some((base, size, name@)),
                None => None,
            },
            heap_blocks: self.heap_blocks@,
        }
    }
}

/// The ledger entry of a task that owns only its stack.
pub open spec fn spec_fresh(task_id: TaskId, stack_base: usize, stack_size: usize) -> AllocationsView {
    AllocationsView {
        task_id,
        stack: (stack_base, stack_size),
        program: None,
        heap_blocks: Seq::empty(),
    }
}

/// Entries are in strictly ascending task-id order, so no task has two.
pub open spec fn ledger_sorted(l: Seq<AllocationsView>) -> bool {
    forall|i: int, j: int| 0 <= i < j < l.len()
        ==> (#[trigger] l[i]).task_id < (#[trigger] l[j]).task_id
}

/// Index of the first entry at or after `from` whose task id is at least
/// `id`, or the ledger length: where the entry of `id` is or would go.
pub open spec fn ledger_slot(l: Seq<AllocationsView>, id: TaskId, from: int) -> int
    decreases l.len() - from,
{
    if from >= l.len() {
        l.len() as int
    } else if l[from].task_id >= id {
        from
    } else {
        ledger_slot(l, id, from + 1)
    }
}

/// Whether the ledger has an entry for `id`.
pub open spec fn ledger_has(l: Seq<AllocationsView>, id: TaskId) -> bool {
    ledger_slot(l, id, 0) < l.len() && l[ledger_slot(l, id, 0)].task_id == id
}

/// The ledger after the stack of task `id` is registered: a fresh entry
/// that replaces any earlier one of the same task.
pub open spec fn spec_register_stack(
    l: Seq<AllocationsView>,
    id: TaskId,
    stack_base: usize,
    stack_size: usize,
) -> Seq<AllocationsView> {
    let k = ledger_slot(l, id, 0);
    if ledger_has(l, id) {
        l.update(k, spec_fresh(id, stack_base, stack_size))
    } else {
        l.insert(k, spec_fresh(id, stack_base, stack_size))
    }
}

/// The ledger after the program image of task `id` is recorded; unchanged
/// if the task has no entry.
pub open spec fn spec_register_program(
    l: Seq<AllocationsView>,
    id: TaskId,
    base: usize,
    size: usize,
    name: Seq<u8>,
) -> Seq<AllocationsView> {
    let k = ledger_slot(l, id, 0);
    if ledger_has(l, id) {
        l.update(k, AllocationsView { program: Some((base, size, name)), ..l[k] })
    } else {
        l
    }
}

/// The ledger after a heap block of task `id` is recorded; unchanged if
/// the task has no entry.
pub open spec fn spec_push_heap(l: Seq<AllocationsView>, id: TaskId, addr: usize, size: usize) -> Seq<
    AllocationsView,
> {
    let k = ledger_slot(l, id, 0);
    if ledger_has(l, id) {
        l.update(k, AllocationsView { heap_blocks: l[k].heap_blocks.push((addr, size)), ..l[k] })
    } else {
        l
    }
}

/// Index of the first heap block at or after `from` that starts at `ptr`,
/// or the number of blocks.
pub open spec fn heap_index(blocks: Seq<(usize, usize)>, ptr: usize, from: int) -> int
    decreases blocks.len() - from,
{
    if from >= blocks.len() {
        blocks.len() as int
    } else if blocks[from].0 == ptr {
        from
    } else {
        heap_index(blocks, ptr, from + 1)
    }
}

/// Whether `addr` lies in the extent `(base, size)`.
pub open spec fn in_extent(e: (usize, usize), addr: usize) -> bool {
    e.0 <= addr && addr - e.0 < e.1
}

/// The program region after the extent `e` is released: freed if it is
/// exactly one live allocation, untouched otherwise.
pub open spec fn spec_free_extent(blocks: Seq<Block>, e: (usize, usize)) -> Seq<Block> {
    if spec_is_allocated(blocks, e.0 as int, e.1) {
        spec_release(blocks, block_index(blocks, e.0 as int, 0))
    } else {
        blocks
    }
}

/// The program region after the first `n` extents are released in order.
pub open spec fn spec_free_extents(blocks: Seq<Block>, extents: Seq<(usize, usize)>, n: int) -> Seq<
    Block,
>
    decreases n,
{
    if n <= 0 {
        blocks
    } else {
        spec_free_extent(spec_free_extents(blocks, extents, n - 1), extents[n - 1])
    }
}

/// Everything a task holds in the program region, in the order in which
/// it is released: heap blocks, then the program image, then the stack.
pub open spec fn spec_task_extents(t: AllocationsView) -> Seq<(usize, usize)> {
    t.heap_blocks + (match t.program {
        Some((base, size, _)) => seq![(base, size)],
        None => Seq::empty(),
    }) + seq![t.stack]
}

/// Whether task `t` holds `addr`: in its stack, its program image or one
/// of its heap blocks.
pub open spec fn owns_addr(t: AllocationsView, addr: usize) -> bool {
    ||| in_extent(t.stack, addr)
    ||| (t.program.is_some() && in_extent((t.program.unwrap().0, t.program.unwrap().1), addr))
    ||| exists|k: int| 0 <= k < t.heap_blocks.len() && in_extent(#[trigger] t.heap_blocks[k], addr)
}

/// Index of the first entry at or after `from` whose task holds `addr`,
/// or the ledger length.
pub open spec fn owner_index(l: Seq<AllocationsView>, addr: usize, from: int) -> int
    decreases l.len() - from,
{
    if from >= l.len() {
        l.len() as int
    } else if owns_addr(l[from], addr) {
        from
    } else {
        owner_index(l, addr, from + 1)
    }
}

/// Whether the program image of task `t` contains `addr`.
pub open spec fn program_holds(t: AllocationsView, addr: usize) -> bool {
    t.program.is_some() && in_extent((t.program.unwrap().0, t.program.unwrap().1), addr)
}

/// Index of the first entry at or after `from` whose program image
/// contains `addr`, or the ledger length.
pub open spec fn program_index(l: Seq<AllocationsView>, addr: usize, from: int) -> int
    decreases l.len() - from,
{
    if from >= l.len() {
        l.len() as int
    } else if program_holds(l[from], addr) {
        from
    } else {
        program_index(l, addr, from + 1)
    }
}

/// The loader's state: where the table is and what each task holds.
pub struct ExecRegistry {
    /// Set by `init`.
    pub initialized: bool,
    /// Offset of the table in the low-memory snapshot, if one was found.
    pub table: Option<usize>,
    /// Number of entries in the table.
    pub exec_count: usize,
    /// The ledger: one entry per task, in ascending task-id order.
    pub task_allocations: Vec<TaskAllocations>,
}

impl ExecRegistry {
    /// The ledger as plain values.
    pub open spec fn ledger(&self) -> Seq<AllocationsView> {
        self.task_allocations@.map_values(|t: TaskAllocations| t@)
    }

    /// The ledger is in strictly ascending task-id order.
    pub open spec fn wf(&self) -> bool {
        ledger_sorted(self.ledger())
    }

    /// Whether the recorded table is a valid table of `mem`.
    pub open spec fn table_ok(&self, mem: Seq<u8>) -> bool {
        match self.table {
            Some(at) => spec_is_table(mem, at as int) && self.exec_count == spec_count(
                mem,
                at as int,
            ),
            None => self.exec_count == 0,
        }
    }

    /// A registry that has not been initialised.
    pub fn new() -> (r: ExecRegistry)
        ensures
            r.wf(),
            !r.initialized,
            r.table.is_none(),
            r.exec_count == 0,
            r.ledger().len() == 0,
    {
        ExecRegistry {
            initialized: false,
            table: None,
            exec_count: 0,
            task_allocations: Vec::new(),
        }
    }

    /// Where the entry of task `id` is or would go.
    pub fn find_slot(&self, id: TaskId) -> (k: usize)
        ensures
            k == ledger_slot(self.ledger(), id, 0),
            k <= self.ledger().len(),
    {
        let n: usize = self.task_allocations.len();
        let mut k: usize = 0;
        while k < n
            invariant
                n == self.task_allocations@.len(),
                n == self.ledger().len(),
                k <= n,
                ledger_slot(self.ledger(), id, 0) == ledger_slot(self.ledger(), id, k as int),
            decreases n - k,
        {
            if self.task_allocations[k].task_id >= id {
                return k;
            }
            k += 1;
        }
        k
    }
}

/// In a sorted ledger, the slot of `id` holds the only entry that may
/// belong to `id`: entries in front are smaller, entries behind larger.
pub proof fn lemma_ledger_slot(l: Seq<AllocationsView>, id: TaskId, from: int)
    requires
        0 <= from <= l.len(),
    ensures
        from <= ledger_slot(l, id, from) <= l.len(),
        forall|j: int| from <= j < ledger_slot(l, id, from) ==> (#[trigger] l[j]).task_id < id,
        ledger_slot(l, id, from) < l.len() ==> l[ledger_slot(l, id, from)].task_id >= id,
    decreases l.len() - from,
{
    if from < l.len() && l[from].task_id < id {
        lemma_ledger_slot(l, id, from + 1);
    }
}

/// Registering a stack keeps the ledger sorted.
pub proof fn lemma_register_stack_sorted(
    l: Seq<AllocationsView>,
    id: TaskId,
    stack_base: usize,
    stack_size: usize,
)
    requires
        ledger_sorted(l),
    ensures
        ledger_sorted(spec_register_stack(l, id, stack_base, stack_size)),
        ledger_has(spec_register_stack(l, id, stack_base, stack_size), id),
{
    let k = ledger_slot(l, id, 0);
    let after = spec_register_stack(l, id, stack_base, stack_size);
    lemma_ledger_slot(l, id, 0);
    assert forall|i: int, j: int| 0 <= i < j < after.len() implies (#[trigger] after[i]).task_id < (
    #[trigger] after[j]).task_id by {
        if ledger_has(l, id) {
            assert(l[i].task_id < l[j].task_id);
        } else {
            let oi = if i < k {
                i
            } else {
                i - 1
            };
            let oj = if j < k {
                j
            } else {
                j - 1
            };
            if i != k && j != k {
                assert(l[oi].task_id < l[oj].task_id);
            } else if i == k {
                if k < l.len() {
                    assert(l[k].task_id > id);
                    if oj > k {
                        assert(l[k].task_id < l[oj].task_id);
                    }
                }
            } else {
                assert(l[oi].task_id < id);
            }
        }
    }
    lemma_slot_is(after, id, k);
}

/// In a sorted ledger, an entry of `id` sits at the slot of `id`.
pub proof fn lemma_slot_is(l: Seq<AllocationsView>, id: TaskId, k: int)
    requires
        ledger_sorted(l),
        0 <= k < l.len(),
        l[k].task_id == id,
    ensures
        ledger_slot(l, id, 0) == k,
        ledger_has(l, id),
{
    lemma_ledger_slot(l, id, 0);
    let s = ledger_slot(l, id, 0);
    if s < k {
        assert(l[s].task_id < l[k].task_id);
    }
}

/// A copy of a byte string.
pub fn copy_bytes(src: &Vec<u8>) -> (out: Vec<u8>)
    ensures
        out@ == src@,
{
    let mut out: Vec<u8> = Vec::new();
    let mut i: usize = 0;
    while i < src.len()
        invariant
            i <= src@.len(),
            out@ == src@.subrange(0, i as int),
        decreases src@.len() - i,
    {
        out.push(src[i]);
        i += 1;
        proof {
            assert(out@ =~= src@.subrange(0, i as int));
        }
    }
    proof {
        assert(src@.subrange(0, i as int) =~= src@);
    }
    out
}

/// A copy of a list of extents.
pub fn copy_extents(src: &Vec<(usize, usize)>) -> (out: Vec<(usize, usize)>)
    ensures
        out@ == src@,
{
    let mut out: Vec<(usize, usize)> = Vec::new();
    let mut i: usize = 0;
    while i < src.len()
        invariant
            i <= src@.len(),
            out@ == src@.subrange(0, i as int),
        decreases src@.len() - i,
    {
        out.push(src[i]);
        i += 1;
        proof {
            assert(out@ =~= src@.subrange(0, i as int));
        }
    }
    proof {
        assert(src@.subrange(0, i as int) =~= src@);
    }
    out
}

/// Whether the registry has been initialised.
pub fn is_initialized(registry: &ExecRegistry) -> (r: bool)
    ensures
        r == registry.initialized,
{
    registry.initialized
}

/// Initialises the loader: the program region becomes one free block and
/// `mem`, a snapshot of the memory between kernel start and heap start, is
/// scanned for the table. The result is the number of entries found; a
/// missing table is not an error and counts as zero entries.
pub fn init(registry: &mut ExecRegistry, programs: &mut ProgramAllocator, mem: &[u8]) -> (r: Result<
    usize,
    ExecError,
>)
    requires
        !old(registry).initialized,
        old(programs).region.granule == PAGE_SIZE,
        old(programs).region.min_block == PAGE_SIZE,
    ensures
        final(registry).initialized,
        final(registry).table_ok(mem@),
        final(registry).task_allocations == old(registry).task_allocations,
        match spec_find_table(mem@, 0) {
            Some(at) => final(registry).table == Some(at as usize) && r == Ok::<usize, ExecError>(
                spec_count(mem@, at) as usize,
            ),
            None => final(registry).table.is_none() && r == Ok::<usize, ExecError>(0),
        },
        final(programs).wf(),
        final(programs).allocated == 0,
        final(programs).blocks() == seq![
            Block {
                start: crate::program_alloc::PROGRAM_REGION_START,
                size: crate::program_alloc::PROGRAM_REGION_SIZE,
                free: true,
                owner: NO_OWNER,
            },
        ],
{
    programs.init();
    registry.initialized = true;
    let len: usize = mem.len();
    match find_table(mem) {
        Some(at) => {
            let count: usize = le32_at(mem, at + 8) as usize;
            registry.table = Some(at);
            registry.exec_count = count;
            Ok(count)
        },
        None => {
            registry.table = None;
            registry.exec_count = 0;
            Ok(0)
        },
    }
}

/// The names of all table entries, in table order. Empty before
/// initialisation and without a table.
pub fn list(registry: &ExecRegistry, mem: &[u8]) -> (names: Vec<Vec<u8>>)
    requires
        registry.table_ok(mem@),
    ensures
        !registry.initialized || registry.table.is_none() ==> names@.len() == 0,
        registry.initialized && registry.table.is_some() ==> {
            &&& names@.len() == registry.exec_count
            &&& forall|i: int|
                0 <= i < names@.len() ==> (#[trigger] names@[i])@ == spec_entry_name(
                    mem@,
                    registry.table.unwrap() as int,
                    i,
                )
        },
{
    let mut names: Vec<Vec<u8>> = Vec::new();
    if !registry.initialized {
        return names;
    }
    match registry.table {
        None => names,
        Some(at) => {
            let mut i: usize = 0;
            while i < registry.exec_count
                invariant
                    registry.table_ok(mem@),
                    registry.table == Some(at),
                    i <= registry.exec_count,
                    names@.len() == i,
                    forall|k: int|
                        0 <= k < i ==> (#[trigger] names@[k])@ == spec_entry_name(
                            mem@,
                            at as int,
                            k,
                        ),
                decreases registry.exec_count - i,
            {
                let name: Vec<u8> = entry_name(mem, at, i);
                names.push(name);
                i += 1;
            }
            names
        },
    }
}

/// Where the blob called `name` lies in `mem` and how long it is.
pub open spec fn spec_find_executable(
    mem: Seq<u8>,
    table: Option<usize>,
    count: int,
    name: Seq<u8>,
) -> Result<(int, int), ExecError> {
    match table {
        None => Err(ExecError::NoTableFound),
        Some(at) => {
            let i = spec_lookup(mem, at as int, count, name, 0);
            if i >= count {
                Err(ExecError::NotFound)
            } else if at + spec_entry_offset(mem, at as int, i) + spec_entry_size(mem, at as int, i)
                > mem.len() {
                Err(ExecError::InvalidTable)
            } else {
                Ok((at + spec_entry_offset(mem, at as int, i), spec_entry_size(mem, at as int, i)))
            }
        },
    }
}

/// Looks up the first entry called `name`. The result is the offset of
/// its blob in `mem` and the blob's size.
pub fn find_executable(registry: &ExecRegistry, mem: &[u8], name: &[u8]) -> (r: Result<
    (usize, usize),
    ExecError,
>)
    requires
        registry.table_ok(mem@),
    ensures
        match r {
            Ok((off, size)) => spec_find_executable(
                mem@,
                registry.table,
                registry.exec_count as int,
                name@,
            ) == Ok::<(int, int), ExecError>((off as int, size as int)) && off + size
                <= mem@.len(),
            Err(e) => spec_find_executable(
                mem@,
                registry.table,
                registry.exec_count as int,
                name@,
            ) == Err::<(int, int), ExecError>(e),
        },
{
    let at: usize = match registry.table {
        None => {
            return Err(ExecError::NoTableFound);
        },
        Some(at) => at,
    };
    let len: usize = mem.len();
    let count: usize = registry.exec_count;
    let mut i: usize = 0;
    while i < count
        invariant
            registry.table_ok(mem@),
            registry.table == Some(at),
            count == registry.exec_count,
            len == mem@.len(),
            i <= count,
            spec_lookup(mem@, at as int, count as int, name@, 0) == spec_lookup(
                mem@,
                at as int,
                count as int,
                name@,
                i as int,
            ),
        decreases count - i,
    {
        let candidate: Vec<u8> = entry_name(mem, at, i);
        if bytes_eq(candidate.as_slice(), name) {
            let entry: usize = at + TABLE_HEADER_SIZE + i * ENTRY_SIZE;
            let offset: usize = le32_at(mem, entry + 16) as usize;
            let size: usize = le32_at(mem, entry + 20) as usize;
            if offset > len - at || size > len - at - offset {
                return Err(ExecError::InvalidTable);
            }
            return Ok((at + offset, size));
        }
        i += 1;
    }
    Err(ExecError::NotFound)
}

/// The raw bytes of the blob called `name`.
pub fn read<'a>(registry: &ExecRegistry, mem: &'a [u8], name: &[u8]) -> (r: Result<
    &'a [u8],
    ExecError,
>)
    requires
        registry.table_ok(mem@),
    ensures
        !registry.initialized ==> r == Err::<&[u8], ExecError>(ExecError::NotInitialized),
        registry.initialized ==> match spec_find_executable(
            mem@,
            registry.table,
            registry.exec_count as int,
            name@,
        ) {
            Ok((off, size)) => r.is_ok() && r.unwrap()@ == mem@.subrange(off, off + size),
            Err(e) => r == Err::<&[u8], ExecError>(e),
        },
{
    if !registry.initialized {
        return Err(ExecError::NotInitialized);
    }
    let len: usize = mem.len();
    match find_executable(registry, mem, name) {
        Ok((off, size)) => Ok(slice_subrange(mem, off, off + size)),
        Err(e) => Err(e),
    }
}

/// What loading the program called `name` gives, and what it leaves of
/// the program region: on success the base address, allocated size,
/// entry point and memory image, with the image's span allocated; on any
/// failure the region as it was.
pub open spec fn spec_load(
    initialized: bool,
    table: Option<usize>,
    count: int,
    mem: Seq<u8>,
    name: Seq<u8>,
    blocks: Seq<Block>,
) -> (Result<(usize, usize, usize, Seq<u8>), ExecError>, Seq<Block>) {
    if !initialized {
        (Err(ExecError::NotInitialized), blocks)
    } else {
        match spec_find_executable(mem, table, count, name) {
            Err(e) => (Err(e), blocks),
            Ok((off, size)) => {
                let blob = mem.subrange(off, off + size);
                match spec_parse_error(blob) {
                    Some(e) => (Err(ExecError::ElfError(e)), blocks),
                    None => match spec_memory_requirements(spec_segments(blob)) {
                        Err(e) => (Err(ExecError::ElfError(e)), blocks),
                        Ok((lowest, total)) => match crate::program_alloc::spec_allocate_index(
                            blocks,
                            total,
                        ) {
                            None => (Err(ExecError::AllocationFailed), blocks),
                            Some(i) => match spec_load_elf(blob, blocks[i].start) {
                                Err(e) => (Err(ExecError::ElfError(e)), blocks),
                                Ok((entry, image)) => (
                                    Ok((blocks[i].start, total, entry, image)),
                                    spec_take(
                                        blocks,
                                        i,
                                        spec_page_round(total),
                                        PAGE_SIZE as int,
                                        NO_OWNER,
                                    ),
                                ),
                            },
                        },
                    },
                }
            },
        }
    }
}

/// Loads the program called `name`: its blob is validated as an ELF
/// image, the span of its loadable segments is allocated in the program
/// region, and the memory image is built. The result describes the
/// placement and carries the image that belongs at the base address. No
/// ledger entry is made, and a failed load leaves nothing allocated.
pub fn load(registry: &ExecRegistry, programs: &mut ProgramAllocator, mem: &[u8], name: &[u8]) -> (r:
    Result<(LoadedProgram, Vec<u8>), ExecError>)
    requires
        registry.table_ok(mem@),
        old(programs).wf(),
    ensures
        final(programs).wf(),
        final(programs).region.start == old(programs).region.start,
        final(programs).region.end == old(programs).region.end,
        final(programs).blocks() == spec_load(
            registry.initialized,
            registry.table,
            registry.exec_count as int,
            mem@,
            name@,
            old(programs).blocks(),
        ).1,
        match r {
            Ok((program, image)) => spec_load(
                registry.initialized,
                registry.table,
                registry.exec_count as int,
                mem@,
                name@,
                old(programs).blocks(),
            ).0 == Ok::<(usize, usize, usize, Seq<u8>), ExecError>(
                (program.base_addr, program.size, program.entry, image@),
            ) && program.name@ == name@,
            Err(e) => spec_load(
                registry.initialized,
                registry.table,
                registry.exec_count as int,
                mem@,
                name@,
                old(programs).blocks(),
            ).0 == Err::<(usize, usize, usize, Seq<u8>), ExecError>(e),
        },
{
    if !registry.initialized {
        return Err(ExecError::NotInitialized);
    }
    let (off, size) = match find_executable(registry, mem, name) {
        Ok(found) => found,
        Err(e) => {
            return Err(e);
        },
    };
    let len: usize = mem.len();
    let blob: &[u8] = slice_subrange(mem, off, off + size);
    let elf = match Elf::parse(blob) {
        Ok(elf) => elf,
        Err(e) => {
            return Err(ExecError::ElfError(e));
        },
    };
    let (_, mem_size) = match elf.memory_requirements() {
        Ok(req) => req,
        Err(e) => {
            return Err(ExecError::ElfError(e));
        },
    };
    let base_addr: usize = match programs.allocate(mem_size) {
        Some(base) => base,
        None => {
            return Err(ExecError::AllocationFailed);
        },
    };
    match load_parsed(&elf, base_addr) {
        Ok((entry, image)) => {
            let mut copy: Vec<u8> = Vec::new();
            crate::bytes::push_all(&mut copy, name);
            Ok((LoadedProgram { name: copy, base_addr, size: mem_size, entry }, image))
        },
        Err(e) => {
            proof {
                crate::program_alloc::lemma_allocate_deallocate_round_trip(
                    *old(programs),
                    mem_size,
                );
            }
            programs.deallocate(base_addr, mem_size);
            Err(ExecError::ElfError(e))
        },
    }
}

/// Records the stack of a new task: the task gets a fresh ledger entry,
/// which replaces any entry left under the same id.
pub fn register_task_stack(
    registry: &mut ExecRegistry,
    task_id: TaskId,
    stack_base: usize,
    stack_size: usize,
)
    requires
        old(registry).wf(),
    ensures
        final(registry).wf(),
        final(registry).ledger() == spec_register_stack(
            old(registry).ledger(),
            task_id,
            stack_base,
            stack_size,
        ),
        ledger_has(final(registry).ledger(), task_id),
        final(registry).initialized == old(registry).initialized,
        final(registry).table == old(registry).table,
        final(registry).exec_count == old(registry).exec_count,
{
    let k: usize = registry.find_slot(task_id);
    let fresh = TaskAllocations::new(task_id, stack_base, stack_size);
    proof {
        lemma_register_stack_sorted(registry.ledger(), task_id, stack_base, stack_size);
    }
    if k < registry.task_allocations.len() && registry.task_allocations[k].task_id == task_id {
        registry.task_allocations.set(k, fresh);
    } else {
        registry.task_allocations.insert(k, fresh);
    }
    proof {
        assert(registry.ledger() =~= spec_register_stack(
            old(registry).ledger(),
            task_id,
            stack_base,
            stack_size,
        ));
    }
}

/// Records the program image of a task that has a ledger entry; a task
/// without one is left out.
pub fn register_task_program(
    registry: &mut ExecRegistry,
    task_id: TaskId,
    base_addr: usize,
    size: usize,
    name: &[u8],
)
    requires
        old(registry).wf(),
    ensures
        final(registry).wf(),
        final(registry).ledger() == spec_register_program(
            old(registry).ledger(),
            task_id,
            base_addr,
            size,
            name@,
        ),
        final(registry).initialized == old(registry).initialized,
        final(registry).table == old(registry).table,
        final(registry).exec_count == old(registry).exec_count,
{
    let k: usize = registry.find_slot(task_id);
    if k < registry.task_allocations.len() && registry.task_allocations[k].task_id == task_id {
        let mut entry: TaskAllocations = registry.task_allocations.remove(k);
        let mut copy: Vec<u8> = Vec::new();
        crate::bytes::push_all(&mut copy, name);
        entry.program = Some((base_addr, size, copy));
        registry.task_allocations.insert(k, entry);
        proof {
            assert(registry.ledger() =~= spec_register_program(
                old(registry).ledger(),
                task_id,
                base_addr,
                size,
                name@,
            ));
            lemma_same_ids_sorted(old(registry).ledger(), registry.ledger());
        }
    }
}

/// A ledger with the same task ids in the same places is sorted too.
pub proof fn lemma_same_ids_sorted(before: Seq<AllocationsView>, after: Seq<AllocationsView>)
    requires
        ledger_sorted(before),
        before.len() == after.len(),
        forall|k: int| 0 <= k < before.len() ==> (#[trigger] before[k]).task_id == after[k].task_id,
    ensures
        ledger_sorted(after),
{
    assert forall|i: int, j: int| 0 <= i < j < after.len() implies (#[trigger] after[i]).task_id < (
    #[trigger] after[j]).task_id by {
        assert(before[i].task_id < before[j].task_id);
    }
}

/// Allocates program heap for a task: `size` bytes rounded up to whole
/// pages from the program region, recorded in the task's ledger entry if
/// it has one. A request for nothing is refused.
pub fn task_alloc(
    registry: &mut ExecRegistry,
    programs: &mut ProgramAllocator,
    task_id: TaskId,
    size: usize,
) -> (r: Option<usize>)
    requires
        old(registry).wf(),
        old(programs).wf(),
    ensures
        final(registry).wf(),
        final(programs).wf(),
        final(programs).region.start == old(programs).region.start,
        final(programs).region.end == old(programs).region.end,
        final(registry).initialized == old(registry).initialized,
        final(registry).table == old(registry).table,
        final(registry).exec_count == old(registry).exec_count,
        size == 0
            ==> r.is_none()
                && final(registry).ledger() == old(registry).ledger()
                && final(programs).blocks() == old(programs).blocks(),
        size > 0 ==> match crate::program_alloc::spec_allocate_index(old(programs).blocks(), size) {
            None => r.is_none()
                && final(registry).ledger() == old(registry).ledger()
                && final(programs).blocks() == old(programs).blocks(),
            Some(i) => {
                &&& r == Some(old(programs).blocks()[i].start)
                &&& final(programs).blocks() == spec_take(
                    old(programs).blocks(),
                    i,
                    spec_page_round(size),
                    PAGE_SIZE as int,
                    NO_OWNER,
                )
                &&& final(registry).ledger() == spec_push_heap(
                    old(registry).ledger(),
                    task_id,
                    r.unwrap(),
                    spec_page_round(size) as usize,
                )
                &&& r.unwrap() + spec_page_round(size) <= old(programs).region.end
            },
        },
{
    if size == 0 {
        return None;
    }
    let aligned: usize = match ProgramAllocator::align_up(size) {
        Some(a) => a,
        None => {
            return None;
        },
    };
    proof {
        crate::allocator::lemma_align_up(size as int, PAGE_SIZE as int);
        crate::allocator::lemma_align_up(aligned as int, PAGE_SIZE as int);
    }
    let addr: usize = match programs.allocate(aligned) {
        Some(a) => a,
        None => {
            return None;
        },
    };
    let k: usize = registry.find_slot(task_id);
    if k < registry.task_allocations.len() && registry.task_allocations[k].task_id == task_id {
        let mut entry: TaskAllocations = registry.task_allocations.remove(k);
        entry.heap_blocks.push((addr, aligned));
        registry.task_allocations.insert(k, entry);
        proof {
            assert(registry.ledger() =~= spec_push_heap(
                old(registry).ledger(),
                task_id,
                addr,
                aligned,
            ));
            lemma_same_ids_sorted(old(registry).ledger(), registry.ledger());
        }
    }
    Some(addr)
}

/// The ledger and program region after task `id` frees `ptr`, and whether
/// anything was freed. Only a heap block that the ledger lists for that
/// very task is freed; any other pointer changes nothing.
pub open spec fn spec_task_free(l: Seq<AllocationsView>, blocks: Seq<Block>, id: TaskId, ptr: usize) -> (
    bool,
    Seq<AllocationsView>,
    Seq<Block>,
) {
    let k = ledger_slot(l, id, 0);
    if !ledger_has(l, id) {
        (false, l, blocks)
    } else {
        let idx = heap_index(l[k].heap_blocks, ptr, 0);
        if idx >= l[k].heap_blocks.len() {
            (false, l, blocks)
        } else {
            (
                true,
                l.update(k, AllocationsView { heap_blocks: l[k].heap_blocks.remove(idx), ..l[k] }),
                spec_free_extent(blocks, l[k].heap_blocks[idx]),
            )
        }
    }
}

/// Frees program heap of a task. Only a pointer that the ledger lists for
/// this very task is freed; a pointer of another task or an unknown
/// pointer changes nothing. Returns whether a block was freed.
pub fn task_free(
    registry: &mut ExecRegistry,
    programs: &mut ProgramAllocator,
    task_id: TaskId,
    ptr: usize,
) -> (r: bool)
    requires
        old(registry).wf(),
        old(programs).wf(),
    ensures
        final(registry).wf(),
        final(programs).wf(),
        final(programs).region.start == old(programs).region.start,
        final(programs).region.end == old(programs).region.end,
        final(registry).initialized == old(registry).initialized,
        final(registry).table == old(registry).table,
        final(registry).exec_count == old(registry).exec_count,
        (r, final(registry).ledger(), final(programs).blocks()) == spec_task_free(
            old(registry).ledger(),
            old(programs).blocks(),
            task_id,
            ptr,
        ),
{
    let k: usize = registry.find_slot(task_id);
    if !(k < registry.task_allocations.len() && registry.task_allocations[k].task_id == task_id) {
        return false;
    }
    let n: usize = registry.task_allocations[k].heap_blocks.len();
    let idx: usize = find_heap_block(&registry.task_allocations[k].heap_blocks, ptr);
    if idx >= n {
        return false;
    }
    let mut entry: TaskAllocations = registry.task_allocations.remove(k);
    let (addr, size) = entry.heap_blocks.remove(idx);
    registry.task_allocations.insert(k, entry);
    proof {
        let l = old(registry).ledger();
        assert(registry.ledger() =~= l.update(
            k as int,
            AllocationsView { heap_blocks: l[k as int].heap_blocks.remove(idx as int), ..l[k as int] },
        ));
        lemma_same_ids_sorted(l, registry.ledger());
    }
    if programs.is_allocated(addr, size) {
        programs.deallocate(addr, size);
    }
    true
}

/// Index of the first heap block that starts at `ptr`, or the number of
/// blocks.
pub fn find_heap_block(blocks: &Vec<(usize, usize)>, ptr: usize) -> (idx: usize)
    ensures
        idx == heap_index(blocks@, ptr, 0),
        idx <= blocks@.len(),
{
    let n: usize = blocks.len();
    let mut idx: usize = 0;
    while idx < n
        invariant
            n == blocks@.len(),
            idx <= n,
            heap_index(blocks@, ptr, 0) == heap_index(blocks@, ptr, idx as int),
        decreases n - idx,
    {
        if blocks[idx].0 == ptr {
            return idx;
        }
        idx += 1;
    }
    idx
}

/// Releases one extent if it is exactly one live allocation.
pub fn free_extent(programs: &mut ProgramAllocator, addr: usize, size: usize)
    requires
        old(programs).wf(),
    ensures
        final(programs).wf(),
        final(programs).region.start == old(programs).region.start,
        final(programs).region.end == old(programs).region.end,
        final(programs).blocks() == spec_free_extent(old(programs).blocks(), (addr, size)),
{
    if programs.is_allocated(addr, size) {
        programs.deallocate(addr, size);
    }
}

/// Releases everything a finished task holds in the program region: its
/// heap blocks, then its program image, then its stack; and removes its
/// ledger entry. Nothing happens before initialisation or for a task
/// without an entry.
pub fn unload_task(registry: &mut ExecRegistry, programs: &mut ProgramAllocator, task_id: TaskId)
    requires
        old(registry).wf(),
        old(programs).wf(),
    ensures
        final(registry).wf(),
        final(programs).wf(),
        final(programs).region.start == old(programs).region.start,
        final(programs).region.end == old(programs).region.end,
        final(registry).initialized == old(registry).initialized,
        final(registry).table == old(registry).table,
        final(registry).exec_count == old(registry).exec_count,
        !old(registry).initialized || !ledger_has(old(registry).ledger(), task_id)
            ==> final(registry).ledger() == old(registry).ledger()
                && final(programs).blocks() == old(programs).blocks(),
        old(registry).initialized && ledger_has(old(registry).ledger(), task_id) ==> {
            let k = ledger_slot(old(registry).ledger(), task_id, 0);
            let extents = spec_task_extents(old(registry).ledger()[k]);
            &&& final(registry).ledger() == old(registry).ledger().remove(k)
            &&& final(programs).blocks() == spec_free_extents(
                old(programs).blocks(),
                extents,
                extents.len() as int,
            )
        },
{
    if !registry.initialized {
        return ;
    }
    let k: usize = registry.find_slot(task_id);
    if !(k < registry.task_allocations.len() && registry.task_allocations[k].task_id == task_id) {
        return ;
    }
    let entry: TaskAllocations = registry.task_allocations.remove(k);
    proof {
        let l = old(registry).ledger();
        assert(registry.ledger() =~= l.remove(k as int));
        assert forall|i: int, j: int| 0 <= i < j < registry.ledger().len() implies (
        #[trigger] registry.ledger()[i]).task_id < (#[trigger] registry.ledger()[j]).task_id by {
            let oi = if i < k {
                i
            } else {
                i + 1
            };
            let oj = if j < k {
                j
            } else {
                j + 1
            };
            assert(l[oi].task_id < l[oj].task_id);
        }
    }
    let mut extents: Vec<(usize, usize)> = copy_extents(&entry.heap_blocks);
    match &entry.program {
        Some((base, size, _)) => {
            extents.push((*base, *size));
        },
        None => {},
    }
    extents.push(entry.stack);
    proof {
        assert(extents@ =~= spec_task_extents(entry@));
    }
    let n: usize = extents.len();
    let mut i: usize = 0;
    while i < n
        invariant
            n == extents@.len(),
            i <= n,
            programs.wf(),
            programs.region.start == old(programs).region.start,
            programs.region.end == old(programs).region.end,
            programs.blocks() == spec_free_extents(old(programs).blocks(), extents@, i as int),
        decreases n - i,
    {
        let e: (usize, usize) = extents[i];
        free_extent(programs, e.0, e.1);
        i += 1;
    }
}

/// Allocated and free bytes of the program region.
pub fn memory_stats(programs: &ProgramAllocator) -> (r: (usize, usize))
    requires
        programs.wf(),
    ensures
        r.0 == programs.allocated,
        r.1 == crate::region::free_bytes(programs.blocks()),
{
    programs.stats()
}

/// A snapshot of every task's ledger entry, in ascending task-id order.
/// Empty before initialisation.
pub fn get_all_task_memory(registry: &ExecRegistry) -> (out: Vec<TaskMemoryInfo>)
    ensures
        out@.map_values(|t: TaskMemoryInfo| t@) == (if registry.initialized {
            registry.ledger()
        } else {
            Seq::empty()
        }),
{
    let mut out: Vec<TaskMemoryInfo> = Vec::new();
    if !registry.initialized {
        proof {
            assert(out@.map_values(|t: TaskMemoryInfo| t@) =~= Seq::<AllocationsView>::empty());
        }
        return out;
    }
    let n: usize = registry.task_allocations.len();
    let mut i: usize = 0;
    while i < n
        invariant
            n == registry.task_allocations@.len(),
            i <= n,
            out@.len() == i,
            forall|k: int| 0 <= k < i ==> (#[trigger] out@[k])@ == registry.task_allocations@[k]@,
        decreases n - i,
    {
        let t: &TaskAllocations = &registry.task_allocations[i];
        let program: Option<(usize, usize, Vec<u8>)> = match &t.program {
            Some((base, size, name)) => Some((*base, *size, copy_bytes(name))),
            None => None,
        };
        out.push(
            TaskMemoryInfo {
                task_id: t.task_id,
                stack: t.stack,
                program,
                heap_blocks: copy_extents(&t.heap_blocks),
            },
        );
        i += 1;
    }
    proof {
        assert(out@.map_values(|t: TaskMemoryInfo| t@) =~= registry.ledger());
    }
    out
}

/// Whether `addr` lies in the extent `(base, size)`.
pub fn extent_holds(base: usize, size: usize, addr: usize) -> (r: bool)
    ensures
        r == in_extent((base, size), addr),
{
    base <= addr && addr - base < size
}

/// The loaded program whose image contains `addr`, as (start, end, name);
/// of several, the one of the task with the lowest id.
pub fn find_program_by_addr(registry: &ExecRegistry, addr: usize) -> (r: Option<
    (usize, usize, Vec<u8>),
>)
    ensures
        !registry.initialized ==> r.is_none(),
        registry.initialized ==> ({
            let k = program_index(registry.ledger(), addr, 0);
            if k < registry.ledger().len() {
                let p = registry.ledger()[k].program.unwrap();
                r.is_some() && r.unwrap().0 == p.0 && r.unwrap().1 == spec_extent_end(p.0, p.1)
                    && r.unwrap().2@ == p.2
            } else {
                r.is_none()
            }
        }),
{
    if !registry.initialized {
        return None;
    }
    let n: usize = registry.task_allocations.len();
    let mut i: usize = 0;
    while i < n
        invariant
            n == registry.task_allocations@.len(),
            n == registry.ledger().len(),
            registry.initialized,
            i <= n,
            program_index(registry.ledger(), addr, 0) == program_index(
                registry.ledger(),
                addr,
                i as int,
            ),
        decreases n - i,
    {
        match &registry.task_allocations[i].program {
            Some((base, size, name)) => {
                if extent_holds(*base, *size, addr) {
                    return Some((*base, base.saturating_add(*size), copy_bytes(name)));
                }
            },
            None => {},
        }
        i += 1;
    }
    None
}

/// One past the last address of an extent, pinned at the largest address.
pub open spec fn spec_extent_end(base: usize, size: usize) -> usize {
    if base + size > usize::MAX {
        usize::MAX
    } else {
        (base + size) as usize
    }
}

/// The task that holds `addr` in the program region, through its stack,
/// its program image or one of its heap blocks; of several, the one with
/// the lowest id.
pub fn find_task_by_program_addr(registry: &ExecRegistry, addr: usize) -> (r: Option<TaskId>)
    ensures
        !registry.initialized ==> r.is_none(),
        registry.initialized ==> ({
            let k = owner_index(registry.ledger(), addr, 0);
            if k < registry.ledger().len() {
                r == Some(registry.ledger()[k].task_id)
            } else {
                r.is_none()
            }
        }),
{
    if !registry.initialized {
        return None;
    }
    let n: usize = registry.task_allocations.len();
    let mut i: usize = 0;
    while i < n
        invariant
            n == registry.task_allocations@.len(),
            n == registry.ledger().len(),
            registry.initialized,
            i <= n,
            owner_index(registry.ledger(), addr, 0) == owner_index(
                registry.ledger(),
                addr,
                i as int,
            ),
        decreases n - i,
    {
        let t: &TaskAllocations = &registry.task_allocations[i];
        if task_holds(t, addr) {
            return Some(t.task_id);
        }
        i += 1;
    }
    None
}

/// Whether a ledger entry holds `addr`.
#[verifier::loop_isolation(false)]
pub fn task_holds(t: &TaskAllocations, addr: usize) -> (r: bool)
    ensures
        r == owns_addr(t@, addr),
{
    if extent_holds(t.stack.0, t.stack.1, addr) {
        return true;
    }
    match &t.program {
        Some((base, size, _)) => {
            if extent_holds(*base, *size, addr) {
                return true;
            }
        },
        None => {},
    }
    let n: usize = t.heap_blocks.len();
    let mut k: usize = 0;
    while k < n
        invariant
            n == t.heap_blocks@.len(),
            k <= n,
            forall|j: int| 0 <= j < k ==> !in_extent(#[trigger] t.heap_blocks@[j], addr),
        decreases n - k,
    {
        let b: (usize, usize) = t.heap_blocks[k];
        if extent_holds(b.0, b.1, addr) {
            assert(in_extent(t@.heap_blocks[k as int], addr));
            return true;
        }
        k += 1;
    }
    false
}

/// Where to move the table before the kernel clears its zero-initialised
/// data: `len` bytes from `source` to `dest`.
#[derive(Debug, Clone, Copy, PartialEq, Eq, Structural)]
pub struct Relocation {
    /// Address of the table as the boot loader left it.
    pub source: usize,
    /// Address to copy it to.
    pub dest: usize,
    /// Bytes to copy: the table block and all blobs.
    pub len: usize,
}

/// `size` rounded up to a multiple of the table block size.
pub open spec fn spec_round_block(size: int) -> int {
    ((size + TABLE_BLOCK_SIZE - 1) / (TABLE_BLOCK_SIZE as int)) * TABLE_BLOCK_SIZE
}

/// Whether entry `i` names a blob behind the table block.
pub open spec fn spec_blob_ok(mem: Seq<u8>, at: int, i: int) -> bool {
    spec_entry_offset(mem, at, i) >= TABLE_BLOCK_SIZE && spec_entry_size(mem, at, i) != 0
}

/// Whether each of the first `n` entries names a blob behind the table
/// block.
pub open spec fn spec_blobs_ok(mem: Seq<u8>, at: int, n: int) -> bool {
    forall|i: int| 0 <= i < n ==> #[trigger] spec_blob_ok(mem, at, i)
}

/// Bytes from the table start to the end of the last of the first `n`
/// blobs, each blob counted in whole blocks; at least the table block.
pub open spec fn spec_extent(mem: Seq<u8>, at: int, n: int) -> int
    decreases n,
{
    if n <= 0 {
        TABLE_BLOCK_SIZE as int
    } else {
        let before = spec_extent(mem, at, n - 1);
        let end = spec_entry_offset(mem, at, n - 1) + spec_round_block(
            spec_entry_size(mem, at, n - 1),
        );
        if end > before {
            end
        } else {
            before
        }
    }
}

/// Whether a table that can be moved starts at `at`: magic, version 1, at
/// most 15 entries that lie inside `mem`, every blob behind the table
/// block and not empty.
pub open spec fn spec_is_movable(mem: Seq<u8>, at: int) -> bool {
    &&& 0 <= at
    &&& at + TABLE_HEADER_SIZE <= mem.len()
    &&& spec_has_magic(mem, at)
    &&& spec_le32_at(mem, at + 4) == 1
    &&& spec_count(mem, at) <= MAX_EXECUTABLES
    &&& spec_entry_at(at, spec_count(mem, at)) <= mem.len()
    &&& spec_blobs_ok(mem, at, spec_count(mem, at))
}

/// The first table that can be moved at a 4-byte step at or after `from`.
pub open spec fn spec_find_movable(mem: Seq<u8>, from: int) -> Option<int>
    decreases mem.len() - from,
{
    if from < 0 || from + TABLE_HEADER_SIZE > mem.len() {
        None
    } else if spec_is_movable(mem, from) {
        Some(from)
    } else {
        spec_find_movable(mem, from + 4)
    }
}

/// The relocation of the table in `mem`, which holds the memory from
/// address `base` up to the heap, given where the kernel's
/// zero-initialised data ends: the first movable table goes to the first
/// block boundary at or behind that end, if it fits in front of the heap.
pub open spec fn spec_relocation(mem: Seq<u8>, base: usize, bss_end: usize) -> Option<Relocation> {
    let dest = spec_round_block(bss_end as int);
    let heap_start = base + mem.len();
    if dest >= heap_start {
        None
    } else {
        match spec_find_movable(mem, 0) {
            None => None,
            Some(at) => {
                let len = spec_extent(mem, at, spec_count(mem, at));
                if dest + len > heap_start {
                    None
                } else {
                    Some(Relocation { source: (base + at) as usize, dest: dest as usize, len: len as usize })
                }
            },
        }
    }
}

/// `size` rounded up to a multiple of the table block size.
fn round_block(size: u64) -> (r: u64)
    requires
        size <= 0xFFFF_FFFF_FFFF,
    ensures
        r == spec_round_block(size as int),
        r >= size,
        r <= size + TABLE_BLOCK_SIZE,
{
    proof {
        crate::allocator::lemma_align_up(size as int, TABLE_BLOCK_SIZE as int);
    }
    ((size + 511) / 512) * 512
}

/// The extent of a movable table at `at`, or `None` if the table there
/// cannot be moved.
fn movable_extent(mem: &[u8], at: usize) -> (r: Option<u64>)
    ensures
        match r {
            Some(len) => spec_is_movable(mem@, at as int) && len == spec_extent(
                mem@,
                at as int,
                spec_count(mem@, at as int),
            ) && len <= 0x2_0000_0400,
            None => !spec_is_movable(mem@, at as int),
        },
{
    let len: usize = mem.len();
    if len < TABLE_HEADER_SIZE || at > len - TABLE_HEADER_SIZE {
        return None;
    }
    if !(mem[at] == 0x52 && mem[at + 1] == 0x45 && mem[at + 2] == 0x58 && mem[at + 3] == 0x45) {
        return None;
    }
    if le32_at(mem, at + 4) != 1 {
        return None;
    }
    let count: u32 = le32_at(mem, at + 8);
    if count as usize > MAX_EXECUTABLES {
        return None;
    }
    let count: usize = count as usize;
    if count * ENTRY_SIZE > len - TABLE_HEADER_SIZE - at {
        return None;
    }
    let mut total: u64 = TABLE_BLOCK_SIZE as u64;
    let mut i: usize = 0;
    while i < count
        invariant
            len == mem@.len(),
            at + TABLE_HEADER_SIZE + count * ENTRY_SIZE <= len,
            count <= MAX_EXECUTABLES,
            count == spec_count(mem@, at as int),
            i <= count,
            spec_blobs_ok(mem@, at as int, i as int),
            total == spec_extent(mem@, at as int, i as int),
            total <= 0x2_0000_0400,
        decreases count - i,
    {
        let entry: usize = at + TABLE_HEADER_SIZE + i * ENTRY_SIZE;
        let offset: u32 = le32_at(mem, entry + 16);
        let size: u32 = le32_at(mem, entry + 20);
        proof {
            assert(entry == spec_entry_at(at as int, i as int));
            assert(offset == spec_entry_offset(mem@, at as int, i as int));
            assert(size == spec_entry_size(mem@, at as int, i as int));
        }
        if (offset as usize) < TABLE_BLOCK_SIZE || size == 0 {
            proof {
                assert(!spec_blob_ok(mem@, at as int, i as int));
            }
            return None;
        }
        proof {
            assert(spec_blob_ok(mem@, at as int, i as int));
        }
        let end: u64 = offset as u64 + round_block(size as u64);
        if end > total {
            total = end;
        }
        i += 1;
    }
    Some(total)
}

/// Plans the relocation of the table.
///
/// The boot loader puts the table behind the kernel image, where the
/// kernel's zero-initialised data may overlap it. Before that data is
/// cleared, the table and its blobs are copied to the gap between the end
/// of that data and the heap, and the magic at the old place is wiped so
/// that only the copy is found later. This function finds the table in
/// `mem`, the memory from `base` up to the heap, and says what to copy
/// where; `None` if there is nothing to move or no room for it.
pub fn relocate_exec_table(mem: &[u8], base: usize, bss_end: usize) -> (r: Option<Relocation>)
    requires
        base + mem@.len() <= usize::MAX,
    ensures
        r == spec_relocation(mem@, base, bss_end),
{
    let len: usize = mem.len();
    let heap_start: usize = base + len;
    proof {
        crate::allocator::lemma_align_up(bss_end as int, TABLE_BLOCK_SIZE as int);
    }
    let rem: usize = bss_end % TABLE_BLOCK_SIZE;
    let pad: usize = if rem == 0 {
        0
    } else {
        TABLE_BLOCK_SIZE - rem
    };
    if bss_end > usize::MAX - pad {
        return None;
    }
    let dest: usize = bss_end + pad;
    if dest >= heap_start {
        return None;
    }
    if len < TABLE_HEADER_SIZE {
        return None;
    }
    let mut at: usize = 0;
    while at <= len - TABLE_HEADER_SIZE
        invariant
            len == mem@.len(),
            len >= TABLE_HEADER_SIZE,
            heap_start == base + len,
            dest == spec_round_block(bss_end as int),
            dest < heap_start,
            spec_find_movable(mem@, 0) == spec_find_movable(mem@, at as int),
        decreases len - at,
    {
        match movable_extent(mem, at) {
            Some(total) => {
                if total > (heap_start - dest) as u64 {
                    return None;
                }
                return Some(Relocation { source: base + at, dest, len: total as usize });
            },
            None => {},
        }
        at += 4;
    }
    None
}

/// Index of the first dot at or after `from`, or the length of `name`.
pub open spec fn dot_index(name: Seq<u8>, from: int) -> int
    decreases name.len() - from,
{
    if from >= name.len() {
        name.len() as int
    } else if name[from] == 0x2E {
        from
    } else {
        dot_index(name, from + 1)
    }
}

/// The table name of a source file that the interpreter is asked to load:
/// a name without an extension gets ".bas".
pub open spec fn spec_source_name(name: Seq<u8>) -> Seq<u8> {
    if dot_index(name, 0) < name.len() {
        name
    } else {
        name + seq![0x2Eu8, 0x62u8, 0x61u8, 0x73u8]
    }
}

/// The table name of a source file that the interpreter is asked to load.
pub fn source_name(name: &[u8]) -> (out: Vec<u8>)
    ensures
        out@ == spec_source_name(name@),
{
    let mut out: Vec<u8> = Vec::new();
    crate::bytes::push_all(&mut out, name);
    let n: usize = name.len();
    let mut i: usize = 0;
    while i < n
        invariant
            n == name@.len(),
            i <= n,
            out@ == name@,
            dot_index(name@, 0) == dot_index(name@, i as int),
        decreases n - i,
    {
        if name[i] == 0x2E {
            return out;
        }
        i += 1;
    }
    out.push(0x2E);
    out.push(0x62);
    out.push(0x61);
    out.push(0x73);
    proof {
        assert(out@ =~= name@ + seq![0x2Eu8, 0x62u8, 0x61u8, 0x73u8]);
    }
    out
}

} // verus!
