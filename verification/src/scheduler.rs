//! Cooperative round-robin scheduling.
//!
//! The scheduler decides; the caller switches. Every entry point returns a
//! `Dispatch` that says which context to save the outgoing registers into
//! and which task to resume, or that there is nothing to run.

use vstd::prelude::*;
use crate::executable::{
    ledger_has, ledger_slot, register_task_stack, spec_free_extents, spec_register_stack,
    spec_task_extents, unload_task, ExecRegistry,
};
use crate::program_alloc::{spec_page_round, ProgramAllocator, PAGE_SIZE};
use crate::region::{spec_take, NO_OWNER};
use crate::task::{spec_new_task, Context, Task, TaskId, TaskState, STACK_SIZE};
use crate::timer::ms_to_ticks;

verus! {

/// What the caller must do after a scheduling decision.
#[derive(Debug, Clone, Copy, PartialEq, Eq, Structural)]
pub enum Dispatch {
    /// Save the outgoing registers into the context of task `from` (into
    /// the idle context if there is none) and resume task `to`.
    Switch { from: Option<usize>, to: usize },
    /// No task is ready but some task still exists: poll the timer and ask
    /// again.
    Wait,
    /// No task is left: return to the caller, which halts.
    Halt,
}

/// The scheduler: the task vector and the index of the running task.
pub struct Scheduler {
    /// All tasks, in spawn order.
    pub tasks: Vec<Task>,
    /// Index of the task that runs, or ran last.
    pub current: usize,
    /// Next task id to hand out.
    pub next_id: TaskId,
    /// Context of the boot thread that started the first task.
    pub idle_context: Context,
}

/// A task as it is after the wake-up pass at tick `now`.
pub open spec fn woken_task(t: Task, now: u64) -> Task {
    if t.state == TaskState::Sleeping && now >= t.wake_at {
        Task { state: TaskState::Ready, ..t }
    } else {
        t
    }
}

/// The task vector after the wake-up pass: every sleeper whose wake-up
/// tick has come is ready.
pub open spec fn woken(tasks: Seq<Task>, now: u64) -> Seq<Task> {
    Seq::new(tasks.len(), |i: int| woken_task(tasks[i], now))
}

/// The unfinished tasks among the first `n`, in order.
pub open spec fn living(tasks: Seq<Task>, n: int) -> Seq<Task>
    decreases n,
{
    if n <= 0 {
        Seq::empty()
    } else if tasks[n - 1].state == TaskState::Finished {
        living(tasks, n - 1)
    } else {
        living(tasks, n - 1).push(tasks[n - 1])
    }
}

/// The task vector with every finished task removed.
pub open spec fn reaped(tasks: Seq<Task>) -> Seq<Task> {
    living(tasks, tasks.len() as int)
}

/// The current index after finished tasks are removed: it moves down by
/// the number of removed tasks in front of it, and to the front if it
/// would fall off the end.
pub open spec fn reaped_current(tasks: Seq<Task>, current: int) -> int {
    let c = living(tasks, current).len() as int;
    if c >= reaped(tasks).len() {
        0
    } else {
        c
    }
}

/// Index of the first ready task met when going round from the task
/// after `current`, with `current` itself tried last; `steps` counts the
/// tasks already passed over.
pub open spec fn next_ready(tasks: Seq<Task>, current: int, steps: int) -> Option<int>
    decreases tasks.len() - steps,
{
    if steps >= tasks.len() || tasks.len() == 0 {
        None
    } else {
        let idx = (current + 1 + steps) % (tasks.len() as int);
        if tasks[idx].state == TaskState::Ready {
            Some(idx)
        } else {
            next_ready(tasks, current, steps + 1)
        }
    }
}

/// The task vector and current index after one scheduling pass at tick
/// `now`, with the decision taken.
pub open spec fn spec_schedule(tasks: Seq<Task>, current: int, now: u64) -> (
    Seq<Task>,
    int,
    Dispatch,
) {
    let awake = woken(tasks, now);
    let rest = reaped(awake);
    let cur = reaped_current(awake, current);
    let outgoing_gone = current >= tasks.len() || awake[current].state == TaskState::Finished;
    match next_ready(rest, cur, 0) {
        Some(idx) => (
            rest.update(idx, Task { state: TaskState::Running, ..rest[idx] }),
            idx,
            Dispatch::Switch {
                from: if outgoing_gone {
                    None
                } else {
                    Some(cur as usize)
                },
                to: idx as usize,
            },
        ),
        None => (
            rest,
            cur,
            if rest.len() == 0 {
                Dispatch::Halt
            } else {
                Dispatch::Wait
            },
        ),
    }
}

/// The task vector with the state of task `current` replaced, if there is
/// such a task.
pub open spec fn with_state(tasks: Seq<Task>, current: int, state: TaskState) -> Seq<Task> {
    if 0 <= current < tasks.len() {
        tasks.update(current, Task { state, ..tasks[current] })
    } else {
        tasks
    }
}

/// The effect of the running task yielding at tick `now`.
pub open spec fn spec_yield(tasks: Seq<Task>, current: int, now: u64) -> (Seq<Task>, int, Dispatch) {
    spec_schedule(with_state(tasks, current, TaskState::Ready), current, now)
}

/// The tick at which a sleep of `ticks` ticks started at `now` ends; a
/// sleep that would end beyond the last tick never ends.
pub open spec fn spec_wake_at(now: u64, ticks: u64) -> u64 {
    if now + ticks > u64::MAX {
        u64::MAX
    } else {
        (now + ticks) as u64
    }
}

/// The task vector with task `current` put to sleep until `wake_at`.
pub open spec fn with_sleep(tasks: Seq<Task>, current: int, wake_at: u64) -> Seq<Task> {
    if 0 <= current < tasks.len() {
        tasks.update(current, Task { state: TaskState::Sleeping, wake_at, ..tasks[current] })
    } else {
        tasks
    }
}

impl Scheduler {
    /// The current index names a task whenever there is one.
    pub open spec fn wf(&self) -> bool {
        if self.tasks@.len() == 0 {
            self.current == 0
        } else {
            self.current < self.tasks@.len()
        }
    }

    /// A scheduler without tasks.
    pub fn new() -> (s: Scheduler)
        ensures
            s.wf(),
            s.tasks@.len() == 0,
            s.current == 0,
            s.next_id == 0,
            s.idle_context == (Context { r15: 0, r14: 0, r13: 0, r12: 0, rbx: 0, rbp: 0, rsp: 0 }),
    {
        Scheduler { tasks: Vec::new(), current: 0, next_id: 0, idle_context: Context::default() }
    }

    /// Appends a ready task that owns the stack at `stack_base` and starts
    /// at `entry`. The result is its id; `None` when the ids are used up.
    pub fn spawn(&mut self, name: &'static str, entry: u64, stack_base: usize) -> (r: Option<
        TaskId,
    >)
        requires
            old(self).wf(),
            stack_base + STACK_SIZE <= usize::MAX,
        ensures
            final(self).wf(),
            final(self).current == old(self).current,
            final(self).idle_context == old(self).idle_context,
            match r {
                None => old(self).next_id == u32::MAX && final(self).tasks@ == old(self).tasks@
                    && final(self).next_id == old(self).next_id,
                Some(id) => {
                    &&& id == old(self).next_id
                    &&& id < u32::MAX
                    &&& final(self).next_id == id + 1
                    &&& final(self).tasks@ == old(self).tasks@.push(
                        spec_new_task(id, name, entry, 0, stack_base),
                    )
                },
            },
    {
        self.spawn_with_arg(name, entry, 0, stack_base)
    }

    /// Appends a ready task that owns the stack at `stack_base` and starts
    /// at `entry` with the argument `arg`. The result is its id; `None`
    /// when the ids are used up.
    pub fn spawn_with_arg(&mut self, name: &'static str, entry: u64, arg: u64, stack_base: usize) -> (r:
        Option<TaskId>)
        requires
            old(self).wf(),
            stack_base + STACK_SIZE <= usize::MAX,
        ensures
            final(self).wf(),
            final(self).current == old(self).current,
            final(self).idle_context == old(self).idle_context,
            match r {
                None => old(self).next_id == u32::MAX && final(self).tasks@ == old(self).tasks@
                    && final(self).next_id == old(self).next_id,
                Some(id) => {
                    &&& id == old(self).next_id
                    &&& id < u32::MAX
                    &&& final(self).next_id == id + 1
                    &&& final(self).tasks@ == old(self).tasks@.push(
                        spec_new_task(id, name, entry, arg, stack_base),
                    )
                },
            },
    {
        if self.next_id == u32::MAX {
            return None;
        }
        let id: TaskId = self.next_id;
        self.next_id = id + 1;
        let task = Task::with_arg(id, name, entry, arg, stack_base);
        self.tasks.push(task);
        Some(id)
    }

    /// Wake-up pass: every sleeping task whose wake-up tick is at or
    /// before `now` becomes ready.
    pub fn wake_sleeping_tasks(&mut self, now: u64)
        ensures
            final(self).tasks@ == woken(old(self).tasks@, now),
            final(self).current == old(self).current,
            final(self).next_id == old(self).next_id,
            final(self).idle_context == old(self).idle_context,
    {
        let n: usize = self.tasks.len();
        let mut i: usize = 0;
        while i < n
            invariant
                n == old(self).tasks@.len(),
                self.tasks@.len() == n,
                i <= n,
                self.current == old(self).current,
                self.next_id == old(self).next_id,
                self.idle_context == old(self).idle_context,
                forall|k: int| 0 <= k < i
                    ==> self.tasks@[k] == woken_task(old(self).tasks@[k], now),
                forall|k: int| i <= k < n ==> self.tasks@[k] == old(self).tasks@[k],
            decreases n - i,
        {
            let t: Task = self.tasks[i];
            if t.state == TaskState::Sleeping && now >= t.wake_at {
                self.tasks.set(i, Task { state: TaskState::Ready, ..t });
            }
            i += 1;
        }
        proof {
            assert(self.tasks@ =~= woken(old(self).tasks@, now));
        }
    }

    /// The first ready task in round-robin order, starting with the task
    /// after the current one.
    pub fn find_next_ready(&self) -> (r: Option<usize>)
        requires
            self.wf(),
        ensures
            match r {
                Some(idx) => next_ready(self.tasks@, self.current as int, 0) == Some(idx as int)
                    && idx < self.tasks@.len() && self.tasks@[idx as int].state
                    == TaskState::Ready,
                None => next_ready(self.tasks@, self.current as int, 0).is_none(),
            },
    {
        let len: usize = self.tasks.len();
        if len == 0 {
            return None;
        }
        let mut steps: usize = 0;
        while steps < len
            invariant
                len == self.tasks@.len(),
                len > 0,
                steps <= len,
                self.current < len,
                next_ready(self.tasks@, self.current as int, 0) == next_ready(
                    self.tasks@,
                    self.current as int,
                    steps as int,
                ),
            decreases len - steps,
        {
            // (current + 1 + steps) mod len, without leaving the index type
            let ahead: usize = len - 1 - self.current;
            let idx: usize = if steps < ahead {
                self.current + 1 + steps
            } else if steps - ahead < len {
                steps - ahead
            } else {
                0
            };
            proof {
                lemma_round_index(self.current as int, steps as int, len as int);
            }
            if self.tasks[idx].state == TaskState::Ready {
                return Some(idx);
            }
            steps += 1;
        }
        None
    }

    /// Whether any task is sleeping.
    pub fn has_sleeping_tasks(&self) -> (r: bool)
        ensures
            r == exists|k: int|
                0 <= k < self.tasks@.len() && (#[trigger] self.tasks@[k]).state
                    == TaskState::Sleeping,
    {
        let n: usize = self.tasks.len();
        let mut i: usize = 0;
        while i < n
            invariant
                n == self.tasks@.len(),
                i <= n,
                forall|k: int| 0 <= k < i
                    ==> (#[trigger] self.tasks@[k]).state != TaskState::Sleeping,
            decreases n - i,
        {
            if self.tasks[i].state == TaskState::Sleeping {
                return true;
            }
            i += 1;
        }
        false
    }

    /// Whether any task is unfinished.
    pub fn has_living_tasks(&self) -> (r: bool)
        ensures
            r == exists|k: int|
                0 <= k < self.tasks@.len() && (#[trigger] self.tasks@[k]).state
                    != TaskState::Finished,
    {
        let n: usize = self.tasks.len();
        let mut i: usize = 0;
        while i < n
            invariant
                n == self.tasks@.len(),
                i <= n,
                forall|k: int| 0 <= k < i
                    ==> (#[trigger] self.tasks@[k]).state == TaskState::Finished,
            decreases n - i,
        {
            if self.tasks[i].state != TaskState::Finished {
                return true;
            }
            i += 1;
        }
        false
    }

    /// Removes every finished task, keeping the order of the others, and
    /// moves the current index along with the task it named.
    pub fn reap_finished_tasks(&mut self)
        requires
            old(self).wf(),
        ensures
            final(self).wf(),
            final(self).tasks@ == reaped(old(self).tasks@),
            final(self).current == reaped_current(old(self).tasks@, old(self).current as int),
            final(self).next_id == old(self).next_id,
            final(self).idle_context == old(self).idle_context,
    {
        let n: usize = self.tasks.len();
        let mut kept: Vec<Task> = Vec::new();
        let mut before: usize = 0;
        let mut i: usize = 0;
        while i < n
            invariant
                n == self.tasks@.len(),
                i <= n,
                self.tasks@ == old(self).tasks@,
                self.current == old(self).current,
                kept@ == living(self.tasks@, i as int),
                kept@.len() <= i,
                before == living(self.tasks@, if i <= self.current {
                    i as int
                } else {
                    self.current as int
                }).len(),
            decreases n - i,
        {
            let t: Task = self.tasks[i];
            if t.state != TaskState::Finished {
                kept.push(t);
                if i < self.current {
                    before = before + 1;
                }
            }
            i += 1;
        }
        self.tasks = kept;
        if before >= self.tasks.len() {
            self.current = 0;
        } else {
            self.current = before;
        }
    }

    /// One scheduling pass at tick `now`: wake, reap, pick the next ready
    /// task in round-robin order and mark it running.
    pub fn schedule(&mut self, now: u64) -> (d: Dispatch)
        requires
            old(self).wf(),
        ensures
            final(self).wf(),
            (final(self).tasks@, final(self).current as int, d) == spec_schedule(
                old(self).tasks@,
                old(self).current as int,
                now,
            ),
            final(self).next_id == old(self).next_id,
            final(self).idle_context == old(self).idle_context,
    {
        self.wake_sleeping_tasks(now);
        let outgoing_gone: bool = self.current >= self.tasks.len()
            || self.tasks[self.current].state == TaskState::Finished;
        self.reap_finished_tasks();
        match self.find_next_ready() {
            Some(idx) => {
                let from: Option<usize> = if outgoing_gone {
                    None
                } else {
                    Some(self.current)
                };
                let t: Task = self.tasks[idx];
                self.tasks.set(idx, Task { state: TaskState::Running, ..t });
                self.current = idx;
                Dispatch::Switch { from, to: idx }
            },
            None => {
                if self.tasks.len() == 0 {
                    Dispatch::Halt
                } else {
                    Dispatch::Wait
                }
            },
        }
    }

    /// Starts the first task from the boot thread: it becomes the running
    /// task and the outgoing registers go to the idle context. `Halt` if
    /// there is no task.
    pub fn run(&mut self) -> (d: Dispatch)
        ensures
            final(self).wf(),
            final(self).next_id == old(self).next_id,
            final(self).idle_context == old(self).idle_context,
            old(self).tasks@.len() == 0
                ==> d == Dispatch::Halt
                    && final(self).tasks@ == old(self).tasks@
                    && final(self).current == 0,
            old(self).tasks@.len() > 0
                ==> d == (Dispatch::Switch { from: None, to: 0 })
                    && final(self).current == 0
                    && final(self).tasks@ == with_state(
                old(self).tasks@,
                0,
                TaskState::Running,
            ),
    {
        self.current = 0;
        if self.tasks.len() == 0 {
            return Dispatch::Halt;
        }
        let t: Task = self.tasks[0];
        self.tasks.set(0, Task { state: TaskState::Running, ..t });
        Dispatch::Switch { from: None, to: 0 }
    }
}

/// Going round from the task after `current`, the task met after `steps`
/// steps is the one the executable index arithmetic computes.
proof fn lemma_round_index(current: int, steps: int, len: int)
    requires
        0 <= current < len,
        0 <= steps < len,
    ensures
        (current + 1 + steps) % len == (if steps < len - 1 - current {
            current + 1 + steps
        } else {
            steps - (len - 1 - current)
        }),
        0 <= (current + 1 + steps) % len < len,
{
    if steps < len - 1 - current {
        vstd::arithmetic::div_mod::lemma_small_mod((current + 1 + steps) as nat, len as nat);
    } else {
        let r = steps - (len - 1 - current);
        assert(current + 1 + steps == len * 1 + r) by (nonlinear_arith)
            requires
                r == steps - (len - 1 - current),
        ;
        vstd::arithmetic::div_mod::lemma_fundamental_div_mod_converse(
            current + 1 + steps,
            len,
            1,
            r,
        );
    }
}

/// A scheduler without tasks.
pub fn init() -> (s: Scheduler)
    ensures
        s.wf(),
        s.tasks@.len() == 0,
        s.current == 0,
        s.next_id == 0,
        s.idle_context == (Context { r15: 0, r14: 0, r13: 0, r12: 0, rbx: 0, rbp: 0, rsp: 0 }),
{
    Scheduler::new()
}

/// Spawns a task: a stack is allocated from the program region and
/// recorded in the ledger under the new task's id, and the task is
/// appended ready to run. `None`, with nothing allocated, if the program
/// region has no room for a stack or the task ids are used up.
pub fn spawn(
    sched: &mut Scheduler,
    programs: &mut ProgramAllocator,
    registry: &mut ExecRegistry,
    name: &'static str,
    entry: u64,
) -> (r: Option<TaskId>)
    requires
        old(sched).wf(),
        old(programs).wf(),
        old(registry).wf(),
    ensures
        final(sched).wf(),
        final(programs).wf(),
        final(registry).wf(),
        final(sched).current == old(sched).current,
        final(registry).initialized == old(registry).initialized,
        final(registry).table == old(registry).table,
        final(registry).exec_count == old(registry).exec_count,
        final(programs).region.start == old(programs).region.start,
        final(programs).region.end == old(programs).region.end,
        spawned(
            *old(sched),
            old(programs).blocks(),
            old(registry).ledger(),
            *final(sched),
            final(programs).blocks(),
            final(registry).ledger(),
            name,
            entry,
            0,
            r,
        ),
{
    spawn_with_arg(sched, programs, registry, name, entry, 0)
}

/// What spawning a task does: without a free task id or room for a stack
/// nothing changes and the result is `None`. Otherwise the stack is
/// allocated first-fit in the program region, the task is appended with
/// the next id, and the ledger gets a fresh entry with that stack.
pub open spec fn spawned(
    before: Scheduler,
    blocks: Seq<crate::region::Block>,
    ledger: Seq<crate::executable::AllocationsView>,
    after: Scheduler,
    blocks_after: Seq<crate::region::Block>,
    ledger_after: Seq<crate::executable::AllocationsView>,
    name: &'static str,
    entry: u64,
    arg: u64,
    r: Option<TaskId>,
) -> bool {
    let slot = crate::program_alloc::spec_allocate_index(blocks, STACK_SIZE);
    if before.next_id == u32::MAX || slot.is_none() {
        &&& r.is_none()
        &&& after.tasks@ == before.tasks@
        &&& after.next_id == before.next_id
        &&& blocks_after == blocks
        &&& ledger_after == ledger
    } else {
        let stack_base = blocks[slot.unwrap()].start;
        &&& r == Some(before.next_id)
        &&& after.next_id == before.next_id + 1
        &&& after.tasks@ == before.tasks@.push(
            spec_new_task(before.next_id, name, entry, arg, stack_base),
        )
        &&& blocks_after == spec_take(
            blocks,
            slot.unwrap(),
            spec_page_round(STACK_SIZE),
            PAGE_SIZE as int,
            NO_OWNER,
        )
        &&& ledger_after == spec_register_stack(ledger, before.next_id, stack_base, STACK_SIZE)
    }
}

/// Spawns a task whose entry is called with the argument `arg`.
pub fn spawn_with_arg(
    sched: &mut Scheduler,
    programs: &mut ProgramAllocator,
    registry: &mut ExecRegistry,
    name: &'static str,
    entry: u64,
    arg: u64,
) -> (r: Option<TaskId>)
    requires
        old(sched).wf(),
        old(programs).wf(),
        old(registry).wf(),
    ensures
        final(sched).wf(),
        final(programs).wf(),
        final(registry).wf(),
        final(sched).current == old(sched).current,
        final(registry).initialized == old(registry).initialized,
        final(registry).table == old(registry).table,
        final(registry).exec_count == old(registry).exec_count,
        final(programs).region.start == old(programs).region.start,
        final(programs).region.end == old(programs).region.end,
        spawned(
            *old(sched),
            old(programs).blocks(),
            old(registry).ledger(),
            *final(sched),
            final(programs).blocks(),
            final(registry).ledger(),
            name,
            entry,
            arg,
            r,
        ),
{
    if sched.next_id == u32::MAX {
        return None;
    }
    proof {
        crate::allocator::lemma_align_up(STACK_SIZE as int, PAGE_SIZE as int);
    }
    let stack_base: usize = match programs.allocate(STACK_SIZE) {
        Some(base) => base,
        None => {
            return None;
        },
    };
    match sched.spawn_with_arg(name, entry, arg, stack_base) {
        Some(id) => {
            register_task_stack(registry, id, stack_base, STACK_SIZE);
            Some(id)
        },
        None => None,
    }
}

/// Starts the first task from the boot thread.
pub fn run(sched: &mut Scheduler) -> (d: Dispatch)
    ensures
        final(sched).wf(),
        final(sched).idle_context == old(sched).idle_context,
        final(sched).next_id == old(sched).next_id,
        old(sched).tasks@.len() == 0
            ==> d == Dispatch::Halt && final(sched).tasks@ == old(sched).tasks@,
        old(sched).tasks@.len() > 0
            ==> d == (Dispatch::Switch { from: None, to: 0 })
                && final(sched).current == 0
                && final(sched).tasks@ == with_state(
            old(sched).tasks@,
            0,
            TaskState::Running,
        ),
{
    sched.run()
}

/// The running task gives up the CPU at tick `now`: it becomes ready and
/// the next ready task in round-robin order is chosen.
pub fn yield_now(sched: &mut Scheduler, now: u64) -> (d: Dispatch)
    requires
        old(sched).wf(),
    ensures
        final(sched).wf(),
        final(sched).idle_context == old(sched).idle_context,
        final(sched).next_id == old(sched).next_id,
        (final(sched).tasks@, final(sched).current as int, d) == spec_yield(
            old(sched).tasks@,
            old(sched).current as int,
            now,
        ),
{
    if sched.current < sched.tasks.len() {
        let t: Task = sched.tasks[sched.current];
        sched.tasks.set(sched.current, Task { state: TaskState::Ready, ..t });
    }
    sched.schedule(now)
}

/// The running task sleeps for `ticks` ticks from tick `now`: it is not
/// chosen again before tick `now + ticks`.
pub fn sleep_ticks(sched: &mut Scheduler, now: u64, ticks: u64) -> (d: Dispatch)
    requires
        old(sched).wf(),
    ensures
        final(sched).wf(),
        final(sched).idle_context == old(sched).idle_context,
        final(sched).next_id == old(sched).next_id,
        (final(sched).tasks@, final(sched).current as int, d) == spec_schedule(
            with_sleep(old(sched).tasks@, old(sched).current as int, spec_wake_at(now, ticks)),
            old(sched).current as int,
            now,
        ),
{
    let wake_at: u64 = now.saturating_add(ticks);
    if sched.current < sched.tasks.len() {
        let t: Task = sched.tasks[sched.current];
        sched.tasks.set(sched.current, Task { state: TaskState::Sleeping, wake_at, ..t });
    }
    sched.schedule(now)
}

/// The running task sleeps for at least `ms` milliseconds from tick `now`.
pub fn sleep_ms(sched: &mut Scheduler, now: u64, ms: u64) -> (d: Dispatch)
    requires
        old(sched).wf(),
    ensures
        final(sched).wf(),
        final(sched).idle_context == old(sched).idle_context,
        final(sched).next_id == old(sched).next_id,
        (final(sched).tasks@, final(sched).current as int, d) == spec_schedule(
            with_sleep(
                old(sched).tasks@,
                old(sched).current as int,
                spec_wake_at(now, ((ms + 9) / 10) as u64),
            ),
            old(sched).current as int,
            now,
        ),
{
    sleep_ticks(sched, now, ms_to_ticks(ms))
}

/// The running task ends at tick `now`: everything it holds in the
/// program region is released, it is removed from the task vector, and
/// the next ready task is chosen.
pub fn exit_task(
    sched: &mut Scheduler,
    registry: &mut ExecRegistry,
    programs: &mut ProgramAllocator,
    now: u64,
) -> (d: Dispatch)
    requires
        old(sched).wf(),
        old(registry).wf(),
        old(programs).wf(),
    ensures
        final(sched).wf(),
        final(sched).idle_context == old(sched).idle_context,
        final(registry).wf(),
        final(programs).wf(),
        final(sched).next_id == old(sched).next_id,
        final(registry).initialized == old(registry).initialized,
        final(registry).table == old(registry).table,
        final(registry).exec_count == old(registry).exec_count,
        (final(sched).tasks@, final(sched).current as int, d) == spec_schedule(
            with_state(old(sched).tasks@, old(sched).current as int, TaskState::Finished),
            old(sched).current as int,
            now,
        ),
        old(sched).tasks@.len() == 0 ==> final(registry).ledger() == old(registry).ledger()
            && final(programs).blocks() == old(programs).blocks(),
        old(sched).tasks@.len() > 0 ==> ({
            let id = old(sched).tasks@[old(sched).current as int].id;
            let l = old(registry).ledger();
            if old(registry).initialized && ledger_has(l, id) {
                let extents = spec_task_extents(l[ledger_slot(l, id, 0)]);
                final(registry).ledger() == l.remove(ledger_slot(l, id, 0))
                    && final(programs).blocks() == spec_free_extents(
                    old(programs).blocks(),
                    extents,
                    extents.len() as int,
                )
            } else {
                final(registry).ledger() == l && final(programs).blocks() == old(programs).blocks()
            }
        }),
{
    if sched.current < sched.tasks.len() {
        let t: Task = sched.tasks[sched.current];
        sched.tasks.set(sched.current, Task { state: TaskState::Finished, ..t });
        unload_task(registry, programs, t.id);
    }
    sched.schedule(now)
}

/// Number of tasks in the task vector.
pub fn task_count(sched: &Scheduler) -> (n: usize)
    ensures
        n == sched.tasks@.len(),
{
    sched.tasks.len()
}

/// The id of the task that is running, if one is.
pub fn current_task_id(sched: &Scheduler) -> (r: Option<TaskId>)
    ensures
        r == (if sched.current < sched.tasks@.len() && sched.tasks@[sched.current as int].state
            == TaskState::Running {
            Some(sched.tasks@[sched.current as int].id)
        } else {
            None
        }),
{
    if sched.current < sched.tasks.len() && sched.tasks[sched.current].state == TaskState::Running {
        Some(sched.tasks[sched.current].id)
    } else {
        None
    }
}

/// A copy of the task vector.
pub fn get_all_tasks(sched: &Scheduler) -> (out: Vec<Task>)
    ensures
        out@ == sched.tasks@,
{
    let mut out: Vec<Task> = Vec::new();
    let n: usize = sched.tasks.len();
    let mut i: usize = 0;
    while i < n
        invariant
            n == sched.tasks@.len(),
            i <= n,
            out@ == sched.tasks@.subrange(0, i as int),
        decreases n - i,
    {
        out.push(sched.tasks[i]);
        i += 1;
        proof {
            assert(out@ =~= sched.tasks@.subrange(0, i as int));
        }
    }
    proof {
        assert(sched.tasks@.subrange(0, n as int) =~= sched.tasks@);
    }
    out
}

/// The state in which tasks only ever yield: the current task runs and
/// every other task is ready.
pub open spec fn steady(tasks: Seq<Task>, current: int) -> bool {
    &&& 0 <= current < tasks.len()
    &&& forall|k: int|
        0 <= k < tasks.len() ==> (#[trigger] tasks[k]).state == (if k == current {
            TaskState::Running
        } else {
            TaskState::Ready
        })
}

/// The task vector and current index after the running task has yielded
/// once at each of the ticks `nows`, in order.
pub open spec fn run_yields(tasks: Seq<Task>, current: int, nows: Seq<u64>) -> (Seq<Task>, int)
    decreases nows.len(),
{
    if nows.len() == 0 {
        (tasks, current)
    } else {
        let before = run_yields(tasks, current, nows.drop_last());
        let after = spec_yield(before.0, before.1, nows.last());
        (after.0, after.1)
    }
}

/// Without finished tasks, reaping removes nothing.
proof fn lemma_living_all(tasks: Seq<Task>, n: int)
    requires
        0 <= n <= tasks.len(),
        forall|k: int| 0 <= k < n ==> (#[trigger] tasks[k]).state != TaskState::Finished,
    ensures
        living(tasks, n) == tasks.subrange(0, n),
    decreases n,
{
    if n > 0 {
        lemma_living_all(tasks, n - 1);
        assert(tasks.subrange(0, n) =~= tasks.subrange(0, n - 1).push(tasks[n - 1]));
    } else {
        assert(tasks.subrange(0, 0) =~= Seq::<Task>::empty());
    }
}

/// Whether no task but the one at `current` is marked as running.
pub open spec fn single_runner(tasks: Seq<Task>, current: int) -> bool {
    forall|k: int|
        0 <= k < tasks.len() && (#[trigger] tasks[k]).state == TaskState::Running ==> k == current
}

/// Whether no task is marked as running.
pub open spec fn none_running(tasks: Seq<Task>) -> bool {
    forall|k: int| 0 <= k < tasks.len() ==> (#[trigger] tasks[k]).state != TaskState::Running
}

/// Removing finished tasks puts no task into the running state.
proof fn lemma_living_none_running(tasks: Seq<Task>, n: int)
    requires
        none_running(tasks),
        0 <= n <= tasks.len(),
    ensures
        none_running(living(tasks, n)),
        living(tasks, n).len() <= n,
    decreases n,
{
    if n > 0 {
        lemma_living_none_running(tasks, n - 1);
        assert(tasks[n - 1].state != TaskState::Running);
    }
}

/// The index found by `next_ready` names a ready task.
proof fn lemma_next_ready(tasks: Seq<Task>, current: int, steps: int)
    requires
        0 <= current,
        0 <= steps,
    ensures
        match next_ready(tasks, current, steps) {
            Some(idx) => 0 <= idx < tasks.len() && tasks[idx].state == TaskState::Ready,
            None => true,
        },
    decreases tasks.len() - steps,
{
    if steps < tasks.len() && tasks.len() > 0 {
        let idx = (current + 1 + steps) % (tasks.len() as int);
        vstd::arithmetic::div_mod::lemma_mod_bound(current + 1 + steps, tasks.len() as int);
        if tasks[idx].state != TaskState::Ready {
            lemma_next_ready(tasks, current, steps + 1);
        }
    }
}

/// A scheduling pass that starts with no task running ends with at most
/// one task running: the one it switches to, which is then the current
/// one; when it switches to none, none runs.
pub proof fn lemma_schedule_single_runner(tasks: Seq<Task>, current: int, now: u64)
    requires
        none_running(tasks),
        0 <= current,
        tasks.len() <= usize::MAX,
    ensures
        single_runner(spec_schedule(tasks, current, now).0, spec_schedule(tasks, current, now).1),
        match spec_schedule(tasks, current, now).2 {
            Dispatch::Switch { from, to } => to == spec_schedule(tasks, current, now).1 && to
                < spec_schedule(tasks, current, now).0.len() && spec_schedule(
                tasks,
                current,
                now,
            ).0[to as int].state == TaskState::Running,
            _ => none_running(spec_schedule(tasks, current, now).0),
        },
{
    let awake = woken(tasks, now);
    assert forall|k: int| 0 <= k < awake.len() implies (#[trigger] awake[k]).state
        != TaskState::Running by {
        assert(tasks[k].state != TaskState::Running);
    }
    lemma_living_none_running(awake, awake.len() as int);
    let rest = reaped(awake);
    let cur = reaped_current(awake, current);
    lemma_next_ready(rest, cur, 0);
}

/// At most one task runs, and it is the current one: if that holds when
/// the running task yields, sleeps or exits, it holds afterwards.
pub proof fn lemma_single_runner(tasks: Seq<Task>, current: int, now: u64, wake_at: u64)
    requires
        single_runner(tasks, current),
        0 <= current,
        tasks.len() <= usize::MAX,
    ensures
        single_runner(spec_yield(tasks, current, now).0, spec_yield(tasks, current, now).1),
        single_runner(
            spec_schedule(with_sleep(tasks, current, wake_at), current, now).0,
            spec_schedule(with_sleep(tasks, current, wake_at), current, now).1,
        ),
        single_runner(
            spec_schedule(with_state(tasks, current, TaskState::Finished), current, now).0,
            spec_schedule(with_state(tasks, current, TaskState::Finished), current, now).1,
        ),
{
    let yielded = with_state(tasks, current, TaskState::Ready);
    let asleep = with_sleep(tasks, current, wake_at);
    let gone = with_state(tasks, current, TaskState::Finished);
    assert(none_running(yielded));
    assert(none_running(asleep));
    assert(none_running(gone));
    lemma_schedule_single_runner(yielded, current, now);
    lemma_schedule_single_runner(asleep, current, now);
    lemma_schedule_single_runner(gone, current, now);
}

/// In the steady state a yield passes the CPU to the next task in the
/// vector, wrapping at the end, and leaves the state steady.
pub proof fn lemma_yield_steady(tasks: Seq<Task>, current: int, now: u64)
    requires
        steady(tasks, current),
    ensures
        ({
            let after = spec_yield(tasks, current, now);
            &&& after.0.len() == tasks.len()
            &&& after.1 == (current + 1) % (tasks.len() as int)
            &&& steady(after.0, after.1)
            &&& after.2 == (Dispatch::Switch { from: Some(current as usize), to: after.1 as usize })
            &&& forall|k: int| 0 <= k < tasks.len() ==> (#[trigger] after.0[k]).id == tasks[k].id
        }),
{
    let n = tasks.len() as int;
    let ready = with_state(tasks, current, TaskState::Ready);
    let awake = woken(ready, now);
    assert(awake =~= ready);
    lemma_living_all(awake, n);
    lemma_living_all(awake, current);
    assert(awake.subrange(0, n) =~= awake);
    let next = (current + 1) % n;
    vstd::arithmetic::div_mod::lemma_mod_bound(current + 1, n);
    assert(reaped(awake) == awake);
    assert(reaped_current(awake, current) == current);
    assert(awake[next].state == TaskState::Ready);
    assert(next_ready(awake, current, 0) == Some(next));
}

/// Round-robin order: after `k` yields in the steady state, the task `k`
/// places after the first one runs, wrapping at the end of the vector.
pub proof fn lemma_round_robin(tasks: Seq<Task>, current: int, nows: Seq<u64>)
    requires
        steady(tasks, current),
    ensures
        run_yields(tasks, current, nows).0.len() == tasks.len(),
        steady(run_yields(tasks, current, nows).0, run_yields(tasks, current, nows).1),
        run_yields(tasks, current, nows).1 == (current + nows.len()) % (tasks.len() as int),
        forall|k: int|
            0 <= k < tasks.len() ==> (#[trigger] run_yields(tasks, current, nows).0[k]).id
                == tasks[k].id,
    decreases nows.len(),
{
    let n = tasks.len() as int;
    if nows.len() == 0 {
        vstd::arithmetic::div_mod::lemma_small_mod(current as nat, n as nat);
    } else {
        lemma_round_robin(tasks, current, nows.drop_last());
        let before = run_yields(tasks, current, nows.drop_last());
        lemma_yield_steady(before.0, before.1, nows.last());
        let m = nows.len() as int - 1;
        assert(before.1 == (current + m) % n);
        vstd::arithmetic::div_mod::lemma_add_mod_noop(current + m, 1, n);
        vstd::arithmetic::div_mod::lemma_mod_bound(current + m, n);
        if n == 1 {
            assert((current + m + 1) % n == 0);
            assert((before.1 + 1) % n == 0);
        } else {
            vstd::arithmetic::div_mod::lemma_small_mod(1, n as nat);
        }
        let after = spec_yield(before.0, before.1, nows.last());
        assert forall|k: int| 0 <= k < tasks.len() implies (#[trigger] run_yields(
            tasks,
            current,
            nows,
        ).0[k]).id == tasks[k].id by {
            assert(after.0[k].id == before.0[k].id);
        }
    }
}

/// Fairness: among N tasks that only ever yield, every task runs within N
/// yields.
pub proof fn lemma_fairness(tasks: Seq<Task>, current: int, nows: Seq<u64>, j: int)
    requires
        steady(tasks, current),
        nows.len() >= tasks.len(),
        0 <= j < tasks.len(),
    ensures
        exists|k: int|
            1 <= k <= tasks.len() && (#[trigger] run_yields(tasks, current, nows.take(k))).1 == j,
{
    let n = tasks.len() as int;
    let k = if j > current {
        j - current
    } else {
        j - current + n
    };
    lemma_round_robin(tasks, current, nows.take(k));
    if j > current {
        vstd::arithmetic::div_mod::lemma_small_mod(j as nat, n as nat);
    } else {
        assert(current + k == n * 1 + j) by (nonlinear_arith)
            requires
                k == j - current + n,
        ;
        vstd::arithmetic::div_mod::lemma_fundamental_div_mod_converse(current + k, n, 1, j);
    }
    assert(run_yields(tasks, current, nows.take(k)).1 == j);
}

/// A task that sleeps until tick `wake_at` stays asleep at every earlier
/// tick and is ready from that tick on.
pub proof fn lemma_sleep_until(t: Task, now: u64)
    requires
        t.state == TaskState::Sleeping,
    ensures
        now < t.wake_at ==> woken_task(t, now).state == TaskState::Sleeping,
        now >= t.wake_at ==> woken_task(t, now).state == TaskState::Ready,
{
}

} // verus!
