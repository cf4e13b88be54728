//! Tasks: identity, scheduling state and the saved register context.

use vstd::prelude::*;

verus! {

/// Unique identifier of a task.
pub type TaskId = u32;

/// Stack size per task: 16 KiB.
pub const STACK_SIZE: usize = 16384;

/// Scheduling state of a task.
#[derive(Debug, Clone, Copy, PartialEq, Eq, Structural)]
pub enum TaskState {
    /// Ready to run.
    Ready,
    /// Currently executing.
    Running,
    /// Sleeping until its wake-up tick.
    Sleeping,
    /// Completed; to be removed by the scheduler.
    Finished,
}

/// Callee-saved registers preserved across a context switch, in the order
/// in which the switch routine stores them.
#[derive(Debug, Clone, Copy, PartialEq, Eq, Structural)]
pub struct Context {
    pub r15: u64,
    pub r14: u64,
    pub r13: u64,
    pub r12: u64,
    pub rbx: u64,
    pub rbp: u64,
    pub rsp: u64,
}

impl Default for Context {
    fn default() -> (c: Context)
        ensures
            c == (Context { r15: 0, r14: 0, r13: 0, r12: 0, rbx: 0, rbp: 0, rsp: 0 }),
    {
        Context { r15: 0, r14: 0, r13: 0, r12: 0, rbx: 0, rbp: 0, rsp: 0 }
    }
}

/// A schedulable task.
#[derive(Debug, Clone, Copy)]
pub struct Task {
    /// Unique task id.
    pub id: TaskId,
    /// Human-readable name.
    pub name: &'static str,
    /// Current state.
    pub state: TaskState,
    /// Saved registers; stale while the task is running.
    pub context: Context,
    /// The task's stack as (base, size).
    pub stack: (usize, usize),
    /// Tick at which a sleeping task becomes ready.
    pub wake_at: u64,
}

/// Initial stack pointer for a stack whose top is `top`: aligned down to
/// 16 bytes, less the slot that holds the first return address.
pub open spec fn initial_rsp(top: int) -> int {
    top - top % 16 - 8
}

/// The register context of a task that has not run yet: the stack
/// pointer names the return-address slot at the top of the stack, `r12`
/// carries the entry point that the trampoline calls, and `r13` the
/// argument that it hands to the entry.
pub open spec fn spec_initial_context(entry: u64, arg: u64, stack_base: usize) -> Context {
    Context {
        r15: 0,
        r14: 0,
        r13: arg,
        r12: entry,
        rbx: 0,
        rbp: 0,
        rsp: initial_rsp(stack_base + STACK_SIZE) as u64,
    }
}

/// A task that has not run yet.
pub open spec fn spec_new_task(
    id: TaskId,
    name: &'static str,
    entry: u64,
    arg: u64,
    stack_base: usize,
) -> Task {
    Task {
        id,
        name,
        state: TaskState::Ready,
        context: spec_initial_context(entry, arg, stack_base),
        stack: (stack_base, STACK_SIZE),
        wake_at: 0,
    }
}

impl Task {
    /// A ready task whose first switch-in returns into the entry
    /// trampoline, which calls `entry`.
    pub fn new(id: TaskId, name: &'static str, entry: u64, stack_base: usize) -> (t: Task)
        requires
            stack_base + STACK_SIZE <= usize::MAX,
        ensures
            t == spec_new_task(id, name, entry, 0, stack_base),
            stack_base <= t.context.rsp < stack_base + STACK_SIZE,
            (t.context.rsp + 8) % 16 == 0,
    {
        Task::with_arg(id, name, entry, 0, stack_base)
    }

    /// A ready task whose first switch-in returns into the entry
    /// trampoline, which calls `entry` with `arg`.
    pub fn with_arg(id: TaskId, name: &'static str, entry: u64, arg: u64, stack_base: usize) -> (t:
        Task)
        requires
            stack_base + STACK_SIZE <= usize::MAX,
        ensures
            t == spec_new_task(id, name, entry, arg, stack_base),
            stack_base <= t.context.rsp < stack_base + STACK_SIZE,
            (t.context.rsp + 8) % 16 == 0,
    {
        let top: usize = stack_base + STACK_SIZE;
        let aligned: usize = top - top % 16 - 8;
        let context = Context {
            r15: 0,
            r14: 0,
            r13: arg,
            r12: entry,
            rbx: 0,
            rbp: 0,
            rsp: aligned as u64,
        };
        Task { id, name, state: TaskState::Ready, context, stack: (stack_base, STACK_SIZE), wake_at: 0 }
    }
}

} // verus!
