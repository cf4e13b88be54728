//! Time base: a free-running tick counter fed either by the timer interrupt
//! or by polling the interval timer's down-counter.

use vstd::prelude::*;

verus! {

/// Base frequency of the interval timer in Hz.
pub const PIT_FREQUENCY: u32 = 1_193_182;

/// Tick rate in Hz: one tick every 10 ms.
pub const TARGET_HZ: u32 = 100;

/// Counter reload value: base frequency divided by the tick rate.
pub const DIVISOR: u16 = 11931;

/// Tick counter together with the bookkeeping needed by poll mode.
pub struct Timer {
    /// Ticks since boot.
    pub tick_count: u64,
    /// Counter value latched by the previous poll.
    pub last_counter: u16,
    /// Raw counts that have not yet formed a whole tick.
    pub accumulated: u64,
}

/// Raw counts that elapsed between two latched counter values. The counter
/// runs down, so a larger current value means it wrapped once.
pub open spec fn elapsed_counts(last: u16, current: u16) -> int {
    if current <= last {
        last - current
    } else {
        last + (DIVISOR - current)
    }
}

/// Tick count after adding `n` ticks, pinned at the largest representable
/// value so that the count never moves backwards.
pub open spec fn advance_ticks(t: u64, n: int) -> int {
    if t + n > u64::MAX {
        u64::MAX as int
    } else {
        t + n
    }
}

/// The timer after a poll that latched the counter value `current`.
pub open spec fn spec_poll(t: Timer, current: u16) -> Timer {
    let total = t.accumulated + elapsed_counts(t.last_counter, current);
    Timer {
        tick_count: advance_ticks(t.tick_count, total / (DIVISOR as int)) as u64,
        last_counter: current,
        accumulated: (total % (DIVISOR as int)) as u64,
    }
}

/// The timer after one timer interrupt.
pub open spec fn spec_tick(t: Timer) -> Timer {
    Timer { tick_count: advance_ticks(t.tick_count, 1) as u64, ..t }
}

/// One step of the time base.
pub enum TimerStep {
    /// A poll that latched this counter value.
    Poll(u16),
    /// A timer interrupt.
    Tick,
}

/// Whether a step can occur: the hardware keeps the counter that a poll
/// latches at or below the reload value.
pub open spec fn step_ok(step: TimerStep) -> bool {
    match step {
        TimerStep::Poll(current) => current <= DIVISOR,
        TimerStep::Tick => true,
    }
}

/// The timer after one step.
pub open spec fn spec_step(t: Timer, step: TimerStep) -> Timer {
    match step {
        TimerStep::Poll(current) => spec_poll(t, current),
        TimerStep::Tick => spec_tick(t),
    }
}

/// The timer after a sequence of steps.
pub open spec fn spec_run(t: Timer, steps: Seq<TimerStep>) -> Timer
    decreases steps.len(),
{
    if steps.len() == 0 {
        t
    } else {
        spec_step(spec_run(t, steps.drop_last()), steps.last())
    }
}

/// Raw counts that elapse over a sequence of polls, the first of which
/// follows a poll that latched `last`.
pub open spec fn counts_seen(last: u16, polls: Seq<u16>) -> int
    decreases polls.len(),
{
    if polls.len() == 0 {
        0
    } else if polls.len() == 1 {
        elapsed_counts(last, polls[0])
    } else {
        counts_seen(last, polls.drop_last()) + elapsed_counts(
            polls[polls.len() - 2],
            polls.last(),
        )
    }
}

/// A sequence of polls as steps.
pub open spec fn poll_steps(polls: Seq<u16>) -> Seq<TimerStep> {
    Seq::new(polls.len(), |i: int| TimerStep::Poll(polls[i]))
}

impl Timer {
    /// The sub-tick remainder is always less than one tick's worth of counts.
    pub open spec fn wf(&self) -> bool {
        self.accumulated < DIVISOR
    }

    /// A timer at boot: no ticks, nothing accumulated.
    pub fn new() -> (t: Timer)
        ensures
            t.wf(),
            t.tick_count == 0,
            t.last_counter == 0,
            t.accumulated == 0,
    {
        Timer { tick_count: 0, last_counter: 0, accumulated: 0 }
    }
}

/// Starts poll-mode tracking from the counter value `counter`, which the
/// caller has just latched from the hardware. The tick count is kept.
pub fn init(timer: &mut Timer, counter: u16)
    ensures
        final(timer).wf(),
        final(timer).tick_count == old(timer).tick_count,
        final(timer).last_counter == counter,
        final(timer).accumulated == 0,
{
    timer.last_counter = counter;
    timer.accumulated = 0;
}

/// Accounts for the counts elapsed since the previous poll, given the
/// freshly latched counter value `current`, which the hardware keeps at or
/// below the reload value. Whole ticks move to the tick count; the remainder
/// is carried to the next poll.
pub fn poll(timer: &mut Timer, current: u16)
    requires
        old(timer).wf(),
        current <= DIVISOR,
    ensures
        final(timer).wf(),
        *final(timer) == spec_poll(*old(timer), current),
        final(timer).tick_count >= old(timer).tick_count,
{
    let last: u16 = timer.last_counter;
    timer.last_counter = current;
    let elapsed: u64 = if current <= last {
        (last - current) as u64
    } else {
        last as u64 + (DIVISOR - current) as u64
    };
    let total: u64 = timer.accumulated + elapsed;
    let new_ticks: u64 = total / (DIVISOR as u64);
    timer.tick_count = timer.tick_count.saturating_add(new_ticks);
    timer.accumulated = total % (DIVISOR as u64);
}

/// Accounts for one timer interrupt: exactly one tick has passed.
pub fn tick(timer: &mut Timer)
    ensures
        *final(timer) == spec_tick(*old(timer)),
        final(timer).tick_count >= old(timer).tick_count,
{
    timer.tick_count = timer.tick_count.saturating_add(1);
}

/// Ticks since boot.
pub fn ticks(timer: &Timer) -> (t: u64)
    ensures
        t == timer.tick_count,
{
    timer.tick_count
}

/// Ticks per second.
pub fn ticks_per_second() -> (hz: u64)
    ensures
        hz == 100,
{
    TARGET_HZ as u64
}

/// Milliseconds to ticks, rounded up.
pub fn ms_to_ticks(ms: u64) -> (t: u64)
    ensures
        t == (ms + 9) / 10,
{
    if ms % 10 == 0 {
        ms / 10
    } else {
        ms / 10 + 1
    }
}

/// Ticks to milliseconds.
pub fn ticks_to_ms(t: u64) -> (ms: u64)
    requires
        t * 10 <= u64::MAX,
    ensures
        ms == t * 10,
{
    t * 10
}

/// The tick count never decreases: whatever sequence of polls and timer
/// interrupts is applied, it ends equal or larger, and the sub-tick
/// remainder stays below one tick.
pub proof fn lemma_ticks_monotone(t: Timer, steps: Seq<TimerStep>)
    requires
        t.wf(),
        forall|i: int| 0 <= i < steps.len() ==> step_ok(#[trigger] steps[i]),
    ensures
        spec_run(t, steps).tick_count >= t.tick_count,
        spec_run(t, steps).wf(),
    decreases steps.len(),
{
    if steps.len() > 0 {
        lemma_ticks_monotone(t, steps.drop_last());
        let before = spec_run(t, steps.drop_last());
        match steps.last() {
            TimerStep::Poll(current) => {
                let total = before.accumulated + elapsed_counts(before.last_counter, current);
                assert(step_ok(steps[steps.len() - 1]));
                assert(total >= 0);
                vstd::arithmetic::div_mod::lemma_div_pos_is_pos(total, DIVISOR as int);
                vstd::arithmetic::div_mod::lemma_mod_bound(total, DIVISOR as int);
            },
            TimerStep::Tick => {},
        }
    }
}

/// Polling loses no counts: as long as the tick count has room, the
/// ticks gained over a sequence of polls are the whole ticks in the counts
/// that elapsed plus the remainder carried in, and what is left over is
/// carried on. The tick count therefore never strays from the elapsed
/// time by as much as one tick.
pub proof fn lemma_polls_keep_counts(t: Timer, polls: Seq<u16>)
    requires
        t.wf(),
        forall|i: int| 0 <= i < polls.len() ==> (#[trigger] polls[i]) <= DIVISOR,
        t.tick_count + (t.accumulated + counts_seen(t.last_counter, polls)) / (DIVISOR as int)
            <= u64::MAX,
    ensures
        spec_run(t, poll_steps(polls)).tick_count == t.tick_count + (t.accumulated + counts_seen(
            t.last_counter,
            polls,
        )) / (DIVISOR as int),
        spec_run(t, poll_steps(polls)).accumulated == (t.accumulated + counts_seen(
            t.last_counter,
            polls,
        )) % (DIVISOR as int),
        polls.len() > 0 ==> spec_run(t, poll_steps(polls)).last_counter == polls.last(),
        counts_seen(t.last_counter, polls) >= 0,
    decreases polls.len(),
{
    let d = DIVISOR as int;
    if polls.len() == 0 {
        vstd::arithmetic::div_mod::lemma_small_mod(t.accumulated as nat, d as nat);
        vstd::arithmetic::div_mod::lemma_basic_div(t.accumulated as int, d);
    } else {
        let front = polls.drop_last();
        let c0 = t.accumulated + counts_seen(t.last_counter, front);
        let last = if front.len() == 0 {
            t.last_counter
        } else {
            front.last()
        };
        let e = elapsed_counts(last, polls.last());
        assert(counts_seen(t.last_counter, polls) == counts_seen(t.last_counter, front) + e);
        lemma_counts_nonnegative(t.last_counter, front);
        assert(polls[polls.len() - 1] <= DIVISOR);
        assert(e >= 0);
        vstd::arithmetic::div_mod::lemma_div_is_ordered(c0, c0 + e, d);
        lemma_polls_keep_counts(t, front);
        assert(poll_steps(polls).drop_last() =~= poll_steps(front));
        assert(poll_steps(polls).last() == TimerStep::Poll(polls.last()));
        let before = spec_run(t, poll_steps(front));
        assert(before.last_counter == last);
        // (c0 % d + e) / d + c0 / d == (c0 + e) / d, and the remainders agree
        vstd::arithmetic::div_mod::lemma_fundamental_div_mod(c0, d);
        vstd::arithmetic::div_mod::lemma_fundamental_div_mod(c0 % d + e, d);
        vstd::arithmetic::div_mod::lemma_mod_bound(c0 % d + e, d);
        vstd::arithmetic::div_mod::lemma_fundamental_div_mod_converse(
            c0 + e,
            d,
            c0 / d + (c0 % d + e) / d,
            (c0 % d + e) % d,
        );
    }
}

/// Elapsed counts are never negative.
proof fn lemma_counts_nonnegative(last: u16, polls: Seq<u16>)
    requires
        forall|i: int| 0 <= i < polls.len() ==> (#[trigger] polls[i]) <= DIVISOR,
    ensures
        counts_seen(last, polls) >= 0,
    decreases polls.len(),
{
    if polls.len() > 1 {
        lemma_counts_nonnegative(last, polls.drop_last());
    }
}

} // verus!
