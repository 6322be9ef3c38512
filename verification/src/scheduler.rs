//! Scheduler decisions: when the main loop may produce and emit a frame.
//!
//! The loop has two states. In `Draining` it retries the output channel's
//! flush, polling the USB device between attempts, until the channel reports
//! the flush complete. In `TimedWait` it compares the ticks elapsed since the
//! last emission against a fixed threshold and produces a new frame only once
//! the threshold is reached, after which it drains again. The loop itself
//! performs the polling, flushing and timer reads; the transition decided
//! from each observation is the logic proved here.

use vstd::prelude::*;

verus! {

/// Ticks that must elapse in `TimedWait` before the next frame is produced.
pub const EMIT_INTERVAL_TICKS: u64 = 1000;

#[derive(Clone, Copy, PartialEq, Eq, Structural, Debug)]
pub enum SchedulerState {
    /// Flushing the previous output before any new work proceeds.
    Draining,
    /// Waiting for the emission interval to elapse.
    TimedWait,
}

/// One observation the loop hands the scheduler: the outcome of a flush
/// attempt while draining, or the elapsed tick count while waiting.
#[derive(Clone, Copy, PartialEq, Eq, Structural, Debug)]
pub enum SchedulerEvent {
    /// The output channel reported the flush complete.
    FlushComplete,
    /// The output channel was not ready; the flush must be retried.
    FlushPending,
    /// Ticks elapsed since the last emission, read from the monotonic timer.
    Tick { elapsed: u64 },
}

/// What the loop must do next.
#[derive(Clone, Copy, PartialEq, Eq, Structural, Debug)]
pub enum SchedulerAction {
    /// Poll the USB device and retry the flush.
    PollAndRetry,
    /// Nothing yet: keep polling and read the timer again.
    Wait,
    /// Produce a value, emit its frame, and reset the emission timestamp.
    Produce,
}

/// The transition table of the scheduler.
pub open spec fn spec_step(state: SchedulerState, event: SchedulerEvent) -> (
    SchedulerState,
    SchedulerAction,
) {
    match state {
        SchedulerState::Draining => match event {
            SchedulerEvent::FlushComplete => (SchedulerState::TimedWait, SchedulerAction::Wait),
            _ => (SchedulerState::Draining, SchedulerAction::PollAndRetry),
        },
        SchedulerState::TimedWait => match event {
            SchedulerEvent::Tick { elapsed } => if elapsed >= EMIT_INTERVAL_TICKS {
                (SchedulerState::Draining, SchedulerAction::Produce)
            } else {
                (SchedulerState::TimedWait, SchedulerAction::Wait)
            },
            _ => (SchedulerState::TimedWait, SchedulerAction::Wait),
        },
    }
}

/// The state the loop starts in: the previous output (if any) is drained
/// before the first frame is produced.
pub fn initial_state() -> (r: SchedulerState)
    ensures
        r == SchedulerState::Draining,
{
    SchedulerState::Draining
}

/// Decide one transition: leave `Draining` only on a completed flush, and
/// produce a frame only in `TimedWait` once the interval has elapsed.
pub fn scheduler_step(state: SchedulerState, event: SchedulerEvent) -> (r: (
    SchedulerState,
    SchedulerAction,
))
    ensures
        r == spec_step(state, event),
{
    match state {
        SchedulerState::Draining => match event {
            SchedulerEvent::FlushComplete => (SchedulerState::TimedWait, SchedulerAction::Wait),
            _ => (SchedulerState::Draining, SchedulerAction::PollAndRetry),
        },
        SchedulerState::TimedWait => match event {
            SchedulerEvent::Tick { elapsed } => if elapsed >= EMIT_INTERVAL_TICKS {
                (SchedulerState::Draining, SchedulerAction::Produce)
            } else {
                (SchedulerState::TimedWait, SchedulerAction::Wait)
            },
            _ => (SchedulerState::TimedWait, SchedulerAction::Wait),
        },
    }
}

/// The state after feeding a sequence of events, first to last, into the
/// transition table.
pub open spec fn run_states(state: SchedulerState, events: Seq<SchedulerEvent>) -> SchedulerState
    decreases events.len(),
{
    if events.len() == 0 {
        state
    } else {
        spec_step(run_states(state, events.drop_last()), events.last()).0
    }
}

/// Liveness trade-off law: while the output channel never reports a flush
/// complete, `Draining` is absorbing — the scheduler stays in it and no step
/// ever decides to produce a value.
pub proof fn lemma_draining_absorbing(events: Seq<SchedulerEvent>)
    requires
        forall|i: int| 0 <= i < events.len() ==> events[i] != SchedulerEvent::FlushComplete,
    ensures
        run_states(SchedulerState::Draining, events) == SchedulerState::Draining,
        forall|i: int|
            0 <= i < events.len() ==> spec_step(
                run_states(SchedulerState::Draining, events.take(i)),
                #[trigger] events[i],
            ).1 != SchedulerAction::Produce,
    decreases events.len(),
{
    if events.len() > 0 {
        let prefix = events.drop_last();
        lemma_draining_absorbing(prefix);
        assert forall|i: int|
            0 <= i < events.len() implies spec_step(
            run_states(SchedulerState::Draining, events.take(i)),
            #[trigger] events[i],
        ).1 != SchedulerAction::Produce by {
            assert(events.take(i) =~= prefix.take(i));
            if i < events.len() - 1 {
                assert(events[i] == prefix[i]);
            } else {
                assert(events.take(i) =~= prefix);
            }
        }
    }
}

} // verus!
