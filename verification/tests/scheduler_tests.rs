use random_number_over_serial::scheduler::{
    initial_state, scheduler_step, SchedulerAction, SchedulerEvent, SchedulerState,
    EMIT_INTERVAL_TICKS,
};

#[test]
fn starts_draining() {
    assert_eq!(initial_state(), SchedulerState::Draining);
}

#[test]
fn draining_leaves_on_flush_complete() {
    let (state, action) =
        scheduler_step(SchedulerState::Draining, SchedulerEvent::FlushComplete);
    assert_eq!(state, SchedulerState::TimedWait);
    assert_eq!(action, SchedulerAction::Wait);
}

#[test]
fn draining_retries_on_flush_pending() {
    let (state, action) = scheduler_step(SchedulerState::Draining, SchedulerEvent::FlushPending);
    assert_eq!(state, SchedulerState::Draining);
    assert_eq!(action, SchedulerAction::PollAndRetry);
}

#[test]
fn timed_wait_holds_below_threshold() {
    let (state, action) = scheduler_step(
        SchedulerState::TimedWait,
        SchedulerEvent::Tick { elapsed: EMIT_INTERVAL_TICKS - 1 },
    );
    assert_eq!(state, SchedulerState::TimedWait);
    assert_eq!(action, SchedulerAction::Wait);
}

#[test]
fn timed_wait_produces_at_threshold() {
    let (state, action) = scheduler_step(
        SchedulerState::TimedWait,
        SchedulerEvent::Tick { elapsed: EMIT_INTERVAL_TICKS },
    );
    assert_eq!(state, SchedulerState::Draining);
    assert_eq!(action, SchedulerAction::Produce);
}

#[test]
fn timed_wait_produces_far_past_threshold() {
    let (state, action) = scheduler_step(
        SchedulerState::TimedWait,
        SchedulerEvent::Tick { elapsed: u64::MAX },
    );
    assert_eq!(state, SchedulerState::Draining);
    assert_eq!(action, SchedulerAction::Produce);
}

#[test]
fn blocked_channel_never_reaches_production() {
    // Fault-injected channel stub: the flush never completes, so every
    // observation in Draining is FlushPending. The scheduler must stay in
    // Draining and never decide to produce a value.
    let mut state = initial_state();
    for _ in 0..10000 {
        let (next, action) = scheduler_step(state, SchedulerEvent::FlushPending);
        assert_eq!(next, SchedulerState::Draining);
        assert_ne!(action, SchedulerAction::Produce);
        state = next;
    }
}
