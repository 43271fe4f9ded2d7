use revhz::polling::{advance, is_stopped, start, LoopEvent, LoopState, WaitOutcome};

fn run(mut state: LoopState, events: &[LoopEvent]) -> LoopState {
    for event in events {
        state = advance(state, *event);
    }
    state
}

#[test]
fn the_loop_starts_by_checking_the_flag() {
    assert_eq!(start(), LoopState::Checking);
    assert!(!is_stopped(start()));
}

#[test]
fn a_clear_flag_lets_the_loop_wait() {
    assert_eq!(advance(LoopState::Checking, LoopEvent::GateObserved(false)), LoopState::Waiting);
}

#[test]
fn a_set_flag_stops_the_loop() {
    let stopped = advance(LoopState::Checking, LoopEvent::GateObserved(true));
    assert_eq!(stopped, LoopState::Stopped);
    assert!(is_stopped(stopped));
}

#[test]
fn ready_descriptors_are_dispatched() {
    let ready = LoopEvent::WaitReturned(WaitOutcome::Ready(2));
    assert_eq!(advance(LoopState::Waiting, ready), LoopState::Dispatching);
    assert_eq!(advance(LoopState::Dispatching, LoopEvent::Dispatched), LoopState::Checking);
}

#[test]
fn a_wait_with_nothing_ready_goes_back_to_the_check() {
    let none = LoopEvent::WaitReturned(WaitOutcome::Ready(0));
    assert_eq!(advance(LoopState::Waiting, none), LoopState::Checking);
}

#[test]
fn an_interrupted_wait_is_retried() {
    let interrupted = LoopEvent::WaitReturned(WaitOutcome::Interrupted);
    assert_eq!(advance(LoopState::Waiting, interrupted), LoopState::Checking);
    assert_eq!(
        run(LoopState::Waiting, &[interrupted, LoopEvent::GateObserved(false)]),
        LoopState::Waiting
    );
}

#[test]
fn a_failed_wait_stops_the_loop() {
    let failed = LoopEvent::WaitReturned(WaitOutcome::Failed);
    assert_eq!(advance(LoopState::Waiting, failed), LoopState::Stopped);
}

#[test]
fn an_unexpected_event_changes_nothing() {
    let wait = LoopEvent::WaitReturned(WaitOutcome::Ready(1));
    assert_eq!(advance(LoopState::Checking, wait), LoopState::Checking);
    assert_eq!(advance(LoopState::Checking, LoopEvent::Dispatched), LoopState::Checking);
    assert_eq!(advance(LoopState::Waiting, LoopEvent::GateObserved(true)), LoopState::Waiting);
    assert_eq!(advance(LoopState::Waiting, LoopEvent::Dispatched), LoopState::Waiting);
    assert_eq!(advance(LoopState::Dispatching, wait), LoopState::Dispatching);
    assert_eq!(
        advance(LoopState::Dispatching, LoopEvent::GateObserved(true)),
        LoopState::Dispatching
    );
}

#[test]
fn a_stopped_loop_stays_stopped() {
    let events = [
        LoopEvent::GateObserved(false),
        LoopEvent::GateObserved(true),
        LoopEvent::WaitReturned(WaitOutcome::Ready(3)),
        LoopEvent::WaitReturned(WaitOutcome::Interrupted),
        LoopEvent::WaitReturned(WaitOutcome::Failed),
        LoopEvent::Dispatched,
    ];
    for event in events {
        assert_eq!(advance(LoopState::Stopped, event), LoopState::Stopped);
    }
    assert_eq!(run(LoopState::Stopped, &events), LoopState::Stopped);
}

#[test]
fn shutdown_during_a_wait_ends_after_that_wait() {
    // The flag is set while the loop is blocked: the wait is interrupted,
    // the next check finds the flag set.
    let mut state = start();
    state = advance(state, LoopEvent::GateObserved(false));
    assert_eq!(state, LoopState::Waiting);
    state = advance(state, LoopEvent::WaitReturned(WaitOutcome::Interrupted));
    assert_eq!(state, LoopState::Checking);
    state = advance(state, LoopEvent::GateObserved(true));
    assert_eq!(state, LoopState::Stopped);
}

#[test]
fn shutdown_during_a_dispatch_ends_without_another_wait() {
    let mut waits = 0;
    let mut state = LoopState::Dispatching;
    let events = [LoopEvent::Dispatched, LoopEvent::GateObserved(true)];
    for event in events {
        let next = advance(state, event);
        if next == LoopState::Waiting && state != LoopState::Waiting {
            waits += 1;
        }
        state = next;
    }
    assert_eq!(state, LoopState::Stopped);
    assert_eq!(waits, 0);
}

#[test]
fn a_whole_session() {
    let events = [
        LoopEvent::GateObserved(false),
        LoopEvent::WaitReturned(WaitOutcome::Ready(1)),
        LoopEvent::Dispatched,
        LoopEvent::GateObserved(false),
        LoopEvent::WaitReturned(WaitOutcome::Interrupted),
        LoopEvent::GateObserved(false),
        LoopEvent::WaitReturned(WaitOutcome::Ready(0)),
        LoopEvent::GateObserved(false),
        LoopEvent::WaitReturned(WaitOutcome::Ready(2)),
        LoopEvent::Dispatched,
        LoopEvent::GateObserved(true),
    ];
    assert_eq!(run(start(), &events[..10]), LoopState::Checking);
    assert_eq!(run(start(), &events), LoopState::Stopped);
}
