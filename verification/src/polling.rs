//! The course of the polling loop.
//!
//! The loop itself blocks and reads, so the caller runs it. What to do
//! next is decided here: the caller reports what happened as a
//! [`LoopEvent`], and the [`LoopState`] it gets back says what to do now.
//!
//! * `Checking`: read the shutdown flag and report it.
//! * `Waiting`: block until a device is readable and report how the wait
//!   ended.
//! * `Dispatching`: read the ready devices, hand the reads to the device
//!   set, and report that this is done.
//! * `Stopped`: leave the loop, print the summary and close the devices.

use vstd::prelude::*;

verus! {

/// How a blocking wait ended.
#[derive(Clone, Copy, Debug, PartialEq, Eq)]
pub enum WaitOutcome {
    /// The wait returned with this many descriptors ready.
    Ready(usize),
    /// The wait was interrupted by the delivery of a signal.
    Interrupted,
    /// The wait failed for any other reason.
    Failed,
}

/// Where the loop stands.
#[derive(Clone, Copy, Debug, PartialEq, Eq)]
pub enum LoopState {
    /// At the top of the loop, about to read the shutdown flag.
    Checking,
    /// About to block, or blocked, in the wait.
    Waiting,
    /// Reading the devices that the wait reported ready.
    Dispatching,
    /// Out of the loop.
    Stopped,
}

/// What happened since the last state was handed out.
#[derive(Clone, Copy, Debug, PartialEq, Eq)]
pub enum LoopEvent {
    /// The shutdown flag was read, with this value.
    GateObserved(bool),
    /// The wait returned.
    WaitReturned(WaitOutcome),
    /// The ready devices were read.
    Dispatched,
}

/// The state that follows `state` on `event`.
///
/// A set flag stops the loop; a clear one lets it wait. A wait that
/// reports ready descriptors leads to their dispatch; one that reports
/// none, or was interrupted, leads back to the check of the flag; one that
/// failed stops the loop. An event that the state does not expect changes
/// nothing.
pub open spec fn next_state(state: LoopState, event: LoopEvent) -> LoopState {
    match (state, event) {
        (LoopState::Checking, LoopEvent::GateObserved(true)) => LoopState::Stopped,
        (LoopState::Checking, LoopEvent::GateObserved(false)) => LoopState::Waiting,
        (LoopState::Waiting, LoopEvent::WaitReturned(WaitOutcome::Ready(count))) => if count > 0 {
            LoopState::Dispatching
        } else {
            LoopState::Checking
        },
        (LoopState::Waiting, LoopEvent::WaitReturned(WaitOutcome::Interrupted)) => LoopState::Checking,
        (LoopState::Waiting, LoopEvent::WaitReturned(WaitOutcome::Failed)) => LoopState::Stopped,
        (LoopState::Dispatching, LoopEvent::Dispatched) => LoopState::Checking,
        _ => state,
    }
}

/// The state after a run of events.
pub open spec fn run(state: LoopState, events: Seq<LoopEvent>) -> LoopState
    decreases events.len(),
{
    if events.len() == 0 {
        state
    } else {
        next_state(run(state, events.drop_last()), events.last())
    }
}

/// Number of waits that a run of events begins.
pub open spec fn waits_begun(state: LoopState, events: Seq<LoopEvent>) -> nat
    decreases events.len(),
{
    if events.len() == 0 {
        0
    } else {
        let before = run(state, events.drop_last());
        let after = next_state(before, events.last());
        let begun: nat = if before != LoopState::Waiting && after == LoopState::Waiting {
            1
        } else {
            0
        };
        waits_begun(state, events.drop_last()) + begun
    }
}

/// Number of waits that return during a run of events.
pub open spec fn waits_returned(state: LoopState, events: Seq<LoopEvent>) -> nat
    decreases events.len(),
{
    if events.len() == 0 {
        0
    } else {
        let before = run(state, events.drop_last());
        let returned: nat = if before == LoopState::Waiting && events.last() is WaitReturned {
            1
        } else {
            0
        };
        waits_returned(state, events.drop_last()) + returned
    }
}

/// Whether every reading of the shutdown flag among the events found it
/// set.
pub open spec fn gate_is_set(events: Seq<LoopEvent>) -> bool {
    forall|i: int|
        0 <= i < events.len() ==> ((#[trigger] events[i]) matches LoopEvent::GateObserved(set)
            ==> set)
}

/// The state in which the loop starts.
pub fn start() -> (state: LoopState)
    ensures
        state == LoopState::Checking,
{
    LoopState::Checking
}

/// The state that follows `state` on `event`.
pub fn advance(state: LoopState, event: LoopEvent) -> (next: LoopState)
    ensures
        next == next_state(state, event),
{
    match state {
        LoopState::Checking => match event {
            LoopEvent::GateObserved(true) => LoopState::Stopped,
            LoopEvent::GateObserved(false) => LoopState::Waiting,
            _ => state,
        },
        LoopState::Waiting => match event {
            LoopEvent::WaitReturned(WaitOutcome::Ready(count)) => if count > 0 {
                LoopState::Dispatching
            } else {
                LoopState::Checking
            },
            LoopEvent::WaitReturned(WaitOutcome::Interrupted) => LoopState::Checking,
            LoopEvent::WaitReturned(WaitOutcome::Failed) => LoopState::Stopped,
            _ => state,
        },
        LoopState::Dispatching => match event {
            LoopEvent::Dispatched => LoopState::Checking,
            _ => state,
        },
        LoopState::Stopped => state,
    }
}

/// Whether the loop is over.
pub fn is_stopped(state: LoopState) -> (stopped: bool)
    ensures
        stopped == (state == LoopState::Stopped),
{
    match state {
        LoopState::Stopped => true,
        _ => false,
    }
}

/// A loop that has stopped stays stopped, whatever is reported to it.
pub proof fn lemma_stopped_is_final(events: Seq<LoopEvent>)
    ensures
        run(LoopState::Stopped, events) == LoopState::Stopped,
    decreases events.len(),
{
    if events.len() > 0 {
        lemma_stopped_is_final(events.drop_last());
    }
}

/// Once the shutdown flag is set, the loop begins no further wait, and at
/// most one wait returns: the one that was under way, if there was one.
pub proof fn lemma_at_most_one_wait_after_shutdown(state: LoopState, events: Seq<LoopEvent>)
    requires
        gate_is_set(events),
    ensures
        waits_begun(state, events) == 0,
        waits_returned(state, events) <= 1,
        state != LoopState::Waiting ==> waits_returned(state, events) == 0,
        run(state, events) == LoopState::Waiting ==> state == LoopState::Waiting && waits_returned(
            state,
            events,
        ) == 0,
    decreases events.len(),
{
    if events.len() > 0 {
        let earlier = events.drop_last();
        assert(gate_is_set(earlier)) by {
            assert forall|i: int| 0 <= i < earlier.len() implies ((#[trigger] earlier[i]) matches LoopEvent::GateObserved(
                set,
            ) ==> set) by {
                assert(earlier[i] == events[i]);
            }
        }
        lemma_at_most_one_wait_after_shutdown(state, earlier);
        assert(events.last() == events[events.len() - 1]);
    }
}

/// Whether `event` is what the caller reports in `state` when it does
/// what the state asks for.
pub open spec fn answers(state: LoopState, event: LoopEvent) -> bool {
    match state {
        LoopState::Checking => event is GateObserved,
        LoopState::Waiting => event is WaitReturned,
        LoopState::Dispatching => event is Dispatched,
        LoopState::Stopped => false,
    }
}

/// Whether each event of a run answers the state it is reported in, as
/// long as the loop has not stopped.
pub open spec fn in_step(state: LoopState, events: Seq<LoopEvent>) -> bool
    decreases events.len(),
{
    if events.len() == 0 {
        true
    } else {
        let before = run(state, events.drop_last());
        in_step(state, events.drop_last()) && (before == LoopState::Stopped || answers(
            before,
            events.last(),
        ))
    }
}

/// Once the shutdown flag is set, a caller that does what each state asks
/// for finds the loop stopped after three events at the latest: the return
/// of the wait under way, its dispatch, and the check of the flag.
pub proof fn lemma_shutdown_within_three_events(state: LoopState, events: Seq<LoopEvent>)
    requires
        gate_is_set(events),
        in_step(state, events),
        events.len() >= 3,
    ensures
        run(state, events) == LoopState::Stopped,
    decreases events.len(),
{
    if events.len() > 3 {
        let earlier = events.drop_last();
        assert(gate_is_set(earlier)) by {
            assert forall|i: int| 0 <= i < earlier.len() implies ((#[trigger] earlier[i]) matches LoopEvent::GateObserved(
                set,
            ) ==> set) by {
                assert(earlier[i] == events[i]);
            }
        }
        lemma_shutdown_within_three_events(state, earlier);
    } else {
        let two = events.drop_last();
        let one = two.drop_last();
        let none = one.drop_last();
        assert(none.len() == 0);
        assert(one.last() == events[0]);
        assert(two.last() == events[1]);
        assert(events.last() == events[2]);
        let first = next_state(state, events[0]);
        let second = next_state(first, events[1]);
        assert(run(state, none) == state);
        assert(run(state, one) == first);
        assert(run(state, two) == second);
        assert(in_step(state, two));
        assert(in_step(state, one));
    }
}

} // verus!
