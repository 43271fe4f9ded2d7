//! The flag through which a shutdown is requested.
//!
//! The flag is set from outside the polling loop, by whoever turns the
//! user's interrupt into a request, and read by the loop. It is an atomic
//! value behind a shared reference, so nothing is proved here of what a
//! read returns; the loop's decisions are proved for either value in
//! [`crate::polling`].

use std::sync::atomic::AtomicBool;
use std::sync::atomic::Ordering;
use vstd::prelude::*;
use crate::polling::{advance, next_state, LoopEvent, LoopState};

verus! {

/// A flag that is set to request a shutdown and never cleared.
pub struct ShutdownGate {
    requested: AtomicBool,
}

impl ShutdownGate {
    /// A gate through which no shutdown was requested yet.
    pub fn new() -> ShutdownGate {
        ShutdownGate { requested: AtomicBool::new(false) }
    }

    /// Requests the shutdown. Requesting it again changes nothing.
    pub fn request(&self) {
        self.requested.store(true, Ordering::SeqCst);
    }

    /// Whether the shutdown was requested.
    pub fn is_requested(&self) -> bool {
        self.requested.load(Ordering::SeqCst)
    }

    /// Reads the flag at the top of the loop and says where the loop goes:
    /// on as if the flag was seen clear, or on as if it was seen set.
    pub fn check(&self, state: LoopState) -> (next: LoopState)
        ensures
            next == next_state(state, LoopEvent::GateObserved(false)) || next == next_state(
                state,
                LoopEvent::GateObserved(true),
            ),
    {
        advance(state, LoopEvent::GateObserved(self.is_requested()))
    }
}

} // verus!
