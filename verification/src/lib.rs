//! Measures how often raw input devices emit discrete events.
//!
//! The crate holds the decisions of an event-rate monitor: decoding the
//! fixed-size records that a device delivers, keeping a rolling average of
//! the event frequency per device, choosing which devices to wait on, and
//! driving the polling loop towards a clean shutdown. Opening devices,
//! blocking on them and printing are left to the caller, who hands the
//! results in as plain values.

pub mod fill;
pub mod tracker;
pub mod history;
pub mod codec;
pub mod report;
pub mod device;
pub mod multiplexer;
pub mod multiplexer_lemmas;
pub mod polling;
pub mod gate;
