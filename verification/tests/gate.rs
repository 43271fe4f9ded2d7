use revhz::gate::ShutdownGate;
use revhz::polling::{start, LoopState};

#[test]
fn a_new_flag_is_clear() {
    let gate = ShutdownGate::new();
    assert!(!gate.is_requested());
}

#[test]
fn a_request_sets_the_flag_for_good() {
    let gate = ShutdownGate::new();
    gate.request();
    assert!(gate.is_requested());
    gate.request();
    assert!(gate.is_requested());
    assert!(gate.is_requested());
}

#[test]
fn the_flag_is_shared_by_reference() {
    let gate = ShutdownGate::new();
    let writer = &gate;
    let reader = &gate;
    assert!(!reader.is_requested());
    writer.request();
    assert!(reader.is_requested());
}

#[test]
fn the_check_at_the_loop_top_follows_the_flag() {
    let gate = ShutdownGate::new();
    assert_eq!(gate.check(start()), LoopState::Waiting);
    gate.request();
    assert_eq!(gate.check(start()), LoopState::Stopped);
    assert_eq!(gate.check(LoopState::Waiting), LoopState::Waiting);
    assert_eq!(gate.check(LoopState::Dispatching), LoopState::Dispatching);
    assert_eq!(gate.check(LoopState::Stopped), LoopState::Stopped);
}
