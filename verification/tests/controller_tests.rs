use deet::controller::{frame_walk_decision, DebugError, ExecutionController, FrameDecision};
use deet::inferior::{Inferior, Status, TraceError, TRAP_SIGNAL};

#[test]
fn fresh_session_has_no_process_and_no_breakpoints() {
    let ctl = ExecutionController::new();
    assert!(!ctl.has_process());
    assert_eq!(ctl.breakpoint_count(), 0);
}

#[test]
fn first_breakpoint_gets_index_zero_and_stays_there() {
    // Setting a breakpoint before any run records it at index 0; asking
    // again for the same address keeps the single record and its index.
    let mut ctl = ExecutionController::new();
    assert_eq!(ctl.break_cmd(Some(0x400123)), Ok((0, 0x400123)));
    assert_eq!(ctl.breakpoint_count(), 1);
    assert_eq!(ctl.break_cmd(Some(0x400123)), Ok((0, 0x400123)));
    assert_eq!(ctl.breakpoint_count(), 1);
    assert_eq!(ctl.break_cmd(Some(0x400200)), Ok((1, 0x400200)));
    assert_eq!(ctl.breakpoint_count(), 2);
}

#[test]
fn unresolved_breakpoint_changes_nothing() {
    let mut ctl = ExecutionController::new();
    ctl.break_cmd(Some(0x400123)).unwrap();
    assert_eq!(ctl.break_cmd(None), Err(DebugError::UnresolvedBreakpoint));
    assert_eq!(ctl.breakpoint_count(), 1);
    assert!(!ctl.has_process());
}

#[test]
fn killing_with_no_process_is_a_no_op() {
    let mut ctl = ExecutionController::new();
    assert!(ctl.kill_existing().is_none());
    assert!(!ctl.has_process());
}

#[test]
fn commands_needing_a_process_say_so() {
    let mut ctl = ExecutionController::new();
    assert_eq!(ctl.continue_cmd(), Err(DebugError::NoProcess));
    assert_eq!(ctl.current_frame(), Err(DebugError::NoProcess));
    assert_eq!(ctl.next_frame(0x1000), Err(DebugError::NoProcess));
}

#[test]
fn frame_walk_stops_at_entry_or_unresolved() {
    let main_name = "main".to_string();
    let other = "helper".to_string();
    assert_eq!(frame_walk_decision(Some(12), Some(&main_name)), FrameDecision::PrintAndStop);
    assert_eq!(frame_walk_decision(Some(12), Some(&other)), FrameDecision::PrintAndContinue);
    assert_eq!(frame_walk_decision(None, Some(&other)), FrameDecision::StopSilently);
    assert_eq!(frame_walk_decision(Some(12), None), FrameDecision::StopSilently);
    assert_eq!(frame_walk_decision(None, None), FrameDecision::StopSilently);
}

#[test]
fn adopting_a_nonexistent_child_fails() {
    // There is no such child to wait for, so the initial wait reports a
    // syscall failure rather than a stop.
    match Inferior::new(999_999_999) {
        Err(TraceError::Syscall(_)) => (),
        Err(other) => panic!("expected a syscall failure, got {:?}", other),
        Ok(_) => panic!("expected a syscall failure, got a traced process"),
    }
}

#[test]
fn run_against_a_nonexistent_child_leaves_session_clean() {
    let mut ctl = ExecutionController::new();
    ctl.break_cmd(Some(0x400123)).unwrap();
    assert!(ctl.start_run(999_999_999).is_err());
    assert!(!ctl.has_process());
    assert_eq!(ctl.breakpoint_count(), 1);
}

#[test]
fn status_classification_values() {
    assert_eq!(Status::Exited(0), Status::Exited(0));
    assert_ne!(Status::Exited(0), Status::Exited(1));
    assert_ne!(Status::Stopped(TRAP_SIGNAL, 0x400124), Status::Signaled(TRAP_SIGNAL));
    assert_eq!(TRAP_SIGNAL, 5);
}
