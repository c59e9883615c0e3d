use shopee_logs_collector::sweeper::{
    RetentionSweeper, SweeperAction, SweeperEvent, SweeperState, DEFAULT_RETAINED_LOGS, SWEEP_INTERVAL_SECS,
};

#[test]
fn defaults() {
    assert_eq!(DEFAULT_RETAINED_LOGS, 100);
    assert_eq!(SWEEP_INTERVAL_SECS, 6 * 60 * 60);
}

#[test]
fn tick_sweeps_then_returns_to_idle() {
    let mut s = RetentionSweeper::new(DEFAULT_RETAINED_LOGS);
    assert_eq!(s.step(SweeperEvent::TimerFired), SweeperAction::Sweep(100));
    assert_eq!(s.state, SweeperState::Sweeping);
    assert_eq!(s.step(SweeperEvent::TimerFired), SweeperAction::Continue);
    assert_eq!(s.step(SweeperEvent::SweepDone), SweeperAction::Wait);
    assert_eq!(s.state, SweeperState::Idle);
}

#[test]
fn cancel_when_idle_stops_at_once() {
    let mut s = RetentionSweeper::new(5);
    assert_eq!(s.step(SweeperEvent::Cancel), SweeperAction::Exit);
    assert_eq!(s.state, SweeperState::Stopped);
    assert_eq!(s.step(SweeperEvent::TimerFired), SweeperAction::Exit);
}

#[test]
fn cancel_during_sweep_lets_it_finish() {
    let mut s = RetentionSweeper::new(0);
    assert_eq!(s.step(SweeperEvent::TimerFired), SweeperAction::Sweep(0));
    assert_eq!(s.step(SweeperEvent::Cancel), SweeperAction::Continue);
    assert_eq!(s.state, SweeperState::Sweeping);
    assert!(s.cancel_pending);
    assert_eq!(s.step(SweeperEvent::SweepDone), SweeperAction::Exit);
    assert_eq!(s.state, SweeperState::Stopped);
}
