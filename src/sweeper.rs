//! The decisions of the retention sweeper, which runs beside the store: when to sweep,
//! with which threshold, and when to stop. Whoever runs it supplies the timer and the
//! cancellation signal and performs the sweep it asks for.
use vstd::prelude::*;

verus! {

/// Logs kept per account and per keyword by a default sweep.
pub const DEFAULT_RETAINED_LOGS: usize = 100;

/// Seconds between two sweeps by default: six hours.
pub const SWEEP_INTERVAL_SECS: u64 = 21600;

#[derive(Debug, Clone, Copy, PartialEq, Eq, Structural)]
pub enum SweeperState {
    /// Waiting for the next tick.
    Idle,
    /// A sweep was asked for and has not finished.
    Sweeping,
    /// Cancelled; no more sweeps.
    Stopped,
}

#[derive(Debug, Clone, Copy, PartialEq, Eq, Structural)]
pub enum SweeperEvent {
    /// The interval has passed.
    TimerFired,
    /// The sweep that was asked for has finished.
    SweepDone,
    /// Shutdown was requested.
    Cancel,
}

#[derive(Debug, Clone, Copy, PartialEq, Eq, Structural)]
pub enum SweeperAction {
    /// Sleep until the next tick.
    Wait,
    /// Sweep the store, keeping this many logs (zero also resets the counters).
    Sweep(usize),
    /// Nothing to do now; a sweep is in flight.
    Continue,
    /// Stop the sweeper.
    Exit,
}

/// The sweeper's state: where it is, the threshold it sweeps with, and whether a
/// cancellation came while a sweep was in flight.
#[derive(Debug, Clone, Copy)]
pub struct RetentionSweeper {
    pub state: SweeperState,
    pub threshold: usize,
    pub cancel_pending: bool,
}

/// What the sweeper becomes on `e`, and what it asks for. A tick while idle starts a
/// sweep; a finished sweep returns to idle, or stops if a cancellation came meanwhile;
/// a cancellation stops an idle sweeper at once and lets an in-flight sweep finish;
/// a stopped sweeper stays stopped.
pub open spec fn transition(s: RetentionSweeper, e: SweeperEvent) -> (RetentionSweeper, SweeperAction) {
    match (s.state, e) {
        (SweeperState::Stopped, _) => (s, SweeperAction::Exit),
        (SweeperState::Idle, SweeperEvent::TimerFired) => (
            RetentionSweeper { state: SweeperState::Sweeping, ..s },
            SweeperAction::Sweep(s.threshold),
        ),
        (SweeperState::Idle, SweeperEvent::SweepDone) => (s, SweeperAction::Wait),
        (SweeperState::Idle, SweeperEvent::Cancel) => (
            RetentionSweeper { state: SweeperState::Stopped, ..s },
            SweeperAction::Exit,
        ),
        (SweeperState::Sweeping, SweeperEvent::TimerFired) => (s, SweeperAction::Continue),
        (SweeperState::Sweeping, SweeperEvent::SweepDone) => if s.cancel_pending {
            (
                RetentionSweeper { state: SweeperState::Stopped, cancel_pending: false, ..s },
                SweeperAction::Exit,
            )
        } else {
            (RetentionSweeper { state: SweeperState::Idle, ..s }, SweeperAction::Wait)
        },
        (SweeperState::Sweeping, SweeperEvent::Cancel) => (
            RetentionSweeper { cancel_pending: true, ..s },
            SweeperAction::Continue,
        ),
    }
}

impl RetentionSweeper {
    /// An idle sweeper that keeps `threshold` logs per account and keyword.
    pub fn new(threshold: usize) -> (r: RetentionSweeper)
        ensures
            r.state == SweeperState::Idle,
            r.threshold == threshold,
            !r.cancel_pending,
    {
        RetentionSweeper { state: SweeperState::Idle, threshold, cancel_pending: false }
    }

    /// Takes the event `e` and says what to do next.
    pub fn step(&mut self, e: SweeperEvent) -> (r: SweeperAction)
        ensures
            (*final(self), r) == transition(*old(self), e),
    {
        match (self.state, e) {
            (SweeperState::Stopped, _) => SweeperAction::Exit,
            (SweeperState::Idle, SweeperEvent::TimerFired) => {
                self.state = SweeperState::Sweeping;
                SweeperAction::Sweep(self.threshold)
            },
            (SweeperState::Idle, SweeperEvent::SweepDone) => SweeperAction::Wait,
            (SweeperState::Idle, SweeperEvent::Cancel) => {
                self.state = SweeperState::Stopped;
                SweeperAction::Exit
            },
            (SweeperState::Sweeping, SweeperEvent::TimerFired) => SweeperAction::Continue,
            (SweeperState::Sweeping, SweeperEvent::SweepDone) => {
                if self.cancel_pending {
                    self.state = SweeperState::Stopped;
                    self.cancel_pending = false;
                    SweeperAction::Exit
                } else {
                    self.state = SweeperState::Idle;
                    SweeperAction::Wait
                }
            },
            (SweeperState::Sweeping, SweeperEvent::Cancel) => {
                self.cancel_pending = true;
                SweeperAction::Continue
            },
        }
    }
}

} // verus!
