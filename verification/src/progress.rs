//! What the core tells the interface or the terminal. The core does not
//! know which of the two listens.

use vstd::prelude::*;

use crate::diag::CrashSummary;

verus! {

/// One event of the core.
#[derive(Clone, Debug)]
pub enum Event {
    /// A new step begins ("java", "minecraft", "pack"...).
    Stage { id: String, label: String },
    /// Progress of the current step. `total = 0`: unknown length.
    Progress { done: u64, total: u64 },
    /// A line for the launcher's log.
    Log { line: String },
    /// Game start-up: a milestone reached, and the estimate from the
    /// previous launch (`expected_ms` = expected total length, 0 if unknown).
    Milestone { index: usize, count: usize, label: String, elapsed_ms: u64, expected_ms: u64 },
    /// The game is at its menu.
    GameReady { elapsed_ms: u64 },
    /// The graphics driver slows the whole game down.
    GpuWarning { renderer: String, advice: String },
    /// The game stopped.
    GameExited { code: Option<i32>, crash: Option<CrashSummary> },
}

/// Where the core's events go.
pub trait Reporter {
    fn send(&self, event: Event);

    fn stage(&self, id: &str, label: &str) {
        self.send(Event::Stage { id: id.to_owned(), label: label.to_owned() });
    }

    fn progress(&self, done: u64, total: u64) {
        self.send(Event::Progress { done, total });
    }

    fn log(&self, line: &str) {
        self.send(Event::Log { line: line.to_owned() });
    }
}

} // verus!
