//! Day-selectable puzzle runner core: a lifecycle state machine that tracks
//! which of 25 puzzles is active, an answer ledger that verifies submitted
//! results with directional feedback, a durable completion record, and the
//! dispatch table that hands a freshly loaded puzzle input to its solver.

mod state;
pub mod calendar;
pub mod book_keeping;
pub mod days;

use vstd::prelude::*;

pub use state::Day;
pub use state::Puzzle;
pub use state::LAST_DAY;

verus! {

/// Names of the two durable records in the persistent store: the completion
/// record for the 25 puzzles, and the cosmetic shuffle seed.
#[derive(Clone, Copy, PartialEq, Eq, Structural, Debug)]
pub enum PKVKeys {
    CalendarState25,
    Seed,
}

impl PKVKeys {
    /// The fixed storage key under which this record is persisted.
    pub fn key(&self) -> (r: String)
        ensures
            *self == PKVKeys::CalendarState25 ==> r@ == "CalendarState25"@,
            *self == PKVKeys::Seed ==> r@ == "Seed"@,
    {
        match self {
            PKVKeys::CalendarState25 => "CalendarState25".to_string(),
            PKVKeys::Seed => "Seed".to_string(),
        }
    }
}

} // verus!
