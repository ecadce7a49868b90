use vstd::prelude::*;

verus! {

/// Greatest identifier of a real puzzle; identifiers run from 1 to this bound,
/// and 0 stands for "no puzzle selected".
pub const LAST_DAY: u8 = 25;

/// One of the two scored components of a puzzle. The set is closed: every
/// puzzle has exactly these two sub-results and no others.
#[derive(Clone, Copy, PartialEq, Eq, Structural, Debug, Hash)]
pub enum Puzzle {
    Part1,
    Part2,
}

impl Default for Puzzle {
    fn default() -> (r: Self)
        ensures
            r == Puzzle::Part1,
    {
        Puzzle::Part1
    }
}

/// A puzzle identifier. `Day(0)` is the sentinel for "no puzzle selected";
/// `Day(1)` through `Day(LAST_DAY)` name the real puzzles.
#[derive(Clone, Copy, PartialEq, Eq, Structural, Debug, Hash)]
pub struct Day(pub u8);

impl Day {
    /// The identifier lies in the range the engine accepts.
    pub open spec fn valid(self) -> bool {
        self.0 <= LAST_DAY
    }

    pub fn day(&self) -> (r: u8)
        ensures
            r == self.0,
    {
        self.0
    }
}

impl Default for Day {
    fn default() -> (r: Self)
        ensures
            r == Day(0),
    {
        Day(0)
    }
}

} // verus!
