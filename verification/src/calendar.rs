use vstd::prelude::*;

verus! {

use crate::state::LAST_DAY;
use crate::state::Puzzle;

/// Completion flags of one puzzle: one boolean per sub-part.
#[derive(Clone, Copy, PartialEq, Eq, Structural, Debug)]
pub struct DayState {
    pub puzzle1_completed: bool,
    pub puzzle2_completed: bool,
}

/// Whether `rec` marks the given sub-part of puzzle `day` as done.
pub open spec fn done_in(rec: Seq<DayState>, day: int, puzzle: Puzzle) -> bool {
    match puzzle {
        Puzzle::Part1 => rec[day - 1].puzzle1_completed,
        Puzzle::Part2 => rec[day - 1].puzzle2_completed,
    }
}

/// The record `rec` with the given sub-part of puzzle `day` marked done and
/// every other bit untouched.
pub open spec fn spec_pass(rec: Seq<DayState>, day: int, puzzle: Puzzle) -> Seq<DayState> {
    let entry = rec[day - 1];
    let marked = match puzzle {
        Puzzle::Part1 => DayState { puzzle1_completed: true, puzzle2_completed: entry.puzzle2_completed },
        Puzzle::Part2 => DayState { puzzle1_completed: entry.puzzle1_completed, puzzle2_completed: true },
    };
    rec.update(day - 1, marked)
}

/// The durable record of which (puzzle, sub-part) pairs have been verified
/// correct: one entry per real puzzle, indexed by identifier minus one.
/// Bits are only ever set by `pass`, never cleared.
pub struct CalendarState {
    days: Vec<DayState>,
}

impl View for CalendarState {
    type V = Seq<DayState>;

    closed spec fn view(&self) -> Seq<DayState> {
        self.days@
    }
}

impl CalendarState {
    /// One entry per real puzzle.
    pub open spec fn wf(self) -> bool {
        self@.len() == LAST_DAY
    }

    /// A fresh record: no sub-part of any puzzle is done.
    pub fn new() -> (r: Self)
        ensures
            r.wf(),
            forall|d: int, p: Puzzle| 1 <= d <= LAST_DAY ==> !done_in(r@, d, p),
    {
        let mut days: Vec<DayState> = Vec::new();
        let mut i: usize = 0;
        while i < LAST_DAY as usize
            invariant
                i <= LAST_DAY,
                days@.len() == i,
                forall|j: int| 0 <= j < i ==> !days@[j].puzzle1_completed && !days@[j].puzzle2_completed,
            decreases LAST_DAY - i,
        {
            days.push(DayState { puzzle1_completed: false, puzzle2_completed: false });
            i += 1;
        }
        CalendarState { days }
    }

    /// Rebuild a record from its 25 entries, as read back from the store.
    pub fn from_entries(entries: Vec<DayState>) -> (r: Self)
        requires
            entries@.len() == LAST_DAY,
        ensures
            r.wf(),
            r@ == entries@,
    {
        CalendarState { days: entries }
    }

    /// Whether the given sub-part of puzzle `day` is recorded as done.
    pub fn done(&self, day: u8, puzzle: Puzzle) -> (r: bool)
        requires
            self.wf(),
            1 <= day <= LAST_DAY,
        ensures
            r == done_in(self@, day as int, puzzle),
    {
        let entry = self.days[(day - 1) as usize];
        match puzzle {
            Puzzle::Part1 => entry.puzzle1_completed,
            Puzzle::Part2 => entry.puzzle2_completed,
        }
    }

    /// Record that the given sub-part of puzzle `day` has been verified
    /// correct. Every other bit keeps its value, so the record only grows.
    pub fn pass(&mut self, day: u8, puzzle: Puzzle)
        requires
            old(self).wf(),
            1 <= day <= LAST_DAY,
        ensures
            final(self).wf(),
            final(self)@ == spec_pass(old(self)@, day as int, puzzle),
            done_in(final(self)@, day as int, puzzle),
            forall|d: int, p: Puzzle|
                1 <= d <= LAST_DAY && !(d == day && p == puzzle)
                    ==> done_in(final(self)@, d, p) == done_in(old(self)@, d, p),
    {
        let idx = (day - 1) as usize;
        let entry = self.days[idx];
        let marked = match puzzle {
            Puzzle::Part1 => DayState { puzzle1_completed: true, puzzle2_completed: entry.puzzle2_completed },
            Puzzle::Part2 => DayState { puzzle1_completed: entry.puzzle1_completed, puzzle2_completed: true },
        };
        self.days[idx] = marked;
    }

    /// The record's entries, for hand-off to a persistence layer.
    pub fn entries(&self) -> (r: Vec<DayState>)
        requires
            self.wf(),
        ensures
            r@ == self@,
    {
        let mut out: Vec<DayState> = Vec::new();
        let mut i: usize = 0;
        while i < self.days.len()
            invariant
                i <= self.days@.len(),
                out@ == self.days@.subrange(0, i as int),
            decreases self.days@.len() - i,
        {
            out.push(self.days[i]);
            i += 1;
        }
        proof {
            assert(out@ =~= self.days@);
        }
        out
    }
}

/// Marking a pair done a second time leaves the record exactly as the first
/// marking left it: re-verification cannot flip or extend anything.
pub proof fn lemma_pass_idempotent(rec: Seq<DayState>, day: int, puzzle: Puzzle)
    requires
        1 <= day <= rec.len(),
    ensures
        spec_pass(spec_pass(rec, day, puzzle), day, puzzle) == spec_pass(rec, day, puzzle),
{
    assert(spec_pass(spec_pass(rec, day, puzzle), day, puzzle) =~= spec_pass(rec, day, puzzle));
}

/// Re-marking a pair that is already done leaves the record exactly as it
/// was: a repeated correct verification cannot flip anything.
pub proof fn lemma_pass_already_done(rec: Seq<DayState>, day: int, puzzle: Puzzle)
    requires
        1 <= day <= rec.len(),
        done_in(rec, day, puzzle),
    ensures
        spec_pass(rec, day, puzzle) == rec,
{
    assert(spec_pass(rec, day, puzzle) =~= rec);
}

/// Completion bits are monotonic: whatever was done before a `pass` is still
/// done after it, whichever pair the `pass` concerned.
pub proof fn lemma_pass_monotonic(rec: Seq<DayState>, day: int, puzzle: Puzzle, d: int, p: Puzzle)
    requires
        1 <= day <= rec.len(),
        1 <= d <= rec.len(),
        done_in(rec, d, p),
    ensures
        done_in(spec_pass(rec, day, puzzle), d, p),
{
}

} // verus!
