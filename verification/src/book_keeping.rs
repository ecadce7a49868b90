use vstd::prelude::*;

verus! {

use crate::calendar::CalendarState;
use crate::calendar::done_in;
use crate::calendar::spec_pass;
use crate::state::Day;
use crate::state::LAST_DAY;
use crate::state::Puzzle;

/// The raw textual input of one puzzle, owned by the input provider until it
/// is handed to the active solver; it is discarded whenever the puzzle goes
/// inactive.
#[derive(Clone, Debug)]
pub struct CurrentDayRaw(pub String);

/// The persisted cosmetic shuffle seed. It plays no role in verification or
/// completion; it only has to survive restarts once drawn.
#[derive(Clone, Copy, PartialEq, Eq, Structural, Debug)]
pub struct Seed(pub u64);

/// Relies on rand::random for a fresh draw from the thread-local generator.
/// Nothing is promised of the value.
#[verifier::external_body]
fn random_seed() -> u64 {
    rand::random::<u64>()
}

impl Seed {
    /// The session's seed: the stored one where the store held one, else a
    /// fresh random draw. The second component is true exactly when the store
    /// held none, in which case the returned seed must now be persisted.
    pub fn obtain(stored: Option<u64>) -> (r: (Seed, bool))
        ensures
            stored matches Some(s) ==> r == (Seed(s), false),
            stored is None ==> r.1,
    {
        match stored {
            Some(s) => (Seed(s), false),
            None => (Seed(random_seed()), true),
        }
    }
}

/// Position of a sub-part within a puzzle's pair of ledger slots.
pub open spec fn puzzle_index(p: Puzzle) -> int {
    match p {
        Puzzle::Part1 => 0,
        Puzzle::Part2 => 1,
    }
}

/// How a submitted value compares against the expected answer.
#[derive(Clone, Copy, PartialEq, Eq, Structural, Debug)]
pub enum VerificationOutcome {
    /// The submitted value equals the expected answer.
    Correct,
    /// The expected answer is greater than the submitted value.
    TooLow,
    /// The expected answer is less than the submitted value.
    TooHigh,
    /// No expected answer is configured for this (puzzle, sub-part).
    Unknown,
}

/// The outcome of comparing `answer` against the ledger entry `expected`.
pub open spec fn spec_check(expected: Option<u64>, answer: u64) -> VerificationOutcome {
    match expected {
        None => VerificationOutcome::Unknown,
        Some(correct) => if correct == answer {
            VerificationOutcome::Correct
        } else if correct < answer {
            VerificationOutcome::TooHigh
        } else {
            VerificationOutcome::TooLow
        },
    }
}

/// The answer ledger: the expected answer, where one is known, of each
/// (puzzle, sub-part) pair. Populated at startup, read-only afterwards.
/// A missing entry is a legitimate state, not an error.
pub struct Anwsers {
    anwsers: Vec<Option<u64>>,
}

impl Anwsers {
    /// Two slots per identifier, sentinel included.
    pub closed spec fn wf(self) -> bool {
        self.anwsers@.len() == 2 * (LAST_DAY + 1)
    }

    /// The ledger entry of the given (puzzle, sub-part) pair.
    pub closed spec fn spec_expected(self, day: int, puzzle: Puzzle) -> Option<u64> {
        self.anwsers@[2 * day + puzzle_index(puzzle)]
    }

    /// An empty ledger: no pair has a known answer.
    pub fn new() -> (r: Self)
        ensures
            r.wf(),
            forall|d: int, p: Puzzle| 0 <= d <= LAST_DAY ==> r.spec_expected(d, p) is None,
    {
        let mut anwsers: Vec<Option<u64>> = Vec::new();
        let n: usize = 2 * (LAST_DAY as usize + 1);
        let mut i: usize = 0;
        while i < n
            invariant
                n == 2 * (LAST_DAY + 1),
                i <= n,
                anwsers@.len() == i,
                forall|j: int| 0 <= j < i ==> anwsers@[j] is None,
            decreases n - i,
        {
            anwsers.push(None);
            i += 1;
        }
        Anwsers { anwsers }
    }

    /// Record the expected answer of one (puzzle, sub-part) pair, leaving
    /// every other entry unchanged.
    pub fn add(&mut self, day: usize, puzzle: Puzzle, answer: u64)
        requires
            old(self).wf(),
            day <= LAST_DAY,
        ensures
            final(self).wf(),
            final(self).spec_expected(day as int, puzzle) == Some(answer),
            forall|d: int, p: Puzzle|
                0 <= d <= LAST_DAY && !(d == day && p == puzzle)
                    ==> final(self).spec_expected(d, p) == old(self).spec_expected(d, p),
    {
        let idx = match puzzle {
            Puzzle::Part1 => 2 * day,
            Puzzle::Part2 => 2 * day + 1,
        };
        self.anwsers[idx] = Some(answer);
    }

    /// Compare a submitted value against the expected answer of the pair:
    /// `Unknown` where no answer is configured, otherwise `Correct`,
    /// `TooHigh` or `TooLow` by a plain comparison. Pure: the ledger is
    /// never changed by a check.
    pub fn check(&self, day: usize, puzzle: Puzzle, answer: u64) -> (r: VerificationOutcome)
        requires
            self.wf(),
            day <= LAST_DAY,
        ensures
            r == spec_check(self.spec_expected(day as int, puzzle), answer),
    {
        let idx = match puzzle {
            Puzzle::Part1 => 2 * day,
            Puzzle::Part2 => 2 * day + 1,
        };
        match self.anwsers[idx] {
            None => VerificationOutcome::Unknown,
            Some(correct) => if correct == answer {
                VerificationOutcome::Correct
            } else if correct < answer {
                VerificationOutcome::TooHigh
            } else {
                VerificationOutcome::TooLow
            },
        }
    }
}

/// Verification is a pure observation: the outcome depends on nothing but
/// the ledger entry of the pair and the submitted value, so two ledgers that
/// agree on a pair's entry classify every submission for it alike.
pub proof fn lemma_check_pure(a: Anwsers, b: Anwsers, day: int, puzzle: Puzzle, answer: u64)
    requires
        a.spec_expected(day, puzzle) == b.spec_expected(day, puzzle),
    ensures
        spec_check(a.spec_expected(day, puzzle), answer)
            == spec_check(b.spec_expected(day, puzzle), answer),
{
}

/// A result emitted by a solver for the active puzzle: the value it computed
/// for one of the two sub-parts.
#[derive(Clone, Copy, PartialEq, Eq, Structural, Debug)]
pub enum Submit {
    Part1(u64),
    Part2(u64),
}

impl Submit {
    /// The sub-part this submission is for.
    pub open spec fn puzzle(self) -> Puzzle {
        match self {
            Submit::Part1(_) => Puzzle::Part1,
            Submit::Part2(_) => Puzzle::Part2,
        }
    }

    /// The submitted value.
    pub open spec fn value(self) -> u64 {
        match self {
            Submit::Part1(v) => v,
            Submit::Part2(v) => v,
        }
    }
}

/// The per-session lifecycle state: which puzzle is active, its raw input,
/// and which sub-parts have already been submitted in this activation.
///
/// At most one puzzle is active at a time; the raw input is held exactly
/// while its puzzle is active; submission marks never survive a transition.
pub struct Session {
    day: Day,
    raw: Option<CurrentDayRaw>,
    part1_submitted: bool,
    part2_submitted: bool,
}

impl Session {
    /// The active puzzle; `Day(0)` means idle.
    pub closed spec fn active(self) -> Day {
        self.day
    }

    /// The raw input held for the active puzzle, as text.
    pub closed spec fn raw_input(self) -> Option<Seq<char>> {
        match self.raw {
            Some(r) => Some(r.0@),
            None => None,
        }
    }

    /// Whether this sub-part was already submitted in the current activation.
    pub closed spec fn submitted(self, puzzle: Puzzle) -> bool {
        match puzzle {
            Puzzle::Part1 => self.part1_submitted,
            Puzzle::Part2 => self.part2_submitted,
        }
    }

    /// The session invariant: the identifier is in range, raw input exists
    /// exactly while a puzzle is active, and an idle session holds no
    /// submission marks.
    pub open spec fn wf(self) -> bool {
        &&& self.active().valid()
        &&& self.active().0 == 0 ==> {
            &&& self.raw_input() is None
            &&& !self.submitted(Puzzle::Part1)
            &&& !self.submitted(Puzzle::Part2)
        }
        &&& self.active().0 != 0 ==> self.raw_input() is Some
    }

    /// A fresh, idle session.
    pub fn new() -> (r: Self)
        ensures
            r.wf(),
            r.active() == Day(0),
            r.raw_input() is None,
            !r.submitted(Puzzle::Part1),
            !r.submitted(Puzzle::Part2),
    {
        Session { day: Day(0), raw: None, part1_submitted: false, part2_submitted: false }
    }

    pub fn active_day(&self) -> (r: Day)
        ensures
            r == self.active(),
    {
        self.day
    }

    /// The raw input held for the active puzzle, for hand-off to its solver.
    pub fn raw(&self) -> (r: &Option<CurrentDayRaw>)
        ensures
            (*r) is Some <==> self.raw_input() is Some,
            (*r) matches Some(c) ==> self.raw_input() == Some(c.0@),
    {
        &self.raw
    }

    pub fn was_submitted(&self, puzzle: Puzzle) -> (r: bool)
        ensures
            r == self.submitted(puzzle),
    {
        match puzzle {
            Puzzle::Part1 => self.part1_submitted,
            Puzzle::Part2 => self.part2_submitted,
        }
    }
}

/// What a selection transition did.
#[derive(Clone, Copy, PartialEq, Eq, Structural, Debug)]
pub enum SelectOutcome {
    /// The sentinel was selected: the session is idle.
    EnteredIdle,
    /// The puzzle was entered with its input loaded; computation for it has
    /// been requested (exactly once per entry, by this very outcome).
    EnteredActive(Day),
    /// The input provider had nothing for this puzzle: the session fell back
    /// to idle and the failure is reported. No computation was requested.
    LoadFailed(Day),
}

/// The one external operation of the lifecycle state machine: select puzzle
/// `target`, with `loaded` being what the input provider returned for it
/// (ignored for the sentinel). Any prior activation is fully exited first:
/// its raw input and its submission marks are discarded before the new state
/// is entered, so no two puzzles' data ever coexist.
///
/// Re-selecting the already active puzzle is not a no-op: it re-enters the
/// puzzle with the freshly loaded input and a clean submission slate.
pub fn update_day(session: &mut Session, target: Day, loaded: Option<CurrentDayRaw>) -> (r:
    SelectOutcome)
    requires
        old(session).wf(),
        target.valid(),
    ensures
        final(session).wf(),
        !final(session).submitted(Puzzle::Part1),
        !final(session).submitted(Puzzle::Part2),
        target.0 == 0 ==> {
            &&& final(session).active() == Day(0)
            &&& final(session).raw_input() is None
            &&& r == SelectOutcome::EnteredIdle
        },
        loaded matches Some(l) ==> (target.0 != 0 ==> {
            &&& final(session).active() == target
            &&& final(session).raw_input() == Some(l.0@)
            &&& r == SelectOutcome::EnteredActive(target)
        }),
        target.0 != 0 && loaded is None ==> {
            &&& final(session).active() == Day(0)
            &&& final(session).raw_input() is None
            &&& r == SelectOutcome::LoadFailed(target)
        },
{
    session.day = Day(0);
    session.raw = None;
    session.part1_submitted = false;
    session.part2_submitted = false;
    if target.0 == 0 {
        SelectOutcome::EnteredIdle
    } else {
        match loaded {
            Some(data) => {
                session.day = target;
                session.raw = Some(data);
                SelectOutcome::EnteredActive(target)
            },
            None => SelectOutcome::LoadFailed(target),
        }
    }
}

/// Whether a submission is accepted by the protocol: some puzzle is active,
/// the submission names that very puzzle, and its sub-part has not been
/// submitted yet in this activation.
pub open spec fn accepts(session: Session, for_day: Day, submition: Submit) -> bool {
    &&& session.active().0 != 0
    &&& for_day == session.active()
    &&& !session.submitted(submition.puzzle())
}

/// How the engine answered a submission.
#[derive(Clone, Copy, PartialEq, Eq, Structural, Debug)]
pub enum SubmitOutcome {
    /// The submission was accepted and compared against the ledger. On
    /// `Correct` the completion record has been updated and must be
    /// persisted immediately by the caller.
    Verified(VerificationOutcome),
    /// Protocol violation: the named puzzle is not the active one (or none
    /// is active). The submission is discarded.
    NotActive(Day),
    /// Protocol violation: this sub-part was already submitted in the
    /// current activation. The late submission is discarded and cannot
    /// overwrite the earlier result.
    Duplicate(Day, Puzzle),
}

/// Verify one solver submission, claimed to be for puzzle `for_day`,
/// against the ledger, and on a correct answer mark the pair done in the
/// completion record. A rejected submission changes nothing.
pub fn submit_answers(
    session: &mut Session,
    answers: &Anwsers,
    state: &mut CalendarState,
    for_day: Day,
    submition: Submit,
) -> (r: SubmitOutcome)
    requires
        old(session).wf(),
        answers.wf(),
        old(state).wf(),
    ensures
        final(session).wf(),
        final(state).wf(),
        final(session).active() == old(session).active(),
        final(session).raw_input() == old(session).raw_input(),
        !accepts(*old(session), for_day, submition) ==> {
            &&& final(state)@ == old(state)@
            &&& *final(session) == *old(session)
        },
        old(session).active().0 == 0 || for_day != old(session).active()
            ==> r == SubmitOutcome::NotActive(for_day),
        old(session).active().0 != 0 && for_day == old(session).active()
            && old(session).submitted(submition.puzzle())
            ==> r == SubmitOutcome::Duplicate(for_day, submition.puzzle()),
        accepts(*old(session), for_day, submition) ==> {
            &&& r == SubmitOutcome::Verified(
                spec_check(
                    answers.spec_expected(for_day.0 as int, submition.puzzle()),
                    submition.value(),
                ),
            )
            &&& final(session).submitted(submition.puzzle())
            &&& forall|p: Puzzle|
                p != submition.puzzle()
                    ==> final(session).submitted(p) == old(session).submitted(p)
        },
        accepts(*old(session), for_day, submition)
            && spec_check(answers.spec_expected(for_day.0 as int, submition.puzzle()), submition.value())
                == VerificationOutcome::Correct
            ==> final(state)@ == spec_pass(old(state)@, for_day.0 as int, submition.puzzle()),
        accepts(*old(session), for_day, submition)
            && spec_check(answers.spec_expected(for_day.0 as int, submition.puzzle()), submition.value())
                != VerificationOutcome::Correct
            ==> final(state)@ == old(state)@,
{
    if session.day.0 == 0 || for_day.0 != session.day.0 {
        return SubmitOutcome::NotActive(for_day);
    }
    let puzzle = match submition {
        Submit::Part1(_) => Puzzle::Part1,
        Submit::Part2(_) => Puzzle::Part2,
    };
    let value = match submition {
        Submit::Part1(v) => v,
        Submit::Part2(v) => v,
    };
    let already = match puzzle {
        Puzzle::Part1 => session.part1_submitted,
        Puzzle::Part2 => session.part2_submitted,
    };
    if already {
        return SubmitOutcome::Duplicate(for_day, puzzle);
    }
    match puzzle {
        Puzzle::Part1 => session.part1_submitted = true,
        Puzzle::Part2 => session.part2_submitted = true,
    }
    let outcome = answers.check(session.day.0 as usize, puzzle, value);
    if outcome == VerificationOutcome::Correct {
        state.pass(session.day.0, puzzle);
    }
    SubmitOutcome::Verified(outcome)
}

} // verus!
