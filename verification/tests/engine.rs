use advent_engine::book_keeping::Anwsers;
use advent_engine::book_keeping::CurrentDayRaw;
use advent_engine::book_keeping::Seed;
use advent_engine::book_keeping::SelectOutcome;
use advent_engine::book_keeping::Session;
use advent_engine::book_keeping::Submit;
use advent_engine::book_keeping::SubmitOutcome;
use advent_engine::book_keeping::VerificationOutcome;
use advent_engine::book_keeping::submit_answers;
use advent_engine::book_keeping::update_day;
use advent_engine::calendar::CalendarState;
use advent_engine::Day;
use advent_engine::PKVKeys;
use advent_engine::Puzzle;

fn raw(text: &str) -> Option<CurrentDayRaw> {
    Some(CurrentDayRaw(text.to_string()))
}

#[test]
fn select_sentinel_from_active_discards_input() {
    let mut session = Session::new();
    let outcome = update_day(&mut session, Day(5), raw("input for five"));
    assert_eq!(outcome, SelectOutcome::EnteredActive(Day(5)));
    assert_eq!(session.active_day(), Day(5));
    assert!(session.raw().is_some());

    let outcome = update_day(&mut session, Day(0), None);
    assert_eq!(outcome, SelectOutcome::EnteredIdle);
    assert_eq!(session.active_day(), Day(0));
    assert!(session.raw().is_none());
}

#[test]
fn select_sentinel_succeeds_from_every_puzzle() {
    for id in 1..=25u8 {
        let mut session = Session::new();
        assert_eq!(
            update_day(&mut session, Day(id), raw("text")),
            SelectOutcome::EnteredActive(Day(id))
        );
        assert_eq!(update_day(&mut session, Day(0), None), SelectOutcome::EnteredIdle);
        assert_eq!(session.active_day(), Day(0));
        assert!(session.raw().is_none());
    }
}

#[test]
fn load_failure_falls_back_to_idle() {
    let mut session = Session::new();
    let outcome = update_day(&mut session, Day(13), None);
    assert_eq!(outcome, SelectOutcome::LoadFailed(Day(13)));
    assert_eq!(session.active_day(), Day(0));
    assert!(session.raw().is_none());
}

#[test]
fn load_failure_leaves_an_active_puzzle() {
    let mut session = Session::new();
    update_day(&mut session, Day(4), raw("four"));
    let outcome = update_day(&mut session, Day(13), None);
    assert_eq!(outcome, SelectOutcome::LoadFailed(Day(13)));
    assert_eq!(session.active_day(), Day(0));
    assert!(session.raw().is_none());
}

#[test]
fn reselecting_active_puzzle_resets_submissions() {
    let mut session = Session::new();
    let mut answers = Anwsers::new();
    answers.add(6, Puzzle::Part1, 10);
    let mut record = CalendarState::new();

    update_day(&mut session, Day(6), raw("six"));
    let first = submit_answers(&mut session, &answers, &mut record, Day(6), Submit::Part1(10));
    assert_eq!(first, SubmitOutcome::Verified(VerificationOutcome::Correct));
    assert!(session.was_submitted(Puzzle::Part1));

    // A second submission in the same activation is a protocol violation.
    let dup = submit_answers(&mut session, &answers, &mut record, Day(6), Submit::Part1(10));
    assert_eq!(dup, SubmitOutcome::Duplicate(Day(6), Puzzle::Part1));

    // Re-selecting the same puzzle starts from scratch: the mark is gone and
    // a fresh submission is accepted again.
    let outcome = update_day(&mut session, Day(6), raw("six"));
    assert_eq!(outcome, SelectOutcome::EnteredActive(Day(6)));
    assert!(!session.was_submitted(Puzzle::Part1));
    assert!(!session.was_submitted(Puzzle::Part2));
    let again = submit_answers(&mut session, &answers, &mut record, Day(6), Submit::Part1(10));
    assert_eq!(again, SubmitOutcome::Verified(VerificationOutcome::Correct));
}

#[test]
fn check_classifies_against_expectation() {
    let mut answers = Anwsers::new();
    answers.add(1, Puzzle::Part1, 42);

    assert_eq!(answers.check(1, Puzzle::Part1, 42), VerificationOutcome::Correct);
    assert_eq!(answers.check(1, Puzzle::Part1, 50), VerificationOutcome::TooHigh);
    assert_eq!(answers.check(1, Puzzle::Part1, 30), VerificationOutcome::TooLow);
    assert_eq!(answers.check(7, Puzzle::Part2, 10), VerificationOutcome::Unknown);
}

#[test]
fn check_is_idempotent_observation() {
    let mut answers = Anwsers::new();
    answers.add(2, Puzzle::Part2, 7);
    let first = answers.check(2, Puzzle::Part2, 7);
    let second = answers.check(2, Puzzle::Part2, 7);
    assert_eq!(first, second);
    assert_eq!(first, VerificationOutcome::Correct);
}

#[test]
fn end_to_end_submission_scenario() {
    let mut session = Session::new();
    let mut answers = Anwsers::new();
    answers.add(1, Puzzle::Part1, 42);
    let mut record = CalendarState::new();

    update_day(&mut session, Day(1), raw("one"));
    let outcome = submit_answers(&mut session, &answers, &mut record, Day(1), Submit::Part1(42));
    assert_eq!(outcome, SubmitOutcome::Verified(VerificationOutcome::Correct));
    assert!(record.done(1, Puzzle::Part1));
    assert!(!record.done(1, Puzzle::Part2));

    // Wrong values report direction and leave the record alone.
    update_day(&mut session, Day(1), raw("one"));
    let high = submit_answers(&mut session, &answers, &mut record, Day(1), Submit::Part1(50));
    assert_eq!(high, SubmitOutcome::Verified(VerificationOutcome::TooHigh));
    update_day(&mut session, Day(1), raw("one"));
    let low = submit_answers(&mut session, &answers, &mut record, Day(1), Submit::Part1(30));
    assert_eq!(low, SubmitOutcome::Verified(VerificationOutcome::TooLow));
    assert!(record.done(1, Puzzle::Part1));

    // A pair without expectation stays unknown and unrecorded.
    update_day(&mut session, Day(7), raw("seven"));
    let unknown = submit_answers(&mut session, &answers, &mut record, Day(7), Submit::Part2(10));
    assert_eq!(unknown, SubmitOutcome::Verified(VerificationOutcome::Unknown));
    assert!(!record.done(7, Puzzle::Part2));
}

#[test]
fn reverification_does_not_flip_the_record() {
    let mut session = Session::new();
    let mut answers = Anwsers::new();
    answers.add(3, Puzzle::Part2, 9);
    let mut record = CalendarState::new();

    update_day(&mut session, Day(3), raw("three"));
    submit_answers(&mut session, &answers, &mut record, Day(3), Submit::Part2(9));
    let first_entries = record.entries();

    update_day(&mut session, Day(3), raw("three"));
    let second = submit_answers(&mut session, &answers, &mut record, Day(3), Submit::Part2(9));
    assert_eq!(second, SubmitOutcome::Verified(VerificationOutcome::Correct));
    assert_eq!(record.entries(), first_entries);
    assert!(record.done(3, Puzzle::Part2));
}

#[test]
fn submission_without_active_puzzle_is_rejected() {
    let mut session = Session::new();
    let answers = Anwsers::new();
    let mut record = CalendarState::new();
    let before = record.entries();

    let outcome = submit_answers(&mut session, &answers, &mut record, Day(2), Submit::Part1(5));
    assert_eq!(outcome, SubmitOutcome::NotActive(Day(2)));
    assert_eq!(record.entries(), before);
}

#[test]
fn submission_for_inactive_puzzle_is_rejected() {
    let mut session = Session::new();
    let mut answers = Anwsers::new();
    answers.add(9, Puzzle::Part1, 1);
    let mut record = CalendarState::new();

    update_day(&mut session, Day(8), raw("eight"));
    let outcome = submit_answers(&mut session, &answers, &mut record, Day(9), Submit::Part1(1));
    assert_eq!(outcome, SubmitOutcome::NotActive(Day(9)));
    assert!(!record.done(9, Puzzle::Part1));
    assert_eq!(session.active_day(), Day(8));
}

#[test]
fn completion_record_starts_empty_and_grows() {
    let mut record = CalendarState::new();
    for day in 1..=25u8 {
        assert!(!record.done(day, Puzzle::Part1));
        assert!(!record.done(day, Puzzle::Part2));
    }
    record.pass(25, Puzzle::Part2);
    assert!(record.done(25, Puzzle::Part2));
    assert!(!record.done(25, Puzzle::Part1));
    assert!(!record.done(24, Puzzle::Part2));
}

#[test]
fn completion_record_round_trips_through_entries() {
    let mut record = CalendarState::new();
    record.pass(2, Puzzle::Part1);
    record.pass(17, Puzzle::Part2);
    let stored = record.entries();
    assert_eq!(stored.len(), 25);
    let restored = CalendarState::from_entries(stored);
    assert!(restored.done(2, Puzzle::Part1));
    assert!(restored.done(17, Puzzle::Part2));
    assert!(!restored.done(2, Puzzle::Part2));
    assert!(!restored.done(3, Puzzle::Part1));
}

#[test]
fn stored_seed_is_kept_and_fresh_seed_is_persisted() {
    let (seed, persist) = Seed::obtain(Some(7));
    assert_eq!(seed, Seed(7));
    assert!(!persist);

    // With nothing stored a fresh draw must be written back.
    let (_fresh, persist) = Seed::obtain(None);
    assert!(persist);
}

#[test]
fn storage_keys_are_fixed() {
    assert_eq!(PKVKeys::CalendarState25.key(), "CalendarState25");
    assert_eq!(PKVKeys::Seed.key(), "Seed");
}

#[test]
fn day_accessor_returns_identifier() {
    assert_eq!(Day(21).day(), 21);
    assert_eq!(Day::default(), Day(0));
    assert_eq!(Puzzle::default(), Puzzle::Part1);
}
