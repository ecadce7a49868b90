use advent_engine::book_keeping::CurrentDayRaw;
use advent_engine::book_keeping::Submit;
use advent_engine::days::day03::Bank;
use advent_engine::days::day03::Battery;
use advent_engine::days::day03::parse_input;
use advent_engine::days::day03::solve_part1;
use advent_engine::days::day03::solve_part2;
use advent_engine::days::dispatch_compute;
use advent_engine::Day;

fn bank(levels: &[u8]) -> Bank {
    let cells = levels
        .iter()
        .map(|l| match l {
            1 => Battery::P1,
            2 => Battery::P2,
            3 => Battery::P3,
            4 => Battery::P4,
            5 => Battery::P5,
            6 => Battery::P6,
            7 => Battery::P7,
            8 => Battery::P8,
            9 => Battery::P9,
            _ => panic!("level out of range"),
        })
        .collect();
    Bank(cells)
}

#[test]
fn battery_levels() {
    assert_eq!(Battery::P1.level(), 1);
    assert_eq!(Battery::P5.level(), 5);
    assert_eq!(Battery::P9.level(), 9);
}

#[test]
fn max_two_digit_prefers_late_equal_tens() {
    // The last cell can only ever be the units digit, so the tens digit
    // comes from {9, 1} and the units search restarts after the first 9.
    assert_eq!(bank(&[9, 1, 9]).max_two_digit(), 99);
}

#[test]
fn max_two_digit_examples() {
    assert_eq!(bank(&[3, 7, 2]).max_two_digit(), 72);
    assert_eq!(bank(&[1, 2, 3]).max_two_digit(), 23);
    assert_eq!(bank(&[9, 8, 7]).max_two_digit(), 98);
    assert_eq!(bank(&[2, 9]).max_two_digit(), 29);
    assert_eq!(bank(&[5]).max_two_digit(), 5);
    assert_eq!(bank(&[1, 1, 1]).max_two_digit(), 11);
}

#[test]
fn max_k_digit_examples() {
    assert_eq!(bank(&[1, 2, 3]).max_k_digit(2), 23);
    assert_eq!(bank(&[9, 2, 1]).max_k_digit(2), 92);
    assert_eq!(bank(&[5]).max_k_digit(3), 5);
}

#[test]
fn max_k_digit_keeps_subsequence_order() {
    assert_eq!(bank(&[5, 9]).max_k_digit(2), 59);
    assert_eq!(bank(&[9, 5]).max_k_digit(2), 95);
    assert_eq!(bank(&[2, 9, 1]).max_k_digit(2), 91);
    assert_eq!(bank(&[3, 1, 4, 1, 5, 9, 2, 6]).max_k_digit(3), 926);
}

#[test]
fn max_k_digit_long_bank_keeps_a_best_twelve() {
    assert_eq!(bank(&[9; 13]).max_k_digit(12), 999_999_999_999);
    // A small leading cell is dropped in favour of the later larger ones.
    assert_eq!(bank(&[1, 9, 9, 9, 9, 9, 9, 9, 9, 9, 9, 9, 9]).max_k_digit(12), 999_999_999_999);
}

#[test]
fn max_k_digit_short_bank_has_leading_zero_slots() {
    assert_eq!(bank(&[1, 2]).max_k_digit(12), 12);
    assert_eq!(bank(&[3, 7, 2]).max_k_digit(12), 372);
    assert_eq!(bank(&[]).max_k_digit(12), 0);
    assert_eq!(bank(&[7]).max_k_digit(0), 0);
}

#[test]
fn parse_splits_lines_and_skips_other_characters() {
    let banks = parse_input("372\n919");
    assert_eq!(banks.len(), 2);
    assert_eq!(banks[0].0, vec![Battery::P3, Battery::P7, Battery::P2]);
    assert_eq!(banks[1].0, vec![Battery::P9, Battery::P1, Battery::P9]);

    let banks = parse_input("3a7 0x2\r\n9-19\n");
    assert_eq!(banks.len(), 2);
    assert_eq!(banks[0].0, vec![Battery::P3, Battery::P7, Battery::P2]);
    assert_eq!(banks[1].0, vec![Battery::P9, Battery::P1, Battery::P9]);
}

#[test]
fn parse_edge_cases() {
    assert_eq!(parse_input("").len(), 0);
    let lone_newline = parse_input("\n");
    assert_eq!(lone_newline.len(), 1);
    assert!(lone_newline[0].0.is_empty());
    let trailing = parse_input("12\n");
    assert_eq!(trailing.len(), 1);
    assert_eq!(trailing[0].0, vec![Battery::P1, Battery::P2]);
}

#[test]
fn solve_part1_sums_best_pairs() {
    let banks = vec![bank(&[3, 7, 2]), bank(&[9, 1, 9])];
    assert_eq!(solve_part1(&banks), Some(72 + 99));
    assert_eq!(solve_part1(&Vec::new()), Some(0));
}

#[test]
fn solve_part1_rejects_an_empty_bank() {
    let banks = vec![bank(&[3, 7, 2]), bank(&[])];
    assert_eq!(solve_part1(&banks), None);
}

#[test]
fn solve_part2_sums_slot_values() {
    let banks = vec![bank(&[3, 7, 2]), bank(&[9, 1, 9])];
    assert_eq!(solve_part2(&banks), Some(372 + 919));
    assert_eq!(solve_part2(&vec![bank(&[])]), Some(0));
}

#[test]
fn dispatch_reaches_only_the_registered_solver() {
    let raw = CurrentDayRaw("372\n919".to_string());
    let submissions = dispatch_compute(Day(3), &raw);
    assert_eq!(submissions, vec![Submit::Part1(171), Submit::Part2(1291)]);

    for id in [0u8, 1, 2, 4, 25] {
        assert_eq!(dispatch_compute(Day(id), &raw).len(), 0);
    }
}

#[test]
fn dispatch_omits_an_undefined_part() {
    // An empty line leaves part one undefined; part two is still submitted.
    let raw = CurrentDayRaw("372\n\n919".to_string());
    let submissions = dispatch_compute(Day(3), &raw);
    assert_eq!(submissions, vec![Submit::Part2(1291)]);
}
