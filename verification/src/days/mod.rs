//! The per-puzzle solver modules and their static registration: a compute
//! request for a puzzle reaches exactly the solver registered for that
//! identifier, established once and never re-negotiated at runtime.

pub mod day03;

use vstd::prelude::*;

verus! {

use crate::book_keeping::CurrentDayRaw;
use crate::book_keeping::Submit;
use crate::days::day03::SLOT_COUNT;
use crate::days::day03::all_nonempty;
use crate::days::day03::banks_view;
use crate::days::day03::parse_banks;
use crate::days::day03::total_k;
use crate::days::day03::total_two;
use crate::state::Day;

/// The identifier whose solver lives in this crate.
pub const VERIFIED_SOLVER_DAY: u8 = 3;

/// The submissions the solver registered for puzzle 3 produces from its
/// raw input: a part-one total where every bank is nonempty and the total
/// fits, and a part-two total where that total fits; an undefined or
/// oversized part is simply not submitted.
pub open spec fn day03_submissions(text: Seq<char>) -> Seq<Submit> {
    let banks = parse_banks(text);
    let part1 = if all_nonempty(banks) && total_two(banks) <= u64::MAX {
        seq![Submit::Part1(total_two(banks) as u64)]
    } else {
        Seq::empty()
    };
    let part2 = if total_k(banks, SLOT_COUNT as int) <= u64::MAX {
        seq![Submit::Part2(total_k(banks, SLOT_COUNT as int) as u64)]
    } else {
        Seq::empty()
    };
    part1 + part2
}

/// React to a compute request: run the solver registered for the active
/// puzzle on its freshly loaded raw input and collect the submissions it
/// emits, zero, one or two of them. Only puzzle 3's solver is part of this
/// crate; a request for any other puzzle finds no registered solver here
/// and yields no submissions.
pub fn dispatch_compute(day: Day, raw: &CurrentDayRaw) -> (r: Vec<Submit>)
    ensures
        day.0 == VERIFIED_SOLVER_DAY ==> r@ == day03_submissions(raw.0@),
        day.0 != VERIFIED_SOLVER_DAY ==> r@.len() == 0,
{
    let mut out: Vec<Submit> = Vec::new();
    if day.day() == VERIFIED_SOLVER_DAY {
        let banks = day03::parse_input(raw.0.as_str());
        match day03::solve_part1(&banks) {
            Some(v) => out.push(Submit::Part1(v)),
            None => (),
        }
        match day03::solve_part2(&banks) {
            Some(v) => out.push(Submit::Part2(v)),
            None => (),
        }
        proof {
            assert(banks_view(banks@) == parse_banks(raw.0@));
            assert(out@ =~= day03_submissions(raw.0@));
        }
    }
    out
}

} // verus!
