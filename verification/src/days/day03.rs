use vstd::prelude::*;

verus! {

use vstd::string::StrSliceExecFns;

/// A single battery cell with a power level from 1 to 9, one per digit
/// character of the input.
#[derive(Clone, Copy, PartialEq, Eq, Structural, Debug)]
pub enum Battery {
    P1,
    P2,
    P3,
    P4,
    P5,
    P6,
    P7,
    P8,
    P9,
}

impl Battery {
    /// The power level of this cell.
    pub open spec fn spec_level(self) -> int {
        match self {
            Battery::P1 => 1,
            Battery::P2 => 2,
            Battery::P3 => 3,
            Battery::P4 => 4,
            Battery::P5 => 5,
            Battery::P6 => 6,
            Battery::P7 => 7,
            Battery::P8 => 8,
            Battery::P9 => 9,
        }
    }

    pub fn level(&self) -> (r: usize)
        ensures
            r == self.spec_level(),
            1 <= r <= 9,
    {
        match self {
            Battery::P1 => 1,
            Battery::P2 => 2,
            Battery::P3 => 3,
            Battery::P4 => 4,
            Battery::P5 => 5,
            Battery::P6 => 6,
            Battery::P7 => 7,
            Battery::P8 => 8,
            Battery::P9 => 9,
        }
    }
}

/// One ordered bank of battery cells, parsed from one input line.
#[derive(Clone, Debug)]
pub struct Bank(pub Vec<Battery>);

/// The power levels of a sequence of cells, in order.
pub open spec fn levels_of(cells: Seq<Battery>) -> Seq<int> {
    cells.map_values(|b: Battery| b.spec_level())
}

impl Bank {
    /// The bank's cells as their power levels, in order.
    pub open spec fn levels(self) -> Seq<int> {
        levels_of(self.0@)
    }
}

/// Every cell's level lies between 1 and 9.
pub proof fn lemma_levels_of_bounded(cells: Seq<Battery>)
    ensures
        levels_of(cells).len() == cells.len(),
        forall|i: int| 0 <= i < cells.len() ==> 1 <= #[trigger] levels_of(cells)[i] <= 9,
{
    assert forall|i: int| 0 <= i < cells.len() implies 1 <= #[trigger] levels_of(cells)[i]
        <= 9 by {
        assert(levels_of(cells)[i] == cells[i].spec_level());
    }
}

/// Every level of a bank lies between 1 and 9.
pub proof fn lemma_levels_bounded(bank: Bank)
    ensures
        bank.levels().len() == bank.0@.len(),
        forall|i: int| 0 <= i < bank.levels().len() ==> 1 <= #[trigger] bank.levels()[i] <= 9,
{
    lemma_levels_of_bounded(bank.0@);
}

/// The battery cell a character stands for: the digits 1 through 9 name a
/// cell, every other character is ignored by the parser.
pub open spec fn battery_of(c: char) -> Option<Battery> {
    if c == '1' {
        Some(Battery::P1)
    } else if c == '2' {
        Some(Battery::P2)
    } else if c == '3' {
        Some(Battery::P3)
    } else if c == '4' {
        Some(Battery::P4)
    } else if c == '5' {
        Some(Battery::P5)
    } else if c == '6' {
        Some(Battery::P6)
    } else if c == '7' {
        Some(Battery::P7)
    } else if c == '8' {
        Some(Battery::P8)
    } else if c == '9' {
        Some(Battery::P9)
    } else {
        None
    }
}

/// The banks contributed by the input from position `i` on, given the cells
/// `cur` already collected for the line in progress. A newline closes the
/// line in progress as one bank; at the end of the input the line in
/// progress forms a final bank exactly when the input does not end with a
/// newline (matching how the text splits into lines).
pub open spec fn parse_from(s: Seq<char>, i: int, cur: Seq<Battery>) -> Seq<Seq<Battery>>
    decreases s.len() - i,
{
    if i < 0 || i >= s.len() {
        if s.len() > 0 && s[s.len() - 1] != '\n' {
            seq![cur]
        } else {
            Seq::empty()
        }
    } else if s[i] == '\n' {
        seq![cur] + parse_from(s, i + 1, Seq::empty())
    } else {
        match battery_of(s[i]) {
            Some(b) => parse_from(s, i + 1, cur.push(b)),
            None => parse_from(s, i + 1, cur),
        }
    }
}

/// The banks of a whole input text: one per line, each holding the line's
/// digit characters as cells, in order, with every other character skipped.
pub open spec fn parse_banks(s: Seq<char>) -> Seq<Seq<Battery>> {
    parse_from(s, 0, Seq::empty())
}

/// The cell sequences of a sequence of banks.
pub open spec fn banks_view(banks: Seq<Bank>) -> Seq<Seq<Battery>> {
    banks.map_values(|b: Bank| b.0@)
}

/// Parse an input text into its banks, one per line: each digit character 1
/// through 9 becomes a cell, every other character is skipped.
pub fn parse_input(input: &str) -> (r: Vec<Bank>)
    ensures
        banks_view(r@) == parse_banks(input@),
{
    let n = input.unicode_len();
    let mut banks: Vec<Bank> = Vec::new();
    let mut cur: Vec<Battery> = Vec::new();
    let mut i: usize = 0;
    while i < n
        invariant
            n == input@.len(),
            i <= n,
            parse_banks(input@) == banks_view(banks@) + parse_from(input@, i as int, cur@),
        decreases n - i,
    {
        let c = input.get_char(i);
        if c == '\n' {
            let ghost old_banks = banks@;
            let ghost old_cur = cur@;
            banks.push(Bank(cur));
            cur = Vec::new();
            proof {
                assert(banks_view(banks@) =~= banks_view(old_banks) + seq![old_cur]);
                assert(banks_view(old_banks) + (seq![old_cur] + parse_from(
                    input@,
                    i + 1,
                    Seq::empty(),
                )) =~= banks_view(banks@) + parse_from(input@, i + 1, Seq::empty()));
            }
        } else {
            let b = match c {
                '1' => Some(Battery::P1),
                '2' => Some(Battery::P2),
                '3' => Some(Battery::P3),
                '4' => Some(Battery::P4),
                '5' => Some(Battery::P5),
                '6' => Some(Battery::P6),
                '7' => Some(Battery::P7),
                '8' => Some(Battery::P8),
                '9' => Some(Battery::P9),
                _ => None,
            };
            match b {
                Some(b) => cur.push(b),
                None => (),
            }
        }
        i += 1;
    }
    if n > 0 {
        let last = input.get_char(n - 1);
        if last != '\n' {
            let ghost old_banks = banks@;
            let ghost old_cur = cur@;
            banks.push(Bank(cur));
            proof {
                assert(banks_view(banks@) =~= banks_view(old_banks) + seq![old_cur]);
            }
            return banks;
        }
    }
    banks
}

/// The greatest element of a sequence of levels, 0 for an empty sequence.
pub open spec fn seq_max(s: Seq<int>) -> int
    decreases s.len(),
{
    if s.len() == 0 {
        0
    } else if s.last() > seq_max(s.drop_last()) {
        s.last()
    } else {
        seq_max(s.drop_last())
    }
}

/// On nonnegative levels, `seq_max` is an upper bound on the elements, is
/// attained by one of them where any exist, and is never negative.
pub proof fn lemma_seq_max_bound(s: Seq<int>)
    requires
        forall|i: int| 0 <= i < s.len() ==> #[trigger] s[i] >= 0,
    ensures
        forall|i: int| 0 <= i < s.len() ==> #[trigger] s[i] <= seq_max(s),
        s.len() > 0 ==> exists|i: int| 0 <= i < s.len() && s[i] == seq_max(s),
        seq_max(s) >= 0,
    decreases s.len(),
{
    if s.len() > 0 {
        let d = s.drop_last();
        assert(forall|i: int| 0 <= i < d.len() ==> #[trigger] d[i] == s[i]);
        lemma_seq_max_bound(d);
        assert forall|i: int| 0 <= i < s.len() implies #[trigger] s[i] <= seq_max(s) by {
            if i < s.len() - 1 {
                assert(s[i] == d[i]);
                assert(d[i] <= seq_max(d));
            }
        }
        if s.last() > seq_max(d) {
            assert(s[s.len() - 1] == seq_max(s));
        } else if d.len() > 0 {
            let i = choose|i: int| 0 <= i < d.len() && d[i] == seq_max(d);
            assert(s[i] == seq_max(s));
        } else {
            assert(s[0] == seq_max(s));
        }
    }
}

/// `r` is the value of the best ordered pair of cells: for a single cell,
/// that cell alone (there is no room for a tens digit); otherwise the
/// maximum of `10 * levels[i] + levels[j]` over positions `i < j`.
pub open spec fn is_max_two(levels: Seq<int>, r: int) -> bool {
    if levels.len() <= 1 {
        r == if levels.len() == 1 {
            levels[0]
        } else {
            0
        }
    } else {
        &&& exists|i: int, j: int| 0 <= i < j < levels.len() && r == 10 * levels[i] + levels[j]
        &&& forall|i: int, j: int|
            0 <= i < j < levels.len() ==> 10 * #[trigger] levels[i] + #[trigger] levels[j] <= r
    }
}

/// The value of the best ordered pair, as a function: the last cell either
/// serves as the units digit under the best earlier tens digit, or plays no
/// part at all.
pub open spec fn spec_max_two(s: Seq<int>) -> int
    decreases s.len(),
{
    if s.len() == 0 {
        0
    } else if s.len() == 1 {
        s[0]
    } else if s.len() == 2 {
        10 * s[0] + s[1]
    } else {
        let with_last = 10 * seq_max(s.drop_last()) + s.last();
        let without_last = spec_max_two(s.drop_last());
        if with_last > without_last {
            with_last
        } else {
            without_last
        }
    }
}

/// On nonnegative levels, `spec_max_two` is the best ordered pair's value.
pub proof fn lemma_spec_max_two_is_max(s: Seq<int>)
    requires
        s.len() >= 1,
        forall|i: int| 0 <= i < s.len() ==> #[trigger] s[i] >= 0,
    ensures
        is_max_two(s, spec_max_two(s)),
    decreases s.len(),
{
    if s.len() == 1 {
    } else if s.len() == 2 {
        assert(0 <= 0 < 1 < s.len() && spec_max_two(s) == 10 * s[0] + s[1]);
    } else {
        let d = s.drop_last();
        let last = s.len() - 1;
        assert(forall|i: int| 0 <= i < last ==> #[trigger] d[i] == s[i]);
        lemma_spec_max_two_is_max(d);
        lemma_seq_max_bound(d);
        let with_last = 10 * seq_max(d) + s.last();
        let without_last = spec_max_two(d);
        assert forall|i: int, j: int| 0 <= i < j < s.len() implies 10 * #[trigger] s[i]
            + #[trigger] s[j] <= spec_max_two(s) by {
            if j == last {
                assert(s[i] == d[i]);
                assert(d[i] <= seq_max(d));
                assert(10 * s[i] + s[j] <= with_last);
            } else {
                assert(d[i] == s[i] && d[j] == s[j]);
                assert(10 * d[i] + d[j] <= without_last);
            }
        }
        if with_last > without_last {
            let i = choose|i: int| 0 <= i < d.len() && d[i] == seq_max(d);
            assert(0 <= i < last < s.len() && spec_max_two(s) == 10 * s[i] + s[last]);
        } else {
            let (i, j) = choose|i: int, j: int|
                0 <= i < j < d.len() && without_last == 10 * d[i] + d[j];
            assert(0 <= i < j < s.len() && spec_max_two(s) == 10 * s[i] + s[j]);
        }
    }
}

/// The best ordered pair's value is unique.
pub proof fn lemma_max_two_unique(s: Seq<int>, a: int, b: int)
    requires
        s.len() >= 1,
        is_max_two(s, a),
        is_max_two(s, b),
    ensures
        a == b,
{
    if s.len() >= 2 {
        let (i, j) = choose|i: int, j: int| 0 <= i < j < s.len() && a == 10 * s[i] + s[j];
        assert(a <= b);
        let (i2, j2) = choose|i: int, j: int| 0 <= i < j < s.len() && b == 10 * s[i] + s[j];
        assert(b <= a);
    }
}

impl Bank {
    /// The greatest two-digit value formed by two cells of this bank in
    /// order: a tens cell followed somewhere later by a units cell. A bank
    /// of a single cell yields just that cell's level.
    ///
    /// One scan suffices: the running best tens digit is tracked over every
    /// position but the last, and each strict improvement of it restarts the
    /// search for the units digit just after the improving position.
    pub fn max_two_digit(&self) -> (r: u64)
        requires
            self.0@.len() >= 1,
        ensures
            is_max_two(self.levels(), r as int),
            r as int == spec_max_two(self.levels()),
            r <= 99,
    {
        let ghost levels = self.levels();
        proof {
            lemma_levels_bounded(*self);
        }
        let n = self.0.len();
        let mut b0: usize = 0;
        let mut b1: usize = self.0[n - 1].level();
        let ghost mut reset: int = -1;
        let mut k: usize = 0;
        while k < n
            invariant
                n == levels.len(),
                1 <= n,
                k <= n,
                levels == self.levels(),
                forall|m: int| 0 <= m < n ==> 1 <= #[trigger] levels[m] <= 9,
                0 <= b0 <= 9,
                0 <= b1 <= 9,
                -1 <= reset,
                reset == -1 ==> b0 == 0 && b1 == levels[n - 1] && (k == 0 || n == 1),
                reset >= 0 ==> {
                    &&& 0 <= reset < k
                    &&& reset < n - 1
                    &&& b0 == levels[reset]
                    &&& forall|m: int| 0 <= m < reset ==> #[trigger] levels[m] < b0
                    &&& forall|m: int| 0 <= m < k && m < n - 1 ==> #[trigger] levels[m] <= b0
                    &&& b1 == seq_max(levels.subrange(reset + 1, k as int))
                },
            decreases n - k,
        {
            let power = self.0[k].level();
            proof {
                assert(power == levels[k as int]);
            }
            if power > b0 && k != n - 1 {
                b0 = power;
                b1 = 0;
                proof {
                    reset = k as int;
                    assert(levels.subrange(k + 1, k + 1) =~= Seq::<int>::empty());
                }
            } else if power > b1 {
                proof {
                    if reset == -1 {
                        // unreachable: before any reset either the bank has a
                        // single cell, whose level equals b1, or the very
                        // first cell would already have reset.
                        assert(k == n - 1);
                        assert(n == 1 && k == 0);
                        assert(b1 == levels[0] && power == levels[0]);
                        assert(false);
                    }
                    let sub = levels.subrange(reset + 1, k + 1);
                    assert(sub.drop_last() =~= levels.subrange(reset + 1, k as int));
                    assert(sub.last() == levels[k as int]);
                }
                b1 = power;
            } else {
                proof {
                    if reset >= 0 {
                        let sub = levels.subrange(reset + 1, k + 1);
                        assert(sub.drop_last() =~= levels.subrange(reset + 1, k as int));
                        assert(sub.last() == levels[k as int]);
                    }
                }
            }
            k += 1;
        }
        proof {
            if n == 1 {
                assert(reset == -1);
                assert(b0 == 0 && b1 == levels[0]);
            } else {
                assert(reset >= 0);
                let sub = levels.subrange(reset + 1, n as int);
                assert(forall|i: int| 0 <= i < sub.len() ==> #[trigger] sub[i] == levels[reset + 1 + i]);
                lemma_seq_max_bound(sub);
                let jj = choose|jj: int| 0 <= jj < sub.len() && sub[jj] == seq_max(sub);
                assert(levels[reset + 1 + jj] == b1);
                assert(0 <= reset < reset + 1 + jj < n && 10 * b0 + b1 == 10 * levels[reset]
                    + levels[reset + 1 + jj]);
                assert forall|i: int, j: int| 0 <= i < j < n implies 10 * #[trigger] levels[i]
                    + #[trigger] levels[j] <= 10 * b0 + b1 by {
                    assert(levels[i] <= b0);
                    if levels[i] == b0 {
                        if i < reset {
                            assert(false);
                        }
                        assert(sub[j - reset - 1] == levels[j]);
                        assert(levels[j] <= b1);
                    } else {
                        assert(10 * levels[i] <= 10 * b0 - 10);
                    }
                }
            }
            assert(is_max_two(levels, (b0 * 10 + b1) as int));
            assert(forall|i: int| 0 <= i < levels.len() ==> #[trigger] levels[i] >= 0);
            lemma_spec_max_two_is_max(levels);
            lemma_max_two_unique(levels, (b0 * 10 + b1) as int, spec_max_two(levels));
        }
        (b0 * 10 + b1) as u64
    }
}

/// Number of digit slots the twelve-slot maximizer fills.
pub const SLOT_COUNT: usize = 12;

/// A sequence of `n` empty (zero) slots.
pub open spec fn zeros(n: int) -> Seq<int> {
    Seq::new(n as nat, |i: int| 0)
}

/// One greedy step: offer a cell of level `power` to the slots, where only
/// slots from `start` on are eligible (an earlier slot could no longer be
/// followed by enough later cells). The first eligible slot holding less
/// than `power` takes it, and every slot after that one is cleared: a
/// tentative choice for a later slot cannot stand once an earlier slot
/// takes a cell that comes after it in the bank. A cell that improves no
/// eligible slot is discarded.
pub open spec fn slots_step(slots: Seq<int>, power: int, start: int) -> Seq<int>
    decreases slots.len() - start,
{
    if start < 0 || start >= slots.len() {
        slots
    } else if slots[start] < power {
        slots.subrange(0, start).push(power) + zeros(slots.len() - start - 1)
    } else {
        slots_step(slots, power, start + 1)
    }
}

/// The slots after a whole bank is processed, cells offered in order: with
/// `left` cells still to come (the current one included), only the last
/// `left` of the `k` slots are eligible.
pub open spec fn run_slots(slots: Seq<int>, levels: Seq<int>, k: int) -> Seq<int>
    decreases levels.len(),
{
    if levels.len() == 0 {
        slots
    } else {
        let start = if levels.len() >= k {
            0
        } else {
            k - levels.len()
        };
        run_slots(slots_step(slots, levels[0], start), levels.drop_first(), k)
    }
}

/// The number the slots spell, highest slot first; an empty slot
/// contributes a zero digit.
pub open spec fn slots_value(slots: Seq<int>) -> int
    decreases slots.len(),
{
    if slots.len() == 0 {
        0
    } else {
        10 * slots_value(slots.drop_last()) + slots.last()
    }
}

/// The number that greedily filling `k` right-aligned slots from the bank's
/// cells produces.
pub open spec fn spec_max_k(levels: Seq<int>, k: int) -> int {
    slots_value(run_slots(zeros(k), levels, k))
}

/// Ten to the power `n` (1 for `n` at or below zero).
pub open spec fn pow10(n: int) -> int
    decreases n,
{
    if n <= 0 {
        1
    } else {
        10 * pow10(n - 1)
    }
}

pub proof fn lemma_pow10_pos(n: int)
    ensures
        pow10(n) >= 1,
    decreases n,
{
    if n > 0 {
        lemma_pow10_pos(n - 1);
    }
}

pub proof fn lemma_pow10_mono(m: int, n: int)
    requires
        0 <= m <= n,
    ensures
        1 <= pow10(m) <= pow10(n),
    decreases n - m,
{
    lemma_pow10_pos(m);
    if m < n {
        lemma_pow10_mono(m, n - 1);
        lemma_pow10_pos(n - 1);
    }
}

pub proof fn lemma_pow10_18()
    ensures
        pow10(18) == 1_000_000_000_000_000_000,
{
    reveal_with_fuel(pow10, 20);
}

/// The levels of a bank's cells as mathematical integers.
pub open spec fn slots_int(s: Seq<usize>) -> Seq<int> {
    s.map_values(|x: usize| x as int)
}

impl Bank {
    /// The greatest number at most `k` of this bank's cells can spell when
    /// placed, in bank order, into the last of `k` digit slots: slots no
    /// cell fills stay zero, so a short bank yields a value with leading
    /// zero slots, and of a long bank only a best subsequence is kept.
    ///
    /// Each incoming cell may overwrite the first eligible slot holding a
    /// smaller value, whereupon all later slots are cleared; a cell that
    /// improves nothing is discarded. A slot is eligible only if enough
    /// cells remain to fill every slot after it.
    pub fn max_k_digit(&self, k: usize) -> (r: u64)
        requires
            k <= 18,
        ensures
            r as int == spec_max_k(self.levels(), k as int),
            (r as int) < pow10(k as int),
    {
        let ghost levels = self.levels();
        proof {
            lemma_levels_bounded(*self);
        }
        let n = self.0.len();
        let mut slots: Vec<usize> = Vec::new();
        let mut z: usize = 0;
        while z < k
            invariant
                z <= k,
                slots@.len() == z,
                forall|i: int| 0 <= i < z ==> #[trigger] slots@[i] == 0,
            decreases k - z,
        {
            slots.push(0);
            z += 1;
        }
        proof {
            assert(slots_int(slots@) =~= zeros(k as int));
            assert(levels.subrange(0, n as int) =~= levels);
        }
        let mut idx: usize = 0;
        while idx < n
            invariant
                n == levels.len(),
                levels == self.levels(),
                forall|m: int| 0 <= m < n ==> 1 <= #[trigger] levels[m] <= 9,
                idx <= n,
                k <= 18,
                slots@.len() == k,
                forall|i: int| 0 <= i < k ==> #[trigger] slots@[i] <= 9,
                run_slots(slots_int(slots@), levels.subrange(idx as int, n as int), k as int)
                    == run_slots(zeros(k as int), levels, k as int),
            decreases n - idx,
        {
            let power = self.0[idx].level();
            proof {
                assert(power == levels[idx as int]);
            }
            let left = n - idx;
            let start = if left >= k {
                0
            } else {
                k - left
            };
            let ghost slots0 = slots_int(slots@);
            let ghost mut found: int = -1;
            let mut zeroing = false;
            let mut j = start;
            while j < k
                invariant
                    slots@.len() == k,
                    slots0.len() == k,
                    start <= j <= k,
                    1 <= power <= 9,
                    forall|i: int| 0 <= i < k ==> #[trigger] slots@[i] <= 9,
                    !zeroing ==> {
                        &&& found == -1
                        &&& slots_int(slots@) == slots0
                        &&& slots_step(slots0, power as int, start as int) == slots_step(
                            slots0,
                            power as int,
                            j as int,
                        )
                    },
                    zeroing ==> {
                        &&& 0 <= found < j
                        &&& slots_step(slots0, power as int, start as int) == slots0.subrange(
                            0,
                            found,
                        ).push(power as int) + zeros(k - found - 1)
                        &&& slots_int(slots@) == slots0.subrange(0, found).push(power as int)
                            + zeros(j - found - 1) + slots0.subrange(j as int, k as int)
                    },
                decreases k - j,
            {
                let ghost before = slots_int(slots@);
                if zeroing {
                    slots[j] = 0;
                    proof {
                        assert(slots_int(slots@) =~= before.update(j as int, 0));
                        assert(before.update(j as int, 0) =~= slots0.subrange(0, found).push(
                            power as int,
                        ) + zeros(j + 1 - found - 1) + slots0.subrange(j + 1, k as int));
                    }
                } else if slots[j] < power {
                    slots[j] = power;
                    proof {
                        found = j as int;
                        assert(slots0[j as int] < power);
                        assert(slots_int(slots@) =~= slots0.subrange(0, j as int).push(
                            power as int,
                        ) + zeros(0) + slots0.subrange(j + 1, k as int));
                    }
                    zeroing = true;
                } else {
                    proof {
                        assert(slots0[j as int] >= power);
                    }
                }
                j += 1;
            }
            proof {
                if zeroing {
                    assert(slots_int(slots@) =~= slots0.subrange(0, found).push(power as int)
                        + zeros(k - found - 1));
                } else {
                    assert(slots_step(slots0, power as int, k as int) == slots0);
                }
                assert(slots_int(slots@) == slots_step(slots0, power as int, start as int));
                let sub = levels.subrange(idx as int, n as int);
                assert(sub.len() == left);
                assert(sub[0] == levels[idx as int]);
                assert(sub.drop_first() =~= levels.subrange(idx + 1, n as int));
                assert(run_slots(slots0, sub, k as int) == run_slots(
                    slots_step(slots0, power as int, start as int),
                    sub.drop_first(),
                    k as int,
                ));
            }
            idx += 1;
        }
        proof {
            assert(levels.subrange(n as int, n as int) =~= Seq::<int>::empty());
            assert(run_slots(slots_int(slots@), Seq::empty(), k as int) == slots_int(slots@));
            assert(slots_int(slots@) == run_slots(zeros(k as int), levels, k as int));
        }
        let mut value: u64 = 0;
        let mut j: usize = 0;
        while j < k
            invariant
                j <= k,
                k <= 18,
                slots@.len() == k,
                forall|i: int| 0 <= i < k ==> #[trigger] slots@[i] <= 9,
                value as int == slots_value(slots_int(slots@).subrange(0, j as int)),
                (value as int) < pow10(j as int),
            decreases k - j,
        {
            proof {
                lemma_pow10_mono(j + 1, 18);
                lemma_pow10_18();
                let sub = slots_int(slots@).subrange(0, j + 1);
                assert(sub.drop_last() =~= slots_int(slots@).subrange(0, j as int));
                assert(sub.last() == slots@[j as int] as int);
            }
            value = value * 10 + slots[j] as u64;
            j += 1;
        }
        proof {
            assert(slots_int(slots@).subrange(0, k as int) =~= slots_int(slots@));
        }
        value
    }
}

/// Every bank has at least one cell.
pub open spec fn all_nonempty(banks: Seq<Seq<Battery>>) -> bool {
    forall|i: int| 0 <= i < banks.len() ==> #[trigger] banks[i].len() >= 1
}

/// The sum, over the banks, of each bank's best two-digit value.
pub open spec fn total_two(banks: Seq<Seq<Battery>>) -> int
    decreases banks.len(),
{
    if banks.len() == 0 {
        0
    } else {
        total_two(banks.drop_last()) + spec_max_two(levels_of(banks.last()))
    }
}

/// The sum, over the banks, of each bank's greedy `k`-slot value.
pub open spec fn total_k(banks: Seq<Seq<Battery>>, k: int) -> int
    decreases banks.len(),
{
    if banks.len() == 0 {
        0
    } else {
        total_k(banks.drop_last(), k) + spec_max_k(levels_of(banks.last()), k)
    }
}

/// A bank's best two-digit value is never negative.
pub proof fn lemma_max_two_nonneg(cells: Seq<Battery>)
    ensures
        spec_max_two(levels_of(cells)) >= 0,
{
    let levels = levels_of(cells);
    lemma_levels_of_bounded(cells);
    if levels.len() >= 1 {
        lemma_spec_max_two_is_max(levels);
        if levels.len() >= 2 {
            let (i, j) = choose|i: int, j: int|
                0 <= i < j < levels.len() && spec_max_two(levels) == 10 * levels[i] + levels[j];
            assert(spec_max_two(levels) == 10 * levels[i] + levels[j]);
        }
    }
}

pub proof fn lemma_slots_step_bounds(slots: Seq<int>, power: int, start: int)
    requires
        0 <= power <= 9,
        forall|i: int| 0 <= i < slots.len() ==> 0 <= #[trigger] slots[i] <= 9,
    ensures
        slots_step(slots, power, start).len() == slots.len(),
        forall|i: int|
            0 <= i < slots.len() ==> 0 <= #[trigger] slots_step(slots, power, start)[i] <= 9,
    decreases slots.len() - start,
{
    if start < 0 || start >= slots.len() {
    } else if slots[start] < power {
        let r = slots_step(slots, power, start);
        assert forall|i: int| 0 <= i < slots.len() implies 0 <= #[trigger] r[i] <= 9 by {
            if i < start {
                assert(r[i] == slots[i]);
            } else if i == start {
                assert(r[i] == power);
            } else {
                assert(r[i] == 0);
            }
        }
    } else {
        lemma_slots_step_bounds(slots, power, start + 1);
    }
}

pub proof fn lemma_run_slots_bounds(slots: Seq<int>, levels: Seq<int>, k: int)
    requires
        forall|i: int| 0 <= i < slots.len() ==> 0 <= #[trigger] slots[i] <= 9,
        forall|i: int| 0 <= i < levels.len() ==> 0 <= #[trigger] levels[i] <= 9,
    ensures
        run_slots(slots, levels, k).len() == slots.len(),
        forall|i: int|
            0 <= i < slots.len() ==> 0 <= #[trigger] run_slots(slots, levels, k)[i] <= 9,
    decreases levels.len(),
{
    if levels.len() > 0 {
        let start = if levels.len() >= k {
            0
        } else {
            k - levels.len()
        };
        lemma_slots_step_bounds(slots, levels[0], start);
        let rest = levels.drop_first();
        assert(forall|i: int| 0 <= i < rest.len() ==> #[trigger] rest[i] == levels[i + 1]);
        lemma_run_slots_bounds(slots_step(slots, levels[0], start), rest, k);
    }
}

pub proof fn lemma_slots_value_bound(slots: Seq<int>)
    requires
        forall|i: int| 0 <= i < slots.len() ==> 0 <= #[trigger] slots[i] <= 9,
    ensures
        0 <= slots_value(slots),
        slots_value(slots) < pow10(slots.len() as int),
    decreases slots.len(),
{
    if slots.len() > 0 {
        let d = slots.drop_last();
        assert(forall|i: int| 0 <= i < d.len() ==> #[trigger] d[i] == slots[i]);
        lemma_slots_value_bound(d);
    }
}

/// A bank's greedy `k`-slot value lies between 0 and the largest `k`-digit
/// number.
pub proof fn lemma_max_k_bounds(cells: Seq<Battery>, k: int)
    requires
        k >= 0,
    ensures
        0 <= spec_max_k(levels_of(cells), k),
        spec_max_k(levels_of(cells), k) < pow10(k),
{
    lemma_levels_of_bounded(cells);
    assert(forall|i: int| 0 <= i < zeros(k).len() ==> 0 <= #[trigger] zeros(k)[i] <= 9);
    lemma_run_slots_bounds(zeros(k), levels_of(cells), k);
    lemma_slots_value_bound(run_slots(zeros(k), levels_of(cells), k));
}

/// Every prefix sum of best two-digit values is at most the whole sum.
pub proof fn lemma_total_two_prefix(banks: Seq<Seq<Battery>>, i: int)
    requires
        0 <= i <= banks.len(),
    ensures
        total_two(banks.subrange(0, i)) <= total_two(banks),
    decreases banks.len() - i,
{
    if i == banks.len() {
        assert(banks.subrange(0, i) =~= banks);
    } else {
        let d = banks.drop_last();
        lemma_max_two_nonneg(banks.last());
        assert(banks.subrange(0, i) =~= d.subrange(0, i));
        lemma_total_two_prefix(d, i);
    }
}

/// Every prefix sum of greedy `k`-slot values is at most the whole sum.
pub proof fn lemma_total_k_prefix(banks: Seq<Seq<Battery>>, k: int, i: int)
    requires
        0 <= i <= banks.len(),
        k >= 0,
    ensures
        total_k(banks.subrange(0, i), k) <= total_k(banks, k),
    decreases banks.len() - i,
{
    if i == banks.len() {
        assert(banks.subrange(0, i) =~= banks);
    } else {
        let d = banks.drop_last();
        lemma_max_k_bounds(banks.last(), k);
        assert(banks.subrange(0, i) =~= d.subrange(0, i));
        lemma_total_k_prefix(d, k, i);
    }
}

/// Total power of all banks under the best-pair rule: the sum of every
/// bank's best two-digit value. `None` where some bank is empty (a bank
/// with no cells has no best pair, so the whole total is undefined) or
/// where the total does not fit in a `u64`.
pub fn solve_part1(banks: &Vec<Bank>) -> (r: Option<u64>)
    ensures
        r is Some <==> all_nonempty(banks_view(banks@)) && total_two(banks_view(banks@))
            <= u64::MAX,
        r matches Some(v) ==> v as int == total_two(banks_view(banks@)),
{
    let ghost bview = banks_view(banks@);
    let mut total: u64 = 0;
    let n = banks.len();
    let mut i: usize = 0;
    while i < n
        invariant
            bview == banks_view(banks@),
            n == banks@.len(),
            bview.len() == n,
            i <= n,
            forall|m: int| 0 <= m < bview.len() ==> #[trigger] bview[m] == banks@[m].0@,
            forall|m: int| 0 <= m < i ==> #[trigger] bview[m].len() >= 1,
            total as int == total_two(bview.subrange(0, i as int)),
        decreases n - i,
    {
        let b = &banks[i];
        if b.0.len() == 0 {
            proof {
                assert(bview[i as int].len() == 0);
            }
            return None;
        }
        let v = b.max_two_digit();
        proof {
            let pre = bview.subrange(0, i as int);
            let pre1 = bview.subrange(0, i + 1);
            assert(pre1.drop_last() =~= pre);
            assert(pre1.last() == bview[i as int]);
        }
        if total > u64::MAX - v {
            proof {
                lemma_total_two_prefix(bview, i + 1);
            }
            return None;
        }
        total = total + v;
        i += 1;
    }
    proof {
        assert(bview.subrange(0, n as int) =~= bview);
    }
    Some(total)
}

/// Total power of all banks under the twelve-slot rule: the sum of every
/// bank's greedy twelve-slot value. `None` exactly where the total does
/// not fit in a `u64`.
pub fn solve_part2(banks: &Vec<Bank>) -> (r: Option<u64>)
    ensures
        r is Some <==> total_k(banks_view(banks@), SLOT_COUNT as int) <= u64::MAX,
        r matches Some(v) ==> v as int == total_k(banks_view(banks@), SLOT_COUNT as int),
{
    let ghost bview = banks_view(banks@);
    let mut total: u64 = 0;
    let n = banks.len();
    let mut i: usize = 0;
    while i < n
        invariant
            bview == banks_view(banks@),
            n == banks@.len(),
            bview.len() == n,
            i <= n,
            forall|m: int| 0 <= m < bview.len() ==> #[trigger] bview[m] == banks@[m].0@,
            total as int == total_k(bview.subrange(0, i as int), SLOT_COUNT as int),
        decreases n - i,
    {
        let b = &banks[i];
        let v = b.max_k_digit(SLOT_COUNT);
        proof {
            let pre = bview.subrange(0, i as int);
            let pre1 = bview.subrange(0, i + 1);
            assert(pre1.drop_last() =~= pre);
            assert(pre1.last() == bview[i as int]);
        }
        if total > u64::MAX - v {
            proof {
                lemma_total_k_prefix(bview, SLOT_COUNT as int, i + 1);
            }
            return None;
        }
        total = total + v;
        i += 1;
    }
    proof {
        assert(bview.subrange(0, n as int) =~= bview);
    }
    Some(total)
}

} // verus!
