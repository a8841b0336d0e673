//! Password candidates: a number, its decimal digits, and the digit rules
//! a valid password obeys — a fixed width, an adjacent equal pair (for the
//! stricter rule, a run of exactly two), and digits that never decrease.

use vstd::prelude::*;
use vstd::string::StrSliceExecFns;

use crate::digits::{num_to_digits_vec, spec_digits};
use crate::text::{chars_dec_val, is_unsigned_dec_chars, parse_u64_chars};
use crate::opcode::{lemma_pow10_pos, pow10};
use crate::pairs::adjacent_pairs;

verus! {

/// Two adjacent digits somewhere are equal.
pub open spec fn spec_has_adjacent_pair(s: Seq<nat>) -> bool {
    exists|i: int| 0 <= i < s.len() - 1 && #[trigger] s[i] == s[i + 1]
}

/// Reading left to right, digits never decrease.
pub open spec fn spec_non_decreasing(s: Seq<nat>) -> bool {
    forall|i: int| 0 <= i < s.len() - 1 ==> #[trigger] s[i] <= s[i + 1]
}

/// The first position at or after `j` whose digit differs from the one at
/// `i`: the end of the run of `s[i]`s that `j` sits in.
pub open spec fn run_end(s: Seq<nat>, i: int, j: int) -> int
    decreases s.len() - j,
    when 0 <= i <= j <= s.len()
{
    if j >= s.len() {
        j
    } else if s[j] != s[i] {
        j
    } else {
        run_end(s, i, j + 1)
    }
}

pub proof fn lemma_run_end(s: Seq<nat>, i: int, j: int)
    requires
        0 <= i <= j <= s.len(),
    ensures
        j <= run_end(s, i, j) <= s.len(),
    decreases s.len() - j,
{
    if j < s.len() && s[j] == s[i] {
        lemma_run_end(s, i, j + 1);
    }
}

/// Somewhere at or after position `i` a maximal run of equal digits has
/// length exactly two.
pub open spec fn has_run_of_two(s: Seq<nat>, i: int) -> bool
    decreases s.len() - i,
    when 0 <= i <= s.len()
    via has_run_of_two_decreases
{
    if i >= s.len() {
        false
    } else {
        let e = run_end(s, i, i + 1);
        (e - i == 2) || has_run_of_two(s, e)
    }
}

#[via_fn]
proof fn has_run_of_two_decreases(s: Seq<nat>, i: int) {
    if i < s.len() {
        lemma_run_end(s, i, i + 1);
    }
}

/// An inclusive range of candidate password values.
#[derive(Debug)]
pub struct PasswordRange {
    min: usize,
    max: usize,
}

/// The position of the first dash character at or after `i`, or the end.
pub open spec fn dash_pos(s: Seq<char>, i: int) -> int
    decreases s.len() - i,
    when 0 <= i <= s.len()
{
    if i >= s.len() {
        i
    } else if s[i] == '-' {
        i
    } else {
        dash_pos(s, i + 1)
    }
}

proof fn lemma_dash_pos(s: Seq<char>, i: int)
    requires
        0 <= i <= s.len(),
    ensures
        i <= dash_pos(s, i) <= s.len(),
        dash_pos(s, i) < s.len() ==> s[dash_pos(s, i)] == '-',
    decreases s.len() - i,
{
    if i < s.len() && s[i] != '-' {
        lemma_dash_pos(s, i + 1);
    }
}

/// A well-formed range text: digits, one dash, digits, both numbers
/// fitting the machine word.
pub open spec fn range_input_ok(s: Seq<char>) -> bool {
    let k = dash_pos(s, 0);
    &&& k < s.len()
    &&& is_unsigned_dec_chars(s.take(k))
    &&& is_unsigned_dec_chars(s.skip(k + 1))
    &&& chars_dec_val(s.take(k)) <= usize::MAX
    &&& chars_dec_val(s.skip(k + 1)) <= usize::MAX
}

impl PasswordRange {
    pub closed spec fn spec_min(&self) -> nat {
        self.min as nat
    }

    pub closed spec fn spec_max(&self) -> nat {
        self.max as nat
    }

    /// Splits a "min-max" text at its first dash and reads both sides as
    /// numbers.
    pub fn new(input: &str) -> (r: PasswordRange)
        requires
            range_input_ok(input@),
        ensures
            r.spec_min() == chars_dec_val(input@.take(dash_pos(input@, 0))),
            r.spec_max() == chars_dec_val(input@.skip(dash_pos(input@, 0) + 1)),
    {
        let n = input.unicode_len();
        let mut k: usize = 0;
        while k < n && input.get_char(k) != '-'
            invariant
                0 <= k <= n,
                n == input@.len(),
                dash_pos(input@, 0) == dash_pos(input@, k as int),
            decreases n - k,
        {
            k = k + 1;
        }
        proof {
            lemma_dash_pos(input@, 0);
            assert(k == dash_pos(input@, 0));
        }
        let min_str = input.substring_char(0, k);
        let max_str = input.substring_char(k + 1, n);
        proof {
            assert(min_str@ =~= input@.take(k as int));
            assert(max_str@ =~= input@.skip(k + 1));
        }
        let min = parse_u64_chars(min_str) as usize;
        let max = parse_u64_chars(max_str) as usize;
        PasswordRange { min, max }
    }
}

/// A candidate password: its value and, precomputed, its decimal digits.
pub struct Password {
    val: usize,
    val_digits: Vec<usize>,
}

impl Password {
    /// The digits cached inside are exactly the value's decimal digits.
    pub closed spec fn wf(&self) -> bool {
        self.val_digits@.map_values(|d: usize| d as nat) == spec_digits(self.val as nat)
    }

    pub closed spec fn spec_val(&self) -> nat {
        self.val as nat
    }

    pub fn new(val: usize) -> (r: Password)
        ensures
            r.wf(),
            r.spec_val() == val as nat,
    {
        Password { val, val_digits: Password::val_to_digits_vec(val) }
    }

    /// The decimal digits of a value, most significant first.
    pub fn val_to_digits_vec(val: usize) -> (r: Vec<usize>)
        ensures
            r@.map_values(|d: usize| d as nat) == spec_digits(val as nat),
    {
        num_to_digits_vec(val)
    }

    /// Whether the value is exactly `n` decimal digits wide.
    pub fn is_n_digit_long(&self, n: u32) -> (r: bool)
        requires
            n >= 1,
            pow10(n as nat) <= usize::MAX,
        ensures
            r == (pow10((n - 1) as nat) <= self.spec_val() < pow10(n as nat)),
    {
        let mut p: usize = 1;
        let mut k: u32 = 0;
        while k < n - 1
            invariant
                n >= 1,
                k <= n - 1,
                pow10(n as nat) <= usize::MAX,
                p == pow10(k as nat),
            decreases n - k,
        {
            proof {
                lemma_pow10_mono((k + 1) as nat, n as nat);
            }
            p = p * 10;
            k = k + 1;
        }
        proof {
            assert(p == pow10((n - 1) as nat));
            assert(pow10(n as nat) == 10 * pow10((n - 1) as nat));
            lemma_pow10_pos((n - 1) as nat);
        }
        self.val >= p && self.val <= p * 10 - 1
    }

    /// Whether the value lies in the range, both ends included.
    pub fn is_within_range(&self, range: &PasswordRange) -> (r: bool)
        ensures
            r == (range.spec_min() <= self.spec_val() <= range.spec_max()),
    {
        self.val >= range.min && self.val <= range.max
    }

    /// Whether two adjacent digits somewhere are equal.
    pub fn has_same_adjacent_pair(&self) -> (r: bool)
        requires
            self.wf(),
        ensures
            r == spec_has_adjacent_pair(spec_digits(self.spec_val())),
    {
        let ghost m = spec_digits(self.spec_val());
        let ps = adjacent_pairs(&self.val_digits);
        let mut k: usize = 0;
        while k < ps.len()
            invariant
                k <= ps@.len(),
                m == spec_digits(self.spec_val()),
                m == self.val_digits@.map_values(|d: usize| d as nat),
                ps@.len() == (if self.val_digits@.len() >= 2 {
                    self.val_digits@.len() - 1
                } else {
                    0
                }),
                forall|i: int|
                    0 <= i < ps@.len() ==> #[trigger] ps@[i] == (
                        self.val_digits@[i],
                        self.val_digits@[i + 1],
                    ),
                forall|i: int| 0 <= i < k ==> #[trigger] m[i] != m[i + 1],
            decreases ps@.len() - k,
        {
            let p = ps[k];
            if p.0 == p.1 {
                proof {
                    assert(m[k as int] == m[k as int + 1]);
                }
                return true;
            }
            k = k + 1;
        }
        false
    }

    /// Whether some maximal run of equal digits has length exactly two.
    pub fn has_strict_adjacent_pair(&self) -> (r: bool)
        requires
            self.wf(),
        ensures
            r == has_run_of_two(spec_digits(self.spec_val()), 0),
    {
        let ghost m = spec_digits(self.spec_val());
        let n = self.val_digits.len();
        let mut i: usize = 0;
        proof {
            assert(m.len() == n);
        }
        while i < n
            invariant
                0 <= i <= n,
                n == self.val_digits@.len(),
                m == spec_digits(self.spec_val()),
                m == self.val_digits@.map_values(|d: usize| d as nat),
                has_run_of_two(m, 0) == has_run_of_two(m, i as int),
            decreases n - i,
        {
            let mut j = i + 1;
            while j < n && self.val_digits[j] == self.val_digits[i]
                invariant
                    i < j <= n,
                    n == self.val_digits@.len(),
                    m == self.val_digits@.map_values(|d: usize| d as nat),
                    run_end(m, i as int, i + 1) == run_end(m, i as int, j as int),
                decreases n - j,
            {
                j = j + 1;
            }
            proof {
                assert(run_end(m, i as int, i + 1) == j);
            }
            if j - i == 2 {
                return true;
            }
            i = j;
        }
        false
    }

    /// Whether, read left to right, the digits never decrease.
    pub fn is_not_decreasing(&self) -> (r: bool)
        requires
            self.wf(),
        ensures
            r == spec_non_decreasing(spec_digits(self.spec_val())),
    {
        let ghost m = spec_digits(self.spec_val());
        let ps = adjacent_pairs(&self.val_digits);
        let mut k: usize = 0;
        while k < ps.len()
            invariant
                k <= ps@.len(),
                m == spec_digits(self.spec_val()),
                m == self.val_digits@.map_values(|d: usize| d as nat),
                ps@.len() == (if self.val_digits@.len() >= 2 {
                    self.val_digits@.len() - 1
                } else {
                    0
                }),
                forall|i: int|
                    0 <= i < ps@.len() ==> #[trigger] ps@[i] == (
                        self.val_digits@[i],
                        self.val_digits@[i + 1],
                    ),
                forall|i: int| 0 <= i < k ==> #[trigger] m[i] <= m[i + 1],
            decreases ps@.len() - k,
        {
            let p = ps[k];
            if p.0 > p.1 {
                proof {
                    assert(m[k as int] > m[k as int + 1]);
                }
                return false;
            }
            k = k + 1;
        }
        true
    }
}

/// Monotonicity of powers of ten.
pub proof fn lemma_pow10_mono(a: nat, b: nat)
    requires
        a <= b,
    ensures
        pow10(a) <= pow10(b),
    decreases b,
{
    if a < b {
        lemma_pow10_mono(a, (b - 1) as nat);
        lemma_pow10_pos((b - 1) as nat);
    }
}

/// A value satisfies the first rule: six digits wide, some adjacent equal
/// pair, digits never decreasing.
pub open spec fn part1_ok(v: nat) -> bool {
    &&& pow10(5) <= v < pow10(6)
    &&& spec_has_adjacent_pair(spec_digits(v))
    &&& spec_non_decreasing(spec_digits(v))
}

/// A value satisfies the stricter rule: six digits wide, digits never
/// decreasing, and some maximal run of equal digits of length exactly two.
pub open spec fn part2_ok(v: nat) -> bool {
    &&& pow10(5) <= v < pow10(6)
    &&& spec_non_decreasing(spec_digits(v))
    &&& has_run_of_two(spec_digits(v), 0)
}

/// How many values in `lo..=hi` satisfy the first rule.
pub open spec fn count_part1(lo: int, hi: int) -> nat
    decreases (if lo <= hi {
        hi + 1 - lo
    } else {
        0
    }),
{
    if lo > hi {
        0
    } else {
        (if part1_ok(lo as nat) {
            1nat
        } else {
            0nat
        }) + count_part1(lo + 1, hi)
    }
}

/// How many values in `lo..=hi` satisfy the stricter rule.
pub open spec fn count_part2(lo: int, hi: int) -> nat
    decreases (if lo <= hi {
        hi + 1 - lo
    } else {
        0
    }),
{
    if lo > hi {
        0
    } else {
        (if part2_ok(lo as nat) {
            1nat
        } else {
            0nat
        }) + count_part2(lo + 1, hi)
    }
}

pub struct PasswordCombinations {}

impl PasswordCombinations {
    /// Counts the range's candidates that satisfy the first rule.
    pub fn part1_determine(range: &PasswordRange) -> (r: usize)
        ensures
            r == count_part1(range.spec_min() as int, range.spec_max() as int),
    {
        let mut count: usize = 0;
        let mut v: usize = range.min;
        if range.min > range.max {
            return 0;
        }
        while v <= range.max
            invariant
                range.spec_min() <= v <= range.spec_max() + 1,
                v <= usize::MAX,
                count <= v - range.spec_min(),
                count_part1(range.spec_min() as int, range.spec_max() as int) == count
                    + count_part1(v as int, range.spec_max() as int),
            decreases range.spec_max() + 1 - v,
        {
            let pass = Password::new(v);
            proof {
                assert(count_part1(v as int, range.spec_max() as int) == (if part1_ok(v as nat) {
                    1nat
                } else {
                    0nat
                }) + count_part1(v as int + 1, range.spec_max() as int));
                reveal_with_fuel(pow10, 8);
            }
            let ok = pass.is_n_digit_long(6) && pass.has_same_adjacent_pair()
                && pass.is_not_decreasing();
            if ok {
                count = count + 1;
            }
            if v == range.max {
                proof {
                    assert(count_part1(v as int + 1, range.spec_max() as int) == 0);
                }
                return count;
            }
            v = v + 1;
        }
        count
    }

    /// Counts the range's candidates that satisfy the stricter rule.
    pub fn part2_determine(range: &PasswordRange) -> (r: usize)
        ensures
            r == count_part2(range.spec_min() as int, range.spec_max() as int),
    {
        let mut count: usize = 0;
        let mut v: usize = range.min;
        if range.min > range.max {
            return 0;
        }
        while v <= range.max
            invariant
                range.spec_min() <= v <= range.spec_max() + 1,
                v <= usize::MAX,
                count <= v - range.spec_min(),
                count_part2(range.spec_min() as int, range.spec_max() as int) == count
                    + count_part2(v as int, range.spec_max() as int),
            decreases range.spec_max() + 1 - v,
        {
            let pass = Password::new(v);
            proof {
                assert(count_part2(v as int, range.spec_max() as int) == (if part2_ok(v as nat) {
                    1nat
                } else {
                    0nat
                }) + count_part2(v as int + 1, range.spec_max() as int));
                reveal_with_fuel(pow10, 8);
            }
            let ok = pass.is_n_digit_long(6) && pass.is_not_decreasing()
                && pass.has_strict_adjacent_pair();
            if ok {
                count = count + 1;
            }
            if v == range.max {
                proof {
                    assert(count_part2(v as int + 1, range.spec_max() as int) == 0);
                }
                return count;
            }
            v = v + 1;
        }
        count
    }
}

} // verus!
