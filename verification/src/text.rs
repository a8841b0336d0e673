//! Byte-level text of decimal integers: parsing signed decimal byte runs,
//! splitting a buffer into newline-terminated lines, and rendering a value
//! as decimal bytes.

use vstd::prelude::*;

use vstd::string::StrSliceExecFns;

use crate::digits::{digits_val, lemma_digits_val_prefix, spec_digits};

verus! {

pub const NEWLINE: u8 = 10;

pub const MINUS: u8 = 45;

pub const PLUS: u8 = 43;

/// The numeric value of one decimal digit byte (`b'0'` to `b'9'`).
pub open spec fn digit_val(b: u8) -> nat {
    if 48 <= b <= 57 {
        (b - 48) as nat
    } else {
        0
    }
}

pub open spec fn is_digit(b: u8) -> bool {
    48 <= b <= 57
}

pub open spec fn all_digits(s: Seq<u8>) -> bool {
    forall|i: int| 0 <= i < s.len() ==> is_digit(#[trigger] s[i])
}

/// The number denoted by a run of decimal digit bytes, most significant
/// first.
pub open spec fn digit_run_val(s: Seq<u8>) -> nat {
    digits_val(s.map_values(|b: u8| digit_val(b)))
}

/// A non-empty run of decimal digit bytes, optionally preceded by one sign
/// byte.
pub open spec fn is_signed_dec(s: Seq<u8>) -> bool {
    if s.len() == 0 {
        false
    } else if s[0] == MINUS || s[0] == PLUS {
        s.len() > 1 && all_digits(s.skip(1))
    } else {
        all_digits(s)
    }
}

/// The integer denoted by a signed decimal byte run.
pub open spec fn signed_dec_val(s: Seq<u8>) -> int {
    if s.len() > 0 && s[0] == MINUS {
        -(digit_run_val(s.skip(1)) as int)
    } else if s.len() > 0 && s[0] == PLUS {
        digit_run_val(s.skip(1)) as int
    } else {
        digit_run_val(s) as int
    }
}

/// What parsing a byte run as a signed 64-bit decimal integer yields:
/// `None` unless the whole run is a well-formed signed decimal number
/// whose value fits in `i64`.
pub open spec fn spec_parse_dec(s: Seq<u8>) -> Option<i64> {
    if is_signed_dec(s) && i64::MIN <= signed_dec_val(s) <= i64::MAX {
        Some(signed_dec_val(s) as i64)
    } else {
        None
    }
}

/// Parses `bytes[from..to]` as a signed decimal integer.
pub fn parse_dec_range(bytes: &Vec<u8>, from: usize, to: usize) -> (r: Option<i64>)
    requires
        from <= to <= bytes@.len(),
    ensures
        r == spec_parse_dec(bytes@.subrange(from as int, to as int)),
{
    let ghost s = bytes@.subrange(from as int, to as int);
    if from == to {
        return None;
    }
    let first = bytes[from];
    let negative: bool = first == MINUS;
    let start: usize = if first == MINUS || first == PLUS {
        from + 1
    } else {
        from
    };
    let ghost digits = s.subrange(start - from, to - from);
    proof {
        if first == MINUS || first == PLUS {
            assert(digits =~= s.skip(1));
        } else {
            assert(digits =~= s);
        }
    }
    if start == to {
        // A lone sign byte is not a number.
        return None;
    }
    // Largest magnitude that still fits: one more for a negative value.
    let limit: u128 = if negative {
        9_223_372_036_854_775_808u128
    } else {
        9_223_372_036_854_775_807u128
    };
    let ghost dm = digits.map_values(|b: u8| digit_val(b));
    let mut acc: u128 = 0;
    let mut i: usize = start;
    proof {
        assert(dm.take(0) =~= Seq::<nat>::empty());
        assert forall|k: int| 0 <= k < digits.len() implies digits[k] == bytes@[start + k] by {
            assert(digits[k] == s[k + (start - from)]);
        }
    }
    while i < to
        invariant
            from <= start <= i <= to <= bytes@.len(),
            start <= from + 1,
            start < to,
            s == bytes@.subrange(from as int, to as int),
            digits == (if start > from {
                s.skip(1)
            } else {
                s
            }),
            start > from ==> (s[0] == MINUS || s[0] == PLUS),
            start == from ==> !(s[0] == MINUS || s[0] == PLUS),
            negative <==> (s.len() > 0 && s[0] == MINUS),
            (negative ==> limit == 9_223_372_036_854_775_808u128),
            (!negative ==> limit == 9_223_372_036_854_775_807u128),
            digits.len() == to - start,
            forall|k: int| 0 <= k < digits.len() ==> #[trigger] digits[k] == bytes@[start + k],
            dm == digits.map_values(|b: u8| digit_val(b)),
            all_digits(digits.take(i - start)),
            acc <= limit,
            limit < 0x1_0000_0000_0000_0000u128,
            acc as nat == digits_val(dm.take(i - start)),
        decreases to - i,
    {
        let b = bytes[i];
        proof {
            assert(digits[i - start] == bytes@[i as int]);
        }
        if !(48 <= b && b <= 57) {
            proof {
                assert(!is_digit(digits[i - start]));
            }
            return None;
        }
        proof {
            assert(dm.take(i - start + 1).drop_last() =~= dm.take(i - start));
            assert(dm[i - start] == digit_val(b));
            assert(digits.take(i - start + 1).drop_last() =~= digits.take(i - start));
            assert(digits.take(i - start + 1).last() == digits[i - start]);
        }
        acc = acc * 10 + ((b - 48) as u128);
        if acc > limit {
            // The full run can only denote something at least as large.
            proof {
                lemma_digits_val_prefix(dm, i - start + 1);
                assert(digits_val(dm) >= acc as nat);
                assert(digit_run_val(digits) >= acc as nat);
                if negative {
                    assert(signed_dec_val(s) == -(digit_run_val(digits) as int));
                    assert(signed_dec_val(s) < i64::MIN);
                } else {
                    assert(is_signed_dec(s) ==> signed_dec_val(s) == digit_run_val(digits) as int);
                    assert(is_signed_dec(s) ==> signed_dec_val(s) > i64::MAX);
                }
            }
            return None;
        }
        i = i + 1;
    }
    proof {
        assert(digits.take(to - start) =~= digits);
        assert(dm.take(to - start) =~= dm);
        assert(digit_run_val(digits) == acc as nat);
        assert(is_signed_dec(s));
    }
    if negative {
        if acc == 9_223_372_036_854_775_808u128 {
            Some(i64::MIN)
        } else {
            Some(-((acc as u64) as i64))
        }
    } else {
        Some((acc as u64) as i64)
    }
}

/// Parses a whole byte buffer as one signed decimal integer, as its
/// UTF-8 text. The buffer must hold a well-formed number that fits.
pub fn utf8_dec_num_repr_to_num(utf8_dec_digits: &Vec<u8>) -> (r: i64)
    requires
        spec_parse_dec(utf8_dec_digits@) is Some,
    ensures
        Some(r) == spec_parse_dec(utf8_dec_digits@),
{
    proof {
        assert(utf8_dec_digits@.subrange(0, utf8_dec_digits@.len() as int) =~= utf8_dec_digits@);
    }
    match parse_dec_range(utf8_dec_digits, 0, utf8_dec_digits.len()) {
        Some(v) => v,
        None => {
            proof {
                assert(false);
            }
            0
        },
    }
}

/// The position of the first newline byte at or after `i`, or the end of
/// the buffer if there is none.
pub open spec fn line_end(s: Seq<u8>, i: int) -> int
    decreases s.len() - i,
    when 0 <= i <= s.len()
{
    if i >= s.len() {
        i
    } else if s[i] == NEWLINE {
        i
    } else {
        line_end(s, i + 1)
    }
}

pub proof fn lemma_line_end(s: Seq<u8>, i: int)
    requires
        0 <= i <= s.len(),
    ensures
        i <= line_end(s, i) <= s.len(),
        line_end(s, i) < s.len() ==> s[line_end(s, i)] == NEWLINE,
    decreases s.len() - i,
{
    if i < s.len() && s[i] != NEWLINE {
        lemma_line_end(s, i + 1);
    }
}

/// The non-empty newline-separated segments of a buffer, in order,
/// starting at position `i`.
pub open spec fn nonempty_lines(s: Seq<u8>, i: int) -> Seq<Seq<u8>>
    decreases s.len() - i,
    when 0 <= i <= s.len()
    via nonempty_lines_decreases
{
    let e = line_end(s, i);
    let rest = if e < s.len() {
        nonempty_lines(s, e + 1)
    } else {
        Seq::empty()
    };
    if e > i {
        seq![s.subrange(i, e)] + rest
    } else {
        rest
    }
}

#[via_fn]
proof fn nonempty_lines_decreases(s: Seq<u8>, i: int) {
    lemma_line_end(s, i);
}

/// Finds the end of the line that starts at `from`: the index of the next
/// newline byte, or the end of the buffer.
pub fn find_line_end(bytes: &Vec<u8>, from: usize) -> (r: usize)
    requires
        from <= bytes@.len(),
    ensures
        r == line_end(bytes@, from as int),
        from <= r <= bytes@.len(),
{
    let mut e = from;
    while e < bytes.len() && bytes[e] != NEWLINE
        invariant
            from <= e <= bytes@.len(),
            line_end(bytes@, from as int) == line_end(bytes@, e as int),
        decreases bytes@.len() - e,
    {
        e = e + 1;
    }
    proof {
        lemma_line_end(bytes@, from as int);
    }
    e
}

/// Splits a byte buffer at newlines and parses each non-empty line as a
/// signed decimal integer. Every non-empty line must be well-formed.
pub fn parse_multiple_utf8_num_repr_lns(utf8_dec_digits_nums: &Vec<u8>) -> (r: Vec<i64>)
    requires
        forall|k: int|
            0 <= k < nonempty_lines(utf8_dec_digits_nums@, 0).len() ==> (#[trigger] spec_parse_dec(
                nonempty_lines(utf8_dec_digits_nums@, 0)[k],
            )) is Some,
    ensures
        r@.len() == nonempty_lines(utf8_dec_digits_nums@, 0).len(),
        forall|k: int|
            0 <= k < r@.len() ==> Some(#[trigger] r@[k]) == spec_parse_dec(
                nonempty_lines(utf8_dec_digits_nums@, 0)[k],
            ),
{
    let ghost s = utf8_dec_digits_nums@;
    let ghost lines = nonempty_lines(s, 0);
    let mut r: Vec<i64> = Vec::new();
    let mut pos: usize = 0;
    while pos < utf8_dec_digits_nums.len()
        invariant
            pos <= s.len(),
            s == utf8_dec_digits_nums@,
            lines == nonempty_lines(s, 0),
            r@.len() <= lines.len(),
            lines =~= lines.take(r@.len() as int) + nonempty_lines(s, pos as int),
            forall|k: int|
                0 <= k < lines.len() ==> (#[trigger] spec_parse_dec(lines[k])) is Some,
            forall|k: int|
                0 <= k < r@.len() ==> Some(#[trigger] r@[k]) == spec_parse_dec(lines[k]),
        decreases s.len() - pos,
    {
        let ghost n = r@.len() as int;
        let e = find_line_end(utf8_dec_digits_nums, pos);
        if e > pos {
            proof {
                assert(nonempty_lines(s, pos as int) == seq![s.subrange(pos as int, e as int)] + (
                if e < s.len() {
                    nonempty_lines(s, e as int + 1)
                } else {
                    Seq::empty()
                }));
                assert(lines[n] == s.subrange(pos as int, e as int));
            }
            let v = match parse_dec_range(utf8_dec_digits_nums, pos, e) {
                Some(v) => v,
                None => {
                    proof {
                        assert(false);
                    }
                    0
                },
            };
            r.push(v);
            proof {
                assert(lines.take(n + 1) =~= lines.take(n) + seq![lines[n]]);
            }
        }
        if e < utf8_dec_digits_nums.len() {
            pos = e + 1;
        } else {
            pos = e;
            proof {
                assert(nonempty_lines(s, e as int) == Seq::<Seq<u8>>::empty());
            }
        }
    }
    proof {
        assert(nonempty_lines(s, pos as int) == Seq::<Seq<u8>>::empty());
        assert(lines =~= lines.take(r@.len() as int));
        assert(lines.len() == r@.len());
    }
    r
}

pub open spec fn is_ws(b: u8) -> bool {
    b == 32 || b == 9 || b == 13 || b == 10
}

/// The first position at or after `i` holding a non-whitespace byte.
pub open spec fn ws_start(s: Seq<u8>, i: int) -> int
    decreases s.len() - i,
    when 0 <= i <= s.len()
{
    if i < s.len() && is_ws(s[i]) {
        ws_start(s, i + 1)
    } else {
        i
    }
}

/// The position just after the last non-whitespace byte before `j`.
pub open spec fn ws_end(s: Seq<u8>, j: int) -> int
    decreases j,
    when 0 <= j <= s.len()
{
    if j > 0 && is_ws(s[j - 1]) {
        ws_end(s, j - 1)
    } else {
        j
    }
}

/// The buffer with leading and trailing ASCII whitespace removed.
pub open spec fn trim_spec(s: Seq<u8>) -> Seq<u8> {
    let a = ws_start(s, 0);
    let b = ws_end(s, s.len() as int);
    if a <= b {
        s.subrange(a, b)
    } else {
        Seq::empty()
    }
}

/// What parsing one line of input yields: the line is trimmed of ASCII
/// whitespace and then read as a signed decimal integer.
pub open spec fn spec_parse_line(s: Seq<u8>) -> Option<i64> {
    spec_parse_dec(trim_spec(s))
}

proof fn lemma_ws_start_bounds(s: Seq<u8>, i: int)
    requires
        0 <= i <= s.len(),
    ensures
        i <= ws_start(s, i) <= s.len(),
    decreases s.len() - i,
{
    if i < s.len() && is_ws(s[i]) {
        lemma_ws_start_bounds(s, i + 1);
    }
}

proof fn lemma_ws_end_bounds(s: Seq<u8>, j: int)
    requires
        0 <= j <= s.len(),
    ensures
        0 <= ws_end(s, j) <= j,
    decreases j,
{
    if j > 0 && is_ws(s[j - 1]) {
        lemma_ws_end_bounds(s, j - 1);
    }
}

fn is_ws_byte(b: u8) -> (r: bool)
    ensures
        r == is_ws(b),
{
    b == 32 || b == 9 || b == 13 || b == NEWLINE
}

/// Parses `bytes[from..to]`, trimmed of ASCII whitespace, as a signed
/// decimal integer.
pub fn parse_line_range(bytes: &Vec<u8>, from: usize, to: usize) -> (r: Option<i64>)
    requires
        from <= to <= bytes@.len(),
    ensures
        r == spec_parse_line(bytes@.subrange(from as int, to as int)),
{
    let ghost l = bytes@.subrange(from as int, to as int);
    let mut lo = from;
    while lo < to && is_ws_byte(bytes[lo])
        invariant
            from <= lo <= to <= bytes@.len(),
            l == bytes@.subrange(from as int, to as int),
            ws_start(l, 0) == ws_start(l, lo - from),
        decreases to - lo,
    {
        proof {
            assert(l[lo - from] == bytes@[lo as int]);
        }
        lo = lo + 1;
    }
    proof {
        if lo < to {
            assert(l[lo - from] == bytes@[lo as int]);
            assert(!is_ws(l[lo - from]));
        }
        assert(ws_start(l, 0) == lo - from);
    }
    let mut hi = to;
    while hi > lo && is_ws_byte(bytes[hi - 1])
        invariant
            from <= lo <= hi <= to <= bytes@.len(),
            l == bytes@.subrange(from as int, to as int),
            ws_start(l, 0) == lo - from,
            lo < to ==> !is_ws(l[lo - from]),
            lo < to ==> hi > lo,
            ws_end(l, to - from) == ws_end(l, hi - from),
        decreases hi,
    {
        proof {
            assert(l[hi - 1 - from] == bytes@[hi - 1]);
        }
        hi = hi - 1;
    }
    proof {
        if hi > lo {
            assert(l[hi - 1 - from] == bytes@[hi - 1]);
            assert(!is_ws(l[hi - 1 - from]));
            assert(ws_end(l, hi - from) == hi - from);
        }
        lemma_ws_end_bounds(l, hi - from);
        lemma_ws_start_bounds(l, 0);
    }
    if lo >= hi {
        proof {
            assert(trim_spec(l).len() == 0);
            assert(!is_signed_dec(trim_spec(l)));
        }
        return None;
    }
    let r = parse_dec_range(bytes, lo, hi);
    proof {
        assert(bytes@.subrange(lo as int, hi as int) =~= trim_spec(l));
    }
    r
}

/// The decimal digit bytes of `n`, most significant first.
pub open spec fn dec_digits_bytes(n: nat) -> Seq<u8> {
    spec_digits(n).map_values(|d: nat| (48 + d) as u8)
}

/// The decimal text of `v`: a leading minus sign for negative values,
/// then the digits, with no other decoration.
pub open spec fn dec_bytes(v: int) -> Seq<u8> {
    if v < 0 {
        seq![MINUS] + dec_digits_bytes((-v) as nat)
    } else {
        dec_digits_bytes(v as nat)
    }
}

/// Appends the decimal text of `v` to `out`.
pub fn push_decimal(out: &mut Vec<u8>, v: i64)
    ensures
        final(out)@ == old(out)@ + dec_bytes(v as int),
{
    let ghost base = old(out)@;
    let mag: u64 = if v == i64::MIN {
        9_223_372_036_854_775_808u64
    } else if v < 0 {
        (-v) as u64
    } else {
        v as u64
    };
    if v < 0 {
        out.push(MINUS);
    }
    let ghost target = dec_digits_bytes(mag as nat);
    let mut rev: Vec<u8> = Vec::new();
    let mut n = mag;
    proof {
        assert(target =~= spec_digits(n as nat).map_values(|d: nat| (48 + d) as u8) + rev@.reverse());
    }
    while n > 9
        invariant
            target == spec_digits(n as nat).map_values(|d: nat| (48 + d) as u8) + rev@.reverse(),
        decreases n,
    {
        let b: u8 = 48 + (n % 10) as u8;
        rev.push(b);
        proof {
            let f = |d: nat| (48 + d) as u8;
            assert(rev@.reverse() =~= seq![b] + rev@.drop_last().reverse());
            assert(spec_digits((n / 10) as nat).map_values(f) + rev@.reverse() =~= spec_digits(
                n as nat,
            ).map_values(f) + rev@.drop_last().reverse());
        }
        n = n / 10;
    }
    let b: u8 = 48 + (n % 10) as u8;
    rev.push(b);
    proof {
        let f = |d: nat| (48 + d) as u8;
        assert(rev@.reverse() =~= seq![b] + rev@.drop_last().reverse());
        assert(spec_digits(n as nat).map_values(f) =~= seq![b]);
        assert(target =~= rev@.reverse());
    }
    let mut i: usize = rev.len();
    proof {
        assert(out@ + target.take(0) =~= out@);
    }
    while i > 0
        invariant
            i <= rev@.len(),
            target == rev@.reverse(),
            out@ == base + dec_bytes(v as int).take(dec_bytes(v as int).len() - i),
            dec_bytes(v as int).len() == (if v < 0 { 1int } else { 0int }) + rev@.len(),
            v < 0 ==> dec_bytes(v as int) == seq![MINUS] + target,
            v >= 0 ==> dec_bytes(v as int) == target,
        decreases i,
    {
        i = i - 1;
        let d: u8 = rev[i];
        out.push(d);
        proof {
            let full = dec_bytes(v as int);
            let k = full.len() - i - 1;
            assert(target[rev@.len() - 1 - i] == d);
            assert(full[k] == d);
            assert(full.take(k + 1) =~= full.take(k) + seq![d]);
            assert(out@ =~= base + full.take(k + 1));
        }
    }
    proof {
        assert(dec_bytes(v as int).take(dec_bytes(v as int).len() as int) =~= dec_bytes(v as int));
    }
}

/// The numeric value of one decimal digit character.
pub open spec fn char_digit_val(c: char) -> nat {
    if 48 <= c as int <= 57 {
        (c as int - 48) as nat
    } else {
        0
    }
}

pub open spec fn is_digit_char(c: char) -> bool {
    48 <= c as int <= 57
}

/// A non-empty run of decimal digit characters.
pub open spec fn is_unsigned_dec_chars(s: Seq<char>) -> bool {
    s.len() > 0 && forall|i: int| 0 <= i < s.len() ==> is_digit_char(#[trigger] s[i])
}

/// The number a run of decimal digit characters denotes.
pub open spec fn chars_dec_val(s: Seq<char>) -> nat {
    digits_val(s.map_values(|c: char| char_digit_val(c)))
}

/// Reads a run of decimal digit characters as an unsigned number.
pub fn parse_u64_chars(s: &str) -> (r: u64)
    requires
        is_unsigned_dec_chars(s@),
        chars_dec_val(s@) <= u64::MAX,
    ensures
        r as nat == chars_dec_val(s@),
{
    let ghost dm = s@.map_values(|c: char| char_digit_val(c));
    let n = s.unicode_len();
    let mut acc: u64 = 0;
    let mut i: usize = 0;
    proof {
        assert(dm.take(0) =~= Seq::<nat>::empty());
    }
    while i < n
        invariant
            i <= n,
            n == s@.len(),
            is_unsigned_dec_chars(s@),
            dm == s@.map_values(|c: char| char_digit_val(c)),
            digits_val(dm) <= u64::MAX,
            acc as nat == digits_val(dm.take(i as int)),
        decreases n - i,
    {
        let c = s.get_char(i);
        let d: u32 = c as u32 - 48;
        proof {
            assert(is_digit_char(s@[i as int]));
            assert(dm.take(i + 1).drop_last() =~= dm.take(i as int));
            assert(dm[i as int] == char_digit_val(c));
            lemma_digits_val_prefix(dm, i + 1);
        }
        acc = acc * 10 + (d as u64);
        i = i + 1;
    }
    proof {
        assert(dm.take(n as int) =~= dm);
    }
    acc
}


/// A non-empty run of decimal digit characters, optionally preceded by
/// one sign character.
pub open spec fn is_signed_dec_chars(s: Seq<char>) -> bool {
    if s.len() == 0 {
        false
    } else if s[0] == '-' || s[0] == '+' {
        s.len() > 1 && is_unsigned_dec_chars(s.skip(1))
    } else {
        is_unsigned_dec_chars(s)
    }
}

/// The integer a signed run of decimal digit characters denotes.
pub open spec fn signed_dec_val_chars(s: Seq<char>) -> int {
    if s.len() > 0 && s[0] == '-' {
        -(chars_dec_val(s.skip(1)) as int)
    } else if s.len() > 0 && s[0] == '+' {
        chars_dec_val(s.skip(1)) as int
    } else {
        chars_dec_val(s) as int
    }
}

/// What parsing a character run as a signed 64-bit decimal integer
/// yields: `None` unless the whole run is well formed and the value fits.
pub open spec fn spec_parse_i64_chars(s: Seq<char>) -> Option<i64> {
    if is_signed_dec_chars(s) && i64::MIN <= signed_dec_val_chars(s) <= i64::MAX {
        Some(signed_dec_val_chars(s) as i64)
    } else {
        None
    }
}

/// Parses a character run as a signed decimal integer.
pub fn parse_i64_chars(s: &str) -> (r: Option<i64>)
    ensures
        r == spec_parse_i64_chars(s@),
{
    let n = s.unicode_len();
    if n == 0 {
        return None;
    }
    let first = s.get_char(0);
    let negative: bool = first == '-';
    let start: usize = if first == '-' || first == '+' {
        1
    } else {
        0
    };
    let ghost digits = s@.skip(start as int);
    proof {
        if start == 0 {
            assert(digits =~= s@);
        }
    }
    if start == n {
        // A lone sign character is not a number.
        return None;
    }
    let limit: u128 = if negative {
        9_223_372_036_854_775_808u128
    } else {
        9_223_372_036_854_775_807u128
    };
    let ghost dm = digits.map_values(|c: char| char_digit_val(c));
    let mut acc: u128 = 0;
    let mut i: usize = start;
    proof {
        assert(dm.take(0) =~= Seq::<nat>::empty());
    }
    while i < n
        invariant
            start <= i <= n,
            start < n,
            start <= 1,
            n == s@.len(),
            digits == s@.skip(start as int),
            start == 1 ==> (s@[0] == '-' || s@[0] == '+'),
            start == 0 ==> !(s@[0] == '-' || s@[0] == '+'),
            negative <==> (s@.len() > 0 && s@[0] == '-'),
            (negative ==> limit == 9_223_372_036_854_775_808u128),
            (!negative ==> limit == 9_223_372_036_854_775_807u128),
            digits.len() == n - start,
            dm == digits.map_values(|c: char| char_digit_val(c)),
            forall|k: int| 0 <= k < i - start ==> is_digit_char(#[trigger] digits[k]),
            acc <= limit,
            limit < 0x1_0000_0000_0000_0000u128,
            acc as nat == digits_val(dm.take(i - start)),
        decreases n - i,
    {
        let c = s.get_char(i);
        let u = c as u32;
        proof {
            assert(digits[i - start] == s@[i as int]);
        }
        if u < 48 || u > 57 {
            proof {
                assert(!is_digit_char(digits[i - start]));
            }
            return None;
        }
        proof {
            assert(dm.take(i - start + 1).drop_last() =~= dm.take(i - start));
            assert(dm[i - start] == char_digit_val(c));
        }
        acc = acc * 10 + ((u - 48) as u128);
        if acc > limit {
            proof {
                lemma_digits_val_prefix(dm, i - start + 1);
                assert(chars_dec_val(digits) >= acc as nat);
                if negative {
                    assert(signed_dec_val_chars(s@) == -(chars_dec_val(digits) as int));
                    assert(signed_dec_val_chars(s@) < i64::MIN);
                } else {
                    if start == 0 {
                        assert(digits =~= s@);
                    }
                    assert(is_signed_dec_chars(s@) ==> signed_dec_val_chars(s@)
                        == chars_dec_val(digits) as int);
                    assert(is_signed_dec_chars(s@) ==> signed_dec_val_chars(s@) > i64::MAX);
                }
            }
            return None;
        }
        i = i + 1;
    }
    proof {
        assert(dm.take(n - start) =~= dm);
        assert(forall|k: int| 0 <= k < digits.len() ==> is_digit_char(#[trigger] digits[k]));
        assert(chars_dec_val(digits) == acc as nat);
        if start == 0 {
            assert(digits =~= s@);
        }
        assert(is_signed_dec_chars(s@));
    }
    if negative {
        if acc == 9_223_372_036_854_775_808u128 {
            Some(i64::MIN)
        } else {
            Some(-((acc as u64) as i64))
        }
    } else {
        Some((acc as u64) as i64)
    }
}

/// The value on the last non-empty line of a buffer, if the buffer has
/// one and it parses as a signed decimal integer.
pub open spec fn spec_last_line_value(s: Seq<u8>) -> Option<i64> {
    if nonempty_lines(s, 0).len() == 0 {
        None
    } else {
        spec_parse_dec(nonempty_lines(s, 0).last())
    }
}

/// The value on the last non-empty line of a buffer, if that line parses
/// as a signed decimal integer.
pub fn last_line_value(bytes: &Vec<u8>) -> (r: Option<i64>)
    ensures
        r == spec_last_line_value(bytes@),
{
    let ghost s = bytes@;
    let ghost lines = nonempty_lines(s, 0);
    let ghost mut done: Seq<Seq<u8>> = Seq::empty();
    let mut last_bounds: Option<(usize, usize)> = None;
    let mut pos: usize = 0;
    proof {
        assert(lines =~= done + nonempty_lines(s, 0));
    }
    while pos < bytes.len()
        invariant
            pos <= s.len(),
            s == bytes@,
            lines == nonempty_lines(s, 0),
            lines == done + nonempty_lines(s, pos as int),
            (match last_bounds {
                None => done.len() == 0,
                Some((a, b)) => done.len() > 0 && a < b <= s.len() && done.last() == s.subrange(
                    a as int,
                    b as int,
                ),
            }),
        decreases s.len() - pos,
    {
        let e = find_line_end(bytes, pos);
        if e > pos {
            last_bounds = Some((pos, e));
            proof {
                done = done + seq![s.subrange(pos as int, e as int)];
                assert(lines =~= done + (if e < s.len() {
                    nonempty_lines(s, e as int + 1)
                } else {
                    Seq::empty()
                }));
            }
        }
        if e < bytes.len() {
            pos = e + 1;
        } else {
            pos = e;
            proof {
                assert(nonempty_lines(s, e as int) == Seq::<Seq<u8>>::empty());
            }
        }
    }
    proof {
        assert(nonempty_lines(s, pos as int) == Seq::<Seq<u8>>::empty());
        assert(lines =~= done);
    }
    match last_bounds {
        None => None,
        Some((a, b)) => parse_dec_range(bytes, a, b),
    }
}

} // verus!
