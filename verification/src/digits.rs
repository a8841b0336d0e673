//! Decimal digit sequences of unsigned numbers, and the value a digit
//! sequence denotes.

use vstd::prelude::*;

verus! {

/// The decimal digits of `n`, most significant first; `0` is the single
/// digit `[0]`.
pub open spec fn spec_digits(n: nat) -> Seq<nat>
    decreases n,
{
    if n <= 9 {
        seq![n]
    } else {
        spec_digits(n / 10) + seq![n % 10]
    }
}

/// The number denoted by a sequence of decimal digits, most significant
/// first; the empty sequence denotes 0.
pub open spec fn digits_val(s: Seq<nat>) -> nat
    decreases s.len(),
{
    if s.len() == 0 {
        0
    } else {
        digits_val(s.drop_last()) * 10 + s.last()
    }
}

/// The digits of `n` denote `n` itself.
pub proof fn lemma_digits_val_of_digits(n: nat)
    ensures
        digits_val(spec_digits(n)) == n,
    decreases n,
{
    if n <= 9 {
        assert(spec_digits(n) =~= seq![n]);
        assert(spec_digits(n).drop_last() =~= Seq::<nat>::empty());
        assert(digits_val(Seq::<nat>::empty()) == 0);
        assert(spec_digits(n).last() == n);
        assert(digits_val(spec_digits(n)) == digits_val(spec_digits(n).drop_last()) * 10
            + spec_digits(n).last());
    } else {
        lemma_digits_val_of_digits(n / 10);
        assert(spec_digits(n).drop_last() =~= spec_digits(n / 10));
        assert(spec_digits(n).last() == n % 10);
        assert(digits_val(spec_digits(n)) == digits_val(spec_digits(n).drop_last()) * 10
            + spec_digits(n).last());
        assert(n == (n / 10) * 10 + n % 10) by {
            vstd::arithmetic::div_mod::lemma_fundamental_div_mod(n as int, 10);
        }
    }
}

/// The value of a prefix never exceeds the value of the whole sequence.
pub proof fn lemma_digits_val_prefix(s: Seq<nat>, i: int)
    requires
        0 <= i <= s.len(),
    ensures
        digits_val(s.take(i)) <= digits_val(s),
    decreases s.len(),
{
    if i == s.len() {
        assert(s.take(i) =~= s);
    } else {
        lemma_digits_val_prefix(s.drop_last(), i);
        assert(s.drop_last().take(i) =~= s.take(i));
    }
}

/// Splits a number into its decimal digits, most significant first.
pub fn num_to_digits_vec(val: usize) -> (r: Vec<usize>)
    ensures
        r@.map_values(|d: usize| d as nat) == spec_digits(val as nat),
{
    // Least-significant digit first, then reversed by hand.
    let mut rev: Vec<usize> = Vec::new();
    let mut n = val;
    proof {
        assert(spec_digits(val as nat) =~= spec_digits(n as nat) + rev@.map_values(
            |d: usize| d as nat,
        ).reverse());
    }
    while n > 9
        invariant
            spec_digits(val as nat) == spec_digits(n as nat) + rev@.map_values(
                |d: usize| d as nat,
            ).reverse(),
        decreases n,
    {
        let d: usize = n % 10;
        rev.push(d);
        proof {
            let m = rev@.map_values(|x: usize| x as nat);
            assert(m =~= rev@.drop_last().map_values(|x: usize| x as nat) + seq![d as nat]);
            assert(m.reverse() =~= seq![d as nat] + rev@.drop_last().map_values(
                |x: usize| x as nat,
            ).reverse());
            assert(spec_digits((n / 10) as nat) + m.reverse() =~= spec_digits(n as nat)
                + rev@.drop_last().map_values(|x: usize| x as nat).reverse());
        }
        n = n / 10;
    }
    rev.push(n);
    proof {
        let m = rev@.map_values(|x: usize| x as nat);
        assert(m =~= rev@.drop_last().map_values(|x: usize| x as nat) + seq![n as nat]);
        assert(m.reverse() =~= seq![n as nat] + rev@.drop_last().map_values(
            |x: usize| x as nat,
        ).reverse());
        assert(spec_digits(n as nat) + rev@.drop_last().map_values(|x: usize| x as nat).reverse()
            =~= m.reverse());
    }
    let ghost target = spec_digits(val as nat);
    let mut digits: Vec<usize> = Vec::new();
    let mut i: usize = rev.len();
    proof {
        assert(digits@.map_values(|x: usize| x as nat) =~= target.take(0));
    }
    while i > 0
        invariant
            i <= rev@.len(),
            target == rev@.map_values(|x: usize| x as nat).reverse(),
            digits@.map_values(|x: usize| x as nat) == target.take(rev@.len() - i),
        decreases i,
    {
        i = i - 1;
        let d: usize = rev[i];
        digits.push(d);
        proof {
            let k = rev@.len() - i - 1;
            assert(target[k] == d as nat);
            assert(digits@.map_values(|x: usize| x as nat) =~= target.take(k) + seq![d as nat]);
            assert(target.take(k + 1) =~= target.take(k) + seq![target[k]]);
        }
    }
    proof {
        assert(target.take(rev@.len() as int) =~= target);
    }
    digits
}

/// Recombines a digit sequence (most significant first) into the number it
/// denotes. The sequence must be non-empty and denote a value that fits in
/// `usize`.
pub fn digits_vec_to_num(digits: &Vec<usize>) -> (r: usize)
    requires
        digits@.len() > 0,
        digits_val(digits@.map_values(|d: usize| d as nat)) <= usize::MAX,
    ensures
        r as nat == digits_val(digits@.map_values(|d: usize| d as nat)),
{
    let ghost m = digits@.map_values(|d: usize| d as nat);
    let mut acc: usize = 0;
    let mut i: usize = 0;
    proof {
        assert(m.take(0) =~= Seq::<nat>::empty());
    }
    while i < digits.len()
        invariant
            i <= digits@.len(),
            m == digits@.map_values(|d: usize| d as nat),
            digits_val(m) <= usize::MAX,
            acc as nat == digits_val(m.take(i as int)),
        decreases digits@.len() - i,
    {
        proof {
            assert(m.take(i + 1).drop_last() =~= m.take(i as int));
            assert(digits_val(m.take(i + 1)) == digits_val(m.take(i as int)) * 10 + m[i as int]);
            lemma_digits_val_prefix(m, i + 1);
        }
        acc = acc * 10 + digits[i];
        i = i + 1;
    }
    proof {
        assert(m.take(digits@.len() as int) =~= m);
    }
    acc
}

} // verus!
