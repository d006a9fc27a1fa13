use vstd::prelude::*;

use vstd::arithmetic::div_mod::{lemma_div_denominator, lemma_hoist_over_denominator, lemma_multiply_divide_lt};

verus! {

pub open spec fn is_digit(c: char) -> bool {
    '0' <= c && c <= '9'
}

pub open spec fn digit_value(c: char) -> nat {
    ((c as u32) - ('0' as u32)) as nat
}

/// The number that a string of decimal digits writes.
pub open spec fn digits_value(s: Seq<char>) -> nat
    decreases s.len(),
{
    if s.len() == 0 {
        0
    } else {
        digits_value(s.drop_last()) * 10 + digit_value(s.last())
    }
}

pub open spec fn pow10(k: nat) -> nat
    decreases k,
{
    if k == 0 {
        1
    } else {
        10 * pow10((k - 1) as nat)
    }
}

pub open spec fn all_digits(s: Seq<char>) -> bool {
    forall|i: int| 0 <= i < s.len() ==> is_digit(#[trigger] s[i])
}

/// `x`, or the largest `u128` where `x` is larger.
pub open spec fn saturate(x: nat) -> nat {
    if x > u128::MAX {
        u128::MAX as nat
    } else {
        x
    }
}

pub proof fn lemma_pow10_positive(k: nat)
    ensures
        pow10(k) >= 1,
    decreases k,
{
    if k > 0 {
        lemma_pow10_positive((k - 1) as nat);
    }
}

/// Digits written after others shift them by a power of ten.
pub proof fn lemma_digits_concat(a: Seq<char>, b: Seq<char>)
    ensures
        digits_value(a + b) == digits_value(a) * pow10(b.len()) + digits_value(b),
    decreases b.len(),
{
    if b.len() == 0 {
        assert(a + b =~= a);
        assert(pow10(0) == 1);
        assert(digits_value(b) == 0);
    } else {
        let ab = a + b;
        assert(ab.drop_last() =~= a + b.drop_last());
        assert(ab.last() == b.last());
        lemma_digits_concat(a, b.drop_last());
        let k = b.drop_last().len();
        assert(pow10(b.len()) == 10 * pow10(k));
        let x = digits_value(a);
        let y = digits_value(b.drop_last());
        let l = digit_value(b.last());
        assert(digits_value(ab) == digits_value(a + b.drop_last()) * 10 + l);
        assert(digits_value(b) == y * 10 + l);
        assert((x * pow10(k) + y) * 10 == x * (10 * pow10(k)) + y * 10) by (nonlinear_arith);
    }
}

pub proof fn lemma_single_digit(c: char)
    ensures
        digits_value(seq![c]) == digit_value(c),
{
    let s = seq![c];
    assert(s.drop_last() =~= Seq::<char>::empty());
    assert(digits_value(s.drop_last()) == 0);
}

/// A string of `k` digits writes a number below `10^k`.
pub proof fn lemma_digits_bound(s: Seq<char>)
    requires
        all_digits(s),
    ensures
        digits_value(s) < pow10(s.len()),
    decreases s.len(),
{
    if s.len() > 0 {
        let p = s.drop_last();
        assert(all_digits(p));
        lemma_digits_bound(p);
        assert(is_digit(s[s.len() - 1]));
        let x = digits_value(p);
        let q = pow10(p.len());
        assert(x + 1 <= q);
        assert(x * 10 + 9 < q * 10) by (nonlinear_arith)
            requires
                x + 1 <= q,
        ;
    }
}

/// The whole bytes in `int_part.frac` times `m`: the integer part scales
/// exactly, the fraction contributes its floor.
pub proof fn lemma_scale_split(int_part: Seq<char>, frac: Seq<char>, m: nat)
    ensures
        digits_value(int_part + frac) * m / pow10(frac.len()) == digits_value(int_part) * m
            + digits_value(frac) * m / pow10(frac.len()),
{
    lemma_digits_concat(int_part, frac);
    lemma_pow10_positive(frac.len());
    let p = pow10(frac.len());
    let i = digits_value(int_part);
    let f = digits_value(frac);
    assert((i * p + f) * m == f * m + (i * m) * p) by (nonlinear_arith);
    lemma_hoist_over_denominator((f * m) as int, (i * m) as int, p);
}

/// A fraction below one contributes less than `m` whole bytes.
pub proof fn lemma_fraction_below(frac: Seq<char>, m: nat)
    requires
        all_digits(frac),
        m > 0,
    ensures
        digits_value(frac) * m / pow10(frac.len()) < m,
{
    lemma_digits_bound(frac);
    let p = pow10(frac.len());
    let f = digits_value(frac);
    assert(f * m < p * m) by (nonlinear_arith)
        requires
            f < p,
            m > 0,
    ;
    lemma_multiply_divide_lt((f * m) as int, p as int, m as int);
}

/// One more leading fraction digit `d` before the digits that write `s`.
pub proof fn lemma_fraction_step(d: nat, s: nat, len: nat, m: nat)
    ensures
        (d * pow10(len) + s) * m / pow10(len + 1) == (d * m + s * m / pow10(len))
            / 10,
{
    lemma_pow10_positive(len);
    let p = pow10(len);
    assert(pow10(len + 1) == 10 * p);
    assert((d * p + s) * m == s * m + (d * m) * p) by (nonlinear_arith);
    lemma_hoist_over_denominator((s * m) as int, (d * m) as int, p);
    let x = (d * p + s) * m;
    lemma_div_denominator(x as int, p as int, 10);
    assert(p * 10 == 10 * p);
}

} // verus!
