//! Rounded division and the unit ladder behind human-readable counts.

use crate::decimal::{decimal, digit_char, digit_of, push_decimal};
use vstd::arithmetic::div_mod::{
    lemma_fundamental_div_mod, lemma_fundamental_div_mod_converse, lemma_mod_bound,
};
use vstd::arithmetic::power::pow;
use vstd::prelude::*;

verus! {

/// `n / d`, rounded up.
pub open spec fn ceil_div(n: int, d: int) -> int {
    if n % d == 0 {
        n / d
    } else {
        n / d + 1
    }
}

/// `n / d`, rounded to the nearest whole number. A value half way between
/// two whole numbers goes to the even one.
pub open spec fn round_div(n: int, d: int) -> int {
    if 2 * (n % d) < d {
        n / d
    } else if 2 * (n % d) > d {
        n / d + 1
    } else if (n / d) % 2 == 0 {
        n / d
    } else {
        n / d + 1
    }
}

/// `ceil_div` is the least whole number that is not below `n / d`.
pub proof fn lemma_ceil_div(n: int, d: int)
    requires
        n >= 0,
        d > 0,
    ensures
        (ceil_div(n, d) - 1) * d < n <= ceil_div(n, d) * d,
{
    lemma_fundamental_div_mod(n, d);
    lemma_mod_bound(n, d);
    assert((n / d + 1) * d == d * (n / d) + d) by (nonlinear_arith);
    assert((n / d - 1) * d == d * (n / d) - d) by (nonlinear_arith);
    assert((n / d) * d == d * (n / d)) by (nonlinear_arith);
}

/// `round_div` is a whole number nearest to `n / d`: it is off by half at
/// most.
pub proof fn lemma_round_div(n: int, d: int)
    requires
        n >= 0,
        d > 0,
    ensures
        2 * (round_div(n, d) * d - n) <= d,
        2 * (n - round_div(n, d) * d) <= d,
{
    lemma_fundamental_div_mod(n, d);
    lemma_mod_bound(n, d);
    assert((n / d + 1) * d == d * (n / d) + d) by (nonlinear_arith);
    assert((n / d) * d == d * (n / d)) by (nonlinear_arith);
}

/// The unit suffixes, from single units up.
pub open spec fn unit_ladder() -> Seq<char> {
    seq!['B', 'k', 'M', 'G', 'T', 'P', 'E', 'Z', 'Y']
}

/// How often `num` can be divided by `base` before it drops below `base`,
/// but at most `limit` times: the whole part of the logarithm of `num` to
/// `base`, capped at `limit`.
pub open spec fn unit_exponent(num: nat, base: nat, limit: nat) -> nat
    decreases limit,
{
    if limit == 0 || num < base || base < 2 {
        0
    } else {
        1 + unit_exponent(num / base, base, (limit - 1) as nat)
    }
}

/// A number with one decimal place, given in tenths.
pub open spec fn tenths_text(t: int) -> Seq<char> {
    decimal((t / 10) as nat) + seq!['.', digit_char(t % 10)]
}

/// A count in human-readable form. Zero is written bare. Any other count
/// is scaled down by the largest power of `base` that does not exceed it,
/// the eighth power at most, written with one decimal place and followed
/// by the unit of that power.
pub open spec fn count_text(num: nat, base: nat) -> Seq<char> {
    if num < 1 {
        seq!['0']
    } else {
        let e = unit_exponent(num, base, 8);
        tenths_text(round_div(10 * (num as int), pow(base as int, e))).push(unit_ladder()[e as int])
    }
}

/// The unit exponent names the largest power of the base that does not
/// exceed the count, unless the ladder ends first.
pub proof fn lemma_unit_exponent(num: nat, base: nat, limit: nat)
    requires
        num >= 1,
        base >= 2,
    ensures
        unit_exponent(num, base, limit) <= limit,
        pow(base as int, unit_exponent(num, base, limit)) <= num,
        unit_exponent(num, base, limit) < limit ==> num < pow(
            base as int,
            unit_exponent(num, base, limit) + 1,
        ),
    decreases limit,
{
    reveal(pow);
    if limit == 0 || num < base {
        assert(pow(base as int, 0) == 1);
        assert(pow(base as int, 1) == base * pow(base as int, 0));
    } else {
        let q = num / base;
        let e = unit_exponent(q, base, (limit - 1) as nat);
        assert(q >= 1) by (nonlinear_arith)
            requires
                q == num / base,
                num >= base,
                base >= 2,
        ;
        lemma_unit_exponent(q, base, (limit - 1) as nat);
        assert(pow(base as int, e + 1) == base * pow(base as int, e));
        assert(base * pow(base as int, e) <= num) by (nonlinear_arith)
            requires
                pow(base as int, e) <= q,
                q == num / base,
                base >= 2,
        ;
        if e + 1 < limit {
            assert(pow(base as int, e + 2) == base * pow(base as int, e + 1));
            assert(num < base * pow(base as int, e + 1)) by (nonlinear_arith)
                requires
                    q < pow(base as int, e + 1),
                    q == num / base,
                    base >= 2,
            ;
        }
    }
}

/// Rounding ten times a number is rounding ten times its remainder, on
/// top of ten times its quotient.
pub proof fn lemma_round_tenths(num: int, p: int)
    requires
        num >= 0,
        p > 0,
    ensures
        round_div(10 * num, p) == 10 * (num / p) + round_div(10 * (num % p), p),
        0 <= round_div(10 * (num % p), p) <= 10,
{
    let q = num / p;
    let r = num % p;
    let a = (10 * r) / p;
    let b = (10 * r) % p;
    assert(num == q * p + r) by (nonlinear_arith)
        requires
            q == num / p,
            r == num % p,
            p > 0,
    ;
    assert(10 * r == a * p + b) by (nonlinear_arith)
        requires
            a == (10 * r) / p,
            b == (10 * r) % p,
            p > 0,
    ;
    assert(10 * num == (10 * q + a) * p + b) by (nonlinear_arith)
        requires
            num == q * p + r,
            10 * r == a * p + b,
    ;
    assert(0 <= b < p);
    lemma_fundamental_div_mod_converse(10 * num, p, 10 * q + a, b);
    assert(a <= 9) by (nonlinear_arith)
        requires
            10 * r == a * p + b,
            r < p,
            0 <= b,
            p > 0,
    ;
}

/// Appends a number with one decimal place, given as its whole part and
/// its tenths digit.
pub fn push_tenths(out: &mut Vec<char>, whole: u128, tenth: u8)
    requires
        tenth < 10,
    ensures
        final(out)@ == old(out)@ + tenths_text(10 * whole + tenth),
{
    push_decimal(out, whole);
    out.push('.');
    out.push(digit_of(tenth));
    assert((10 * whole + tenth) / 10 == whole);
    assert((10 * whole + tenth) % 10 == tenth);
}

/// `n / d` rounded to the nearest whole number, ties to the even one.
pub fn rounded_div(n: u128, d: u128) -> (r: u128)
    requires
        d > 0,
        n / d < u128::MAX,
    ensures
        r == round_div(n as int, d as int),
{
    let q = n / d;
    let rest = n % d;
    let other = d - rest;
    if rest < other {
        q
    } else if rest > other {
        q + 1
    } else if q % 2 == 0 {
        q
    } else {
        q + 1
    }
}

} // verus!
