//! Quotients of whole numbers, rounded the way single precision rounds them.

use vstd::prelude::*;

verus! {

/// The whole number nearest to `num / den`, and of two the even one.
pub open spec fn nearest_even(num: int, den: int) -> int {
    let (down, rest) = (num / den, num % den);
    if 2 * rest > den || (2 * rest == den && down % 2 == 1) {
        down + 1
    } else {
        down
    }
}

/// The single-precision number nearest to `num / den`, where that is a whole
/// number: it keeps 24 binary digits, so below two to the 24th it is counted in
/// ones, from there in twos, then in fours, and so on.
pub open spec fn whole_single(num: int, den: int) -> int
    decreases num - den,
{
    if den < 1 || num < 0x100_0000 * den {
        nearest_even(num, den)
    } else {
        2 * whole_single(num, 2 * den)
    }
}

/// The parts of one in which 24 binary digits hold `num / den`: the finest of
/// `s` and its halves.
pub open spec fn parts_of_one(num: int, den: int, s: int) -> int
    decreases s,
{
    if s <= 1 || num * s < 0x100_0000 * den {
        s
    } else {
        parts_of_one(num, den, s / 2)
    }
}

/// The parts of one that are tried first: two to the 60th, in which 24 digits
/// hold every quotient that is not below two to the minus 37th.
pub const FINEST: u64 = 0x1000_0000_0000_0000;

/// `num / den` in single precision, and then rounded to a whole number, halves
/// up.
pub open spec fn rounded_single(num: int, den: int) -> int {
    if num >= 0x80_0000 * den {
        whole_single(num, den)
    } else {
        let s = parts_of_one(num, den, FINEST as int);
        (2 * nearest_even(num * s, den) + s) / (2 * s)
    }
}

/// Rounding is off by half a step at most.
proof fn lemma_nearest_even(num: int, den: int)
    requires
        0 <= num,
        1 <= den,
    ensures
        0 <= nearest_even(num, den),
        2 * num - den <= 2 * (den * nearest_even(num, den)) <= 2 * num + den,
{
    let (down, rest) = (num / den, num % den);
    assert(den * down + rest == num && 0 <= rest < den && 0 <= down) by (nonlinear_arith)
        requires
            0 <= num,
            1 <= den,
            down == num / den,
            rest == num % den,
    ;
    let r = nearest_even(num, den);
    assert(den * (down + 1) == den * down + den) by (nonlinear_arith);
}

/// A single-precision number is near what it stands for: by half of one, or by
/// half of what its last digit counts.
pub proof fn lemma_whole_single(num: int, den: int)
    requires
        0 <= num,
        1 <= den,
    ensures
        0 <= whole_single(num, den),
        num < 0x100_0000 && den == 1 ==> whole_single(num, den) == num,
        num < 0x100_0000 * den ==> 2 * num - den <= 2 * (den * whole_single(num, den)) <= 2 * num
            + den,
        num >= 0x100_0000 * den ==> 0x100_0000 * num - num <= 0x100_0000 * (den * whole_single(
            num,
            den,
        )) <= 0x100_0000 * num + num,
    decreases num - den,
{
    if num < 0x100_0000 * den {
        lemma_nearest_even(num, den);
    } else {
        lemma_whole_single(num, 2 * den);
        let r = whole_single(num, 2 * den);
        assert((2 * den) * r == den * (2 * r)) by (nonlinear_arith);
    }
}

proof fn lemma_parts_of_one(num: int, den: int, s: int)
    requires
        1 <= s,
    ensures
        1 <= parts_of_one(num, den, s) <= s,
    decreases s,
{
    if s > 1 && num * s >= 0x100_0000 * den {
        lemma_parts_of_one(num, den, s / 2);
    }
}

/// The rounded quotient is not far above the quotient.
pub proof fn lemma_rounded_single(num: int, den: int)
    requires
        0 <= num,
        1 <= den,
    ensures
        0 <= rounded_single(num, den),
        0x100_0000 * (den * rounded_single(num, den)) <= 0x100_0000 * (num + den) + num,
{
    if num >= 0x80_0000 * den {
        lemma_whole_single(num, den);
    } else {
        let s = parts_of_one(num, den, FINEST as int);
        lemma_parts_of_one(num, den, FINEST as int);
        assert(0 <= num * s) by (nonlinear_arith)
            requires
                0 <= num,
                1 <= s,
        ;
        let m = nearest_even(num * s, den);
        lemma_nearest_even(num * s, den);
        let t = (2 * m + s) / (2 * s);
        assert(0 <= t && 2 * s * t <= 2 * m + s) by (nonlinear_arith)
            requires
                0 <= m,
                1 <= s,
                t == (2 * m + s) / (2 * s),
        ;
        assert(2 * s * (den * t) <= 2 * (den * m) + s * den) by (nonlinear_arith)
            requires
                2 * s * t <= 2 * m + s,
                1 <= den,
        ;
        assert(den * t <= num + den) by (nonlinear_arith)
            requires
                2 * s * (den * t) <= 2 * (num * s) + den + s * den,
                1 <= s,
                1 <= den,
        ;
    }
}

fn round_to_even(num: u128, den: u128) -> (r: u128)
    requires
        1 <= den <= 0x1_0000_0000_0000,
        num <= 0x1_0000_0000_0000_0000_0000_0000_0000,
    ensures
        r == nearest_even(num as int, den as int),
{
    let down: u128 = num / den;
    let rest: u128 = num % den;
    proof {
        assert(down <= num && rest < den) by (nonlinear_arith)
            requires
                1 <= den,
                down == num / den,
                rest == num % den,
        ;
    }
    if 2 * rest > den || (2 * rest == den && down % 2 == 1) {
        down + 1
    } else {
        down
    }
}

fn single_whole(num: u128, den: u128) -> (r: u128)
    requires
        num <= 0x80_0000_0000,
        1 <= den <= 0x2_0000_0000,
    ensures
        r == whole_single(num as int, den as int),
        r <= 0x100_0000_0000,
{
    let mut step: u128 = 1;
    let mut unit: u128 = den;
    proof {
        lemma_whole_single(num as int, den as int);
        let w = whole_single(num as int, den as int);
        assert(w <= 0x100_0000_0000) by (nonlinear_arith)
            requires
                0x100_0000 * (den * w) <= 0x100_0000 * (num + den) + num,
                1 <= den,
                num <= 0x80_0000_0000,
                0 <= w,
        ;
    }
    while num >= 0x100_0000 * unit
        invariant
            num <= 0x80_0000_0000,
            1 <= unit <= 0x2_0000_0000,
            1 <= step <= unit,
            whole_single(num as int, den as int) == step * whole_single(num as int, unit as int),
            whole_single(num as int, den as int) <= 0x100_0000_0000,
        decreases num - unit,
    {
        let ghost rest = whole_single(num as int, 2 * unit);
        assert(step * (2 * rest) == (2 * step) * rest) by (nonlinear_arith);
        step = step * 2;
        unit = unit * 2;
    }
    let r: u128 = round_to_even(num, unit);
    step * r
}

/// The single-precision number nearest to a whole number.
pub fn nearest_single(n: u64) -> (r: u64)
    requires
        n <= 0x80_0000_0000,
    ensures
        r == whole_single(n as int, 1),
{
    single_whole(n as u128, 1) as u64
}

/// The quotient in single precision, rounded to a whole number.
pub fn divide_single(num: u64, den: u64) -> (r: u64)
    requires
        num <= 0x80_0000_0000,
        1 <= den <= 0x2_0000_0000,
    ensures
        r == rounded_single(num as int, den as int),
{
    let (n, d) = (num as u128, den as u128);
    if n >= 0x80_0000 * d {
        return single_whole(n, d) as u64;
    }
    let mut s: u128 = FINEST as u128;
    while s > 1 && n * s >= 0x100_0000 * d
        invariant
            1 <= s <= FINEST,
            n <= 0x80_0000_0000,
            d <= 0x2_0000_0000,
            parts_of_one(n as int, d as int, s as int) == parts_of_one(
                n as int,
                d as int,
                FINEST as int,
            ),
            n * s <= 0x80_0000_0000 * FINEST,
        decreases s,
    {
        s = s / 2;
        assert(n * s <= 0x80_0000_0000 * FINEST) by (nonlinear_arith)
            requires
                n <= 0x80_0000_0000,
                s <= FINEST,
        ;
    }
    proof {
        lemma_rounded_single(num as int, den as int);
        lemma_nearest_even(n * s, d as int);
    }
    let m: u128 = round_to_even(n * s, d);
    assert(2 * m <= 2 * (n * s) + 1) by (nonlinear_arith)
        requires
            2 * (d * m) <= 2 * (n * s) + d,
            1 <= d,
    ;
    let r: u128 = (2 * m + s) / (2 * s);
    assert(r <= 0x100_0000_0000) by (nonlinear_arith)
        requires
            0x100_0000 * (d * r) <= 0x100_0000 * (n + d) + n,
            1 <= d,
            n <= 0x80_0000_0000,
    ;
    r as u64
}

/// A fraction is rounded to the nearest whole number, and to the even one where
/// two are as near.
pub proof fn law_a_fraction_goes_to_the_nearest(num: int, den: int)
    requires
        den > 0,
    ensures
        2 * (nearest_even(num, den) * den - num) <= den,
        2 * (num - nearest_even(num, den) * den) <= den,
        2 * (nearest_even(num, den) * den - num) == den || 2 * (num - nearest_even(num, den) * den)
            == den ==> nearest_even(num, den) % 2 == 0,
{
    let (down, rest) = (num / den, num % den);
    assert(num == down * den + rest && 0 <= rest < den) by (nonlinear_arith)
        requires
            den > 0,
            down == num / den,
            rest == num % den,
    ;
    assert((down + 1) * den == down * den + den) by (nonlinear_arith);
}

/// A quotient of small numbers comes out within one of what it is.
pub proof fn lemma_rounded_near(num: int, den: int)
    requires
        0 <= num < 0x100_0000,
        den >= 1,
    ensures
        rounded_single(num, den) * den - num <= den,
        num - rounded_single(num, den) * den <= den,
{
    let r = rounded_single(num, den);
    assert(num < 0x100_0000 * den);
    if num >= 0x80_0000 * den {
        law_a_fraction_goes_to_the_nearest(num, den);
    } else {
        let s = parts_of_one(num, den, FINEST as int);
        lemma_parts_of_one(num, den, FINEST as int);
        let q = nearest_even(num * s, den);
        law_a_fraction_goes_to_the_nearest(num * s, den);
        assert(2 * s * r <= 2 * q + s < 2 * s * r + 2 * s) by (nonlinear_arith)
            requires
                s >= 1,
                r == (2 * q + s) / (2 * s),
        ;
        assert(r * den - num <= den) by (nonlinear_arith)
            requires
                2 * s * r <= 2 * q + s,
                2 * (q * den - num * s) <= den,
                s >= 1,
                den >= 1,
        ;
        assert(num - r * den <= den) by (nonlinear_arith)
            requires
                2 * q + s < 2 * s * r + 2 * s,
                2 * (num * s - q * den) <= den,
                s >= 1,
                den >= 1,
        ;
    }
}

/// A small whole number is held as it is.
pub proof fn lemma_small_whole(n: int)
    requires
        0 <= n < 0x100_0000,
    ensures
        whole_single(n, 1) == n,
{
}

} // verus!
