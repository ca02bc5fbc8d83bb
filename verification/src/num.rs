//! Fixed-point scalar arithmetic.
//!
//! Every world-space quantity in this crate is a fixed-point number: an
//! `i64` counting steps of `1 / SCALE` of a world unit.  All rescaling
//! divisions round toward zero, which `tdiv` captures in spec land.

use vstd::prelude::*;

verus! {

/// Fixed-point steps per world unit.
pub const SCALE: i64 = 1000;

/// Largest coordinate (fixed-point) a scene object or ray may use.
pub const COORD_MAX: i64 = 10_000_000;

/// Largest component (fixed-point) a surface normal may have.
pub const NORMAL_MAX: i64 = 10_000;

/// Largest ray parameter `t` (fixed-point) the tracer searches.
pub const T_MAX: i64 = 10_000_000_000;

/// Truncating (round-toward-zero) division, the rounding that every
/// fixed-point rescale in this crate uses.
pub open spec fn tdiv(a: int, b: int) -> int
    recommends
        b > 0,
{
    if a >= 0 {
        a / b
    } else {
        -((-a) / b)
    }
}

/// The integer square root: the unique `r >= 0` with
/// `r * r <= n < (r + 1) * (r + 1)`.
pub closed spec fn sqrt_floor(n: int) -> int {
    choose|r: int| 0 <= r && #[trigger] (r * r) <= n && n < (r + 1) * (r + 1)
}

proof fn lemma_sqrt_floor_unique(n: int, r1: int, r2: int)
    requires
        0 <= r1 && r1 * r1 <= n && n < (r1 + 1) * (r1 + 1),
        0 <= r2 && r2 * r2 <= n && n < (r2 + 1) * (r2 + 1),
    ensures
        r1 == r2,
{
    assert(r1 < r2 + 1 && r2 < r1 + 1) by (nonlinear_arith)
        requires
            0 <= r1 && r1 * r1 <= n && n < (r1 + 1) * (r1 + 1),
            0 <= r2 && r2 * r2 <= n && n < (r2 + 1) * (r2 + 1),
    ;
}

/// `sqrt_floor` deserves its name on every non-negative argument.
pub proof fn lemma_sqrt_floor(n: int, r: int)
    requires
        0 <= r && r * r <= n && n < (r + 1) * (r + 1),
    ensures
        sqrt_floor(n) == r,
{
    assert(exists|q: int| 0 <= q && #[trigger] (q * q) <= n && n < (q + 1) * (q + 1));
    let q = sqrt_floor(n);
    lemma_sqrt_floor_unique(n, q, r);
}

/// Every non-negative integer has an integer square root.
proof fn lemma_sqrt_exists(n: nat)
    ensures
        exists|r: int| 0 <= r && #[trigger] (r * r) <= n && n < (r + 1) * (r + 1),
    decreases n,
{
    if n == 0 {
        assert(0 <= 0 && 0 * 0 <= n && n < (0 + 1) * (0 + 1)) by (nonlinear_arith)
            requires
                n == 0,
        ;
    } else {
        lemma_sqrt_exists((n - 1) as nat);
        let r = choose|r: int|
            0 <= r && #[trigger] (r * r) <= n - 1 && n - 1 < (r + 1) * (r + 1);
        if n < (r + 1) * (r + 1) {
            assert(r * r <= n < (r + 1) * (r + 1));
        } else {
            assert(n == (r + 1) * (r + 1));
            assert((r + 1) * (r + 1) <= n < (r + 2) * (r + 2)) by (nonlinear_arith)
                requires
                    n == (r + 1) * (r + 1) && r >= 0,
            ;
        }
    }
}

/// The defining property of `sqrt_floor` on non-negative arguments.
pub proof fn lemma_sqrt_floor_props(n: int)
    requires
        0 <= n,
    ensures
        0 <= sqrt_floor(n),
        sqrt_floor(n) * sqrt_floor(n) <= n,
        n < (sqrt_floor(n) + 1) * (sqrt_floor(n) + 1),
{
    lemma_sqrt_exists(n as nat);
}

/// Truncating division is monotone in the numerator.
pub proof fn lemma_tdiv_mono(a: int, b: int, d: int)
    requires
        a <= b,
        1 <= d,
    ensures
        tdiv(a, d) <= tdiv(b, d),
{
    if 0 <= a {
        vstd::arithmetic::div_mod::lemma_div_is_ordered(a, b, d);
    } else if b < 0 {
        vstd::arithmetic::div_mod::lemma_div_is_ordered(-b, -a, d);
    } else {
        lemma_tdiv_shrinks(a, d);
        lemma_tdiv_shrinks(b, d);
    }
}

/// Integer square root by bisection.
pub fn isqrt(n: u128) -> (r: u128)
    ensures
        r * r <= n < (r + 1) * (r + 1),
        r == sqrt_floor(n as int),
{
    let mut lo: u128 = 0;
    let mut hi: u128 = 0x1_0000_0000_0000_0000;
    if n < hi {
        hi = n + 1;
    }
    proof {
        assert(lo * lo <= n);
        assert(n < hi * hi) by (nonlinear_arith)
            requires
                hi == 0x1_0000_0000_0000_0000 && n < hi * hi || (hi == n + 1 && n < hi),
        ;
    }
    while hi - lo > 1
        invariant
            lo < hi <= 0x1_0000_0000_0000_0000,
            lo * lo <= n,
            n < hi * hi,
        decreases hi - lo,
    {
        let mid = lo + (hi - lo) / 2;
        proof {
            assert(mid * mid < 0x1_0000_0000_0000_0000_0000_0000_0000_0000) by (nonlinear_arith)
                requires
                    0 <= mid < 0x1_0000_0000_0000_0000,
            ;
        }
        if mid * mid <= n {
            lo = mid;
        } else {
            hi = mid;
        }
    }
    proof {
        lemma_sqrt_floor(n as int, lo as int);
    }
    lo
}

/// Truncating division on wide integers, matching `tdiv`.
pub fn div_trunc(a: i128, b: i128) -> (q: i128)
    requires
        1 <= b,
        -0x7fff_ffff_ffff_ffff_ffff_ffff_ffff_ffff <= a,
    ensures
        q == tdiv(a as int, b as int),
{
    if a >= 0 {
        let q = (a as u128) / (b as u128);
        q as i128
    } else {
        let q = ((-a) as u128) / (b as u128);
        -(q as i128)
    }
}

/// Truncating division shrinks magnitudes: `|tdiv(a, b)| <= |a|` for `b >= 1`.
pub proof fn lemma_tdiv_shrinks(a: int, b: int)
    requires
        1 <= b,
    ensures
        a >= 0 ==> 0 <= tdiv(a, b) <= a,
        a < 0 ==> a <= tdiv(a, b) <= 0,
{
    if a >= 0 {
        assert(0 <= a / b <= a) by (nonlinear_arith)
            requires
                a >= 0 && b >= 1,
        ;
    } else {
        assert(0 <= (-a) / b <= -a) by (nonlinear_arith)
            requires
                -a >= 0 && b >= 1,
        ;
    }
}

/// A truncating division of a larger by a smaller positive number is at
/// least one.
pub proof fn lemma_tdiv_ge_one(a: int, b: int)
    requires
        1 <= b <= a,
    ensures
        1 <= tdiv(a, b) <= a,
{
    lemma_tdiv_shrinks(a, b);
    vstd::arithmetic::div_mod::lemma_fundamental_div_mod(a, b);
    let q = a / b;
    let rm = a % b;
    assert(q >= 1) by (nonlinear_arith)
        requires
            a == b * q + rm && 0 <= rm < b && 1 <= b <= a,
    ;
}

/// Truncating division leaves a remainder smaller than the divisor, on
/// either side of zero.
pub proof fn lemma_tdiv_remainder(a: int, b: int)
    requires
        1 <= b,
    ensures
        -b < a - b * tdiv(a, b) < b,
        a >= 0 ==> 0 <= a - b * tdiv(a, b),
        a < 0 ==> a - b * tdiv(a, b) <= 0,
{
    if a >= 0 {
        vstd::arithmetic::div_mod::lemma_fundamental_div_mod(a, b);
        vstd::arithmetic::div_mod::lemma_mod_division_less_than_divisor(a, b);
    } else {
        vstd::arithmetic::div_mod::lemma_fundamental_div_mod(-a, b);
        vstd::arithmetic::div_mod::lemma_mod_division_less_than_divisor(-a, b);
        assert(a - b * tdiv(a, b) == -((-a) - b * ((-a) / b))) by (nonlinear_arith)
            requires
                tdiv(a, b) == -((-a) / b),
        ;
    }
}

/// The fixed-point product of two channels in `[0, 1]` stays in
/// `[0, 1]`, never exceeds either factor, and multiplying by exactly
/// one changes nothing.
pub proof fn lemma_unit_times(a: int, b: int)
    requires
        0 <= a <= SCALE,
        0 <= b <= SCALE,
    ensures
        0 <= tdiv(a * b, SCALE as int) <= SCALE,
        tdiv(a * b, SCALE as int) <= a,
        tdiv(a * b, SCALE as int) <= b,
        a == SCALE ==> tdiv(a * b, SCALE as int) == b,
{
    assert(0 <= a * b <= SCALE as int * SCALE as int) by (nonlinear_arith)
        requires
            0 <= a <= SCALE as int && 0 <= b <= SCALE as int,
    ;
    vstd::arithmetic::div_mod::lemma_div_is_ordered(a * b, SCALE as int * SCALE as int, SCALE as int);
    vstd::arithmetic::div_mod::lemma_div_multiples_vanish(SCALE as int, SCALE as int);
    lemma_tdiv_shrinks(a * b, SCALE as int);
    assert(a * b <= SCALE as int * a && a * b <= SCALE as int * b) by (nonlinear_arith)
        requires
            0 <= a <= SCALE as int && 0 <= b <= SCALE as int,
    ;
    vstd::arithmetic::div_mod::lemma_div_is_ordered(a * b, SCALE as int * a, SCALE as int);
    vstd::arithmetic::div_mod::lemma_div_is_ordered(a * b, SCALE as int * b, SCALE as int);
    vstd::arithmetic::div_mod::lemma_div_multiples_vanish(a, SCALE as int);
    vstd::arithmetic::div_mod::lemma_div_multiples_vanish(b, SCALE as int);
}

/// Truncating division respects bounds on the numerator:
/// if `|a| <= c * b` then `|tdiv(a, b)| <= c`.
pub proof fn lemma_tdiv_bound(a: int, b: int, c: int)
    requires
        1 <= b,
        0 <= c,
        -(c * b) <= a <= c * b,
    ensures
        -c <= tdiv(a, b) <= c,
{
    if a >= 0 {
        assert(a / b <= c) by (nonlinear_arith)
            requires
                b >= 1 && 0 <= a <= c * b && 0 <= c,
        ;
        lemma_tdiv_shrinks(a, b);
    } else {
        assert((-a) / b <= c) by (nonlinear_arith)
            requires
                b >= 1 && 0 <= -a <= c * b && 0 <= c,
        ;
        lemma_tdiv_shrinks(a, b);
    }
}

} // verus!
