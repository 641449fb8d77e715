//! Exact integer arithmetic helpers: signed floor / truncating division and
//! integer square roots, with full functional specifications.

use vstd::prelude::*;

verus! {

use vstd::arithmetic::div_mod::lemma_fundamental_div_mod;
use vstd::arithmetic::div_mod::lemma_fundamental_div_mod_converse;
use vstd::arithmetic::div_mod::lemma_div_denominator;
use vstd::arithmetic::div_mod::lemma_div_nonincreasing;

/// Division rounding toward zero, as a mathematical function.
/// For a non-negative dividend this agrees with Euclidean division.
pub open spec fn div_trunc(a: int, b: int) -> int {
    if a >= 0 {
        a / b
    } else {
        -((-a) / b)
    }
}

/// Truncating division on machine integers, with `div_trunc` as its meaning.
pub fn div_trunc_i128(a: i128, b: i128) -> (r: i128)
    requires
        b > 0,
        a > i128::MIN,
    ensures
        r == div_trunc(a as int, b as int),
{
    if a >= 0 {
        let q = (a as u128) / (b as u128);
        proof {
            lemma_div_nonincreasing(a as int, b as int);
        }
        q as i128
    } else {
        let q = ((-a) as u128) / (b as u128);
        proof {
            lemma_div_nonincreasing((-a) as int, b as int);
        }
        -(q as i128)
    }
}

/// Flooring division on machine integers: the result is the Euclidean
/// quotient `a / b` of the mathematical integers, for a positive divisor.
pub fn div_floor_i128(a: i128, b: i128) -> (r: i128)
    requires
        b > 0,
        a > i128::MIN,
    ensures
        r == a as int / b as int,
{
    if a >= 0 {
        div_trunc_i128(a, b)
    } else {
        let n = (-a) as u128;
        let q = n / (b as u128);
        let rem = n % (b as u128);
        proof {
            lemma_fundamental_div_mod(n as int, b as int);
            lemma_div_nonincreasing(n as int, b as int);
            if rem == 0 {
                assert(a as int == (-(q as int)) * (b as int) + 0) by (nonlinear_arith)
                    requires n as int == (b as int) * (q as int) + 0, a as int == -(n as int);
                lemma_fundamental_div_mod_converse(a as int, b as int, -(q as int), 0);
            } else {
                assert(a as int == (-(q as int) - 1) * (b as int) + ((b as int) - (rem as int)))
                    by (nonlinear_arith)
                    requires
                        n as int == (b as int) * (q as int) + (rem as int),
                        a as int == -(n as int);
                lemma_fundamental_div_mod_converse(
                    a as int, b as int, -(q as int) - 1, (b as int) - (rem as int));
            }
        }
        if rem == 0 {
            -(q as i128)
        } else {
            -(q as i128) - 1
        }
    }
}

/// Splitting a division by a product into two steps is exact, for
/// truncating division just as for the flooring one.
pub proof fn lemma_div_trunc_split(a: int, c: int, d: int)
    requires
        0 < c,
        0 < d,
    ensures
        div_trunc(div_trunc(a, c), d) == div_trunc(a, c * d),
{
    assert(c * d > 0) by (nonlinear_arith)
        requires 0 < c, 0 < d;
    if a >= 0 {
        lemma_div_denominator(a, c, d);
        vstd::arithmetic::div_mod::lemma_div_pos_is_pos(a, c);
    } else {
        lemma_div_denominator(-a, c, d);
        vstd::arithmetic::div_mod::lemma_div_pos_is_pos(-a, c);
    }
}

/// A truncated quotient never grows past the dividend's magnitude.
pub proof fn lemma_div_trunc_bound(a: int, b: int)
    requires
        0 < b,
    ensures
        -a <= div_trunc(a, b) <= a || a <= div_trunc(a, b) <= -a,
{
    if a >= 0 {
        lemma_div_nonincreasing(a, b);
        vstd::arithmetic::div_mod::lemma_div_pos_is_pos(a, b);
    } else {
        lemma_div_nonincreasing(-a, b);
        vstd::arithmetic::div_mod::lemma_div_pos_is_pos(-a, b);
    }
}

/// Truncated division is monotone in the dividend's magnitude.
pub proof fn lemma_div_trunc_ordered(a: int, c: int, b: int)
    requires
        0 < b,
        0 <= a <= c,
    ensures
        0 <= div_trunc(a, b) <= div_trunc(c, b),
        -div_trunc(c, b) <= div_trunc(-a, b) <= 0,
{
    vstd::arithmetic::div_mod::lemma_div_is_ordered(a, c, b);
    vstd::arithmetic::div_mod::lemma_div_pos_is_pos(a, b);
}

/// Powers of two, the edge lengths at which a cube subdivides exactly.
pub open spec fn is_pow2(n: nat) -> bool
    decreases n,
{
    if n == 0 {
        false
    } else if n == 1 {
        true
    } else {
        n % 2 == 0 && is_pow2(n / 2)
    }
}

/// The least power of two at or above `n`, used to fit a simulation region.
pub fn pow2_roundup(n: u64) -> (r: u64)
    requires
        1 <= n <= 0x2000_0000_0000_0000u64,
    ensures
        is_pow2(r as nat),
        n <= r < 2 * n,
{
    let mut e: u64 = 1;
    while e < n
        invariant
            1 <= e < 2 * n,
            n <= 0x2000_0000_0000_0000u64,
            is_pow2(e as nat),
        decreases 2 * n - e,
    {
        proof {
            assert((2 * e) as nat % 2 == 0 && (2 * e) as nat / 2 == e as nat);
        }
        e = 2 * e;
    }
    e
}

/// Floor of the real square root: the greatest `r` with `r * r <= n`.
pub open spec fn sqrt_floor(n: nat) -> nat
    decreases n,
{
    if n == 0 {
        0
    } else {
        let r = sqrt_floor((n - 1) as nat);
        if (r + 1) * (r + 1) <= n {
            r + 1
        } else {
            r
        }
    }
}

/// `sqrt_floor(n)` is really the floor of the square root.
pub proof fn lemma_sqrt_floor_bounds(n: nat)
    ensures
        sqrt_floor(n) * sqrt_floor(n) <= n,
        n < (sqrt_floor(n) + 1) * (sqrt_floor(n) + 1),
    decreases n,
{
    if n > 0 {
        lemma_sqrt_floor_bounds((n - 1) as nat);
        let r = sqrt_floor((n - 1) as nat);
        assert(r * r <= n - 1);
        assert(n - 1 < (r + 1) * (r + 1));
        if (r + 1) * (r + 1) <= n {
            assert(sqrt_floor(n) == r + 1);
            assert(n <= (r + 1) * (r + 1));
            assert((r + 2) * (r + 2) > (r + 1) * (r + 1)) by (nonlinear_arith);
            assert(n < (r + 2) * (r + 2));
            assert(n < (sqrt_floor(n) + 1) * (sqrt_floor(n) + 1)) by (nonlinear_arith)
                requires sqrt_floor(n) == r + 1, n < (r + 2) * (r + 2);
        } else {
            assert(sqrt_floor(n) == r);
            assert(r * r <= n);
            assert(n < (r + 1) * (r + 1));
            assert(n < (sqrt_floor(n) + 1) * (sqrt_floor(n) + 1));
        }
    } else {
        let s = sqrt_floor(n);
        assert(s == 0);
        assert(s * s == 0 && (s + 1) * (s + 1) == 1) by (nonlinear_arith)
            requires s == 0;
    }
}

/// Any `r` in the characteristic window equals `sqrt_floor(n)`.
pub proof fn lemma_sqrt_floor_unique(n: nat, r: nat)
    requires
        r * r <= n,
        n < (r + 1) * (r + 1),
    ensures
        r == sqrt_floor(n),
{
    lemma_sqrt_floor_bounds(n);
    let s = sqrt_floor(n);
    if r < s {
        assert((r + 1) * (r + 1) <= s * s) by (nonlinear_arith)
            requires r < s;
    }
    if s < r {
        assert((s + 1) * (s + 1) <= r * r) by (nonlinear_arith)
            requires s < r;
    }
}

/// The square root floor is monotone: a square below `n` bounds it from below.
pub proof fn lemma_sqrt_floor_at_least(n: nat, a: nat)
    requires
        a * a <= n,
    ensures
        a <= sqrt_floor(n),
{
    lemma_sqrt_floor_bounds(n);
    let s = sqrt_floor(n);
    if s < a {
        assert((s + 1) * (s + 1) <= a * a) by (nonlinear_arith)
            requires s < a;
    }
}

/// Binary search for the integer square root of a `u128`.
pub fn isqrt_u128(n: u128) -> (r: u64)
    requires
        n < 0x1000_0000_0000_0000_0000_0000_0000_0000u128,
    ensures
        r == sqrt_floor(n as nat),
{
    let mut lo: u128 = 0;
    let mut hi: u128 = 0x4000_0000_0000_0000;
    proof {
        assert(0x4000_0000_0000_0000u128 * 0x4000_0000_0000_0000u128
            == 0x1000_0000_0000_0000_0000_0000_0000_0000u128) by (nonlinear_arith);
    }
    while lo + 1 < hi
        invariant
            lo < hi,
            hi <= 0x4000_0000_0000_0000u128,
            lo * lo <= n,
            n < hi * hi,
        decreases hi - lo,
    {
        let mid = lo + (hi - lo) / 2;
        assert(lo < mid < hi);
        proof {
            assert(mid * mid < 0x1000_0000_0000_0000_0000_0000_0000_0000u128)
                by (nonlinear_arith)
                requires mid < 0x4000_0000_0000_0000u128;
        }
        if mid * mid <= n {
            lo = mid;
        } else {
            hi = mid;
        }
    }
    proof {
        assert(n < (lo + 1) * (lo + 1));
        lemma_sqrt_floor_unique(n as nat, lo as nat);
    }
    lo as u64
}

} // verus!
