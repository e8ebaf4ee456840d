//! Scalar arithmetic for the simulator: truncating division, range
//! clamping, and the integer square root that turns a mass into a radius.

use vstd::prelude::*;

verus! {

use vstd::arithmetic::div_mod::lemma_div_basics_5;
use vstd::arithmetic::div_mod::lemma_div_is_ordered;
use vstd::arithmetic::div_mod::lemma_div_multiples_vanish;
use vstd::arithmetic::mul::lemma_mul_is_commutative;

/// Division truncating toward zero, the rounding policy of every
/// division the simulator performs (`b` must be positive).
pub open spec fn trunc_div_s(a: int, b: int) -> int
    recommends
        b >= 1,
{
    if a >= 0 {
        a / b
    } else {
        -((-a) / b)
    }
}

/// Clamping a scalar into `[-lim, lim]`, the saturation policy that keeps
/// positions and velocities inside their fixed range.
pub open spec fn clamp_s(v: int, lim: int) -> int
    recommends
        lim >= 0,
{
    if v > lim {
        lim
    } else if v < -lim {
        -lim
    } else {
        v
    }
}

/// `r` is the floor of the real square root of `n`.
pub open spec fn is_sqrt(n: int, r: int) -> bool {
    0 <= r && r * r <= n && n < (r + 1) * (r + 1)
}

/// The floor of the real square root of `n` (for `n >= 0`).
pub open spec fn sqrt_floor(n: int) -> int {
    choose|r: int| is_sqrt(n, r)
}

/// The floor square root is unique: any witness equals `sqrt_floor`.
pub proof fn lemma_sqrt_unique(n: int, r: int)
    requires
        is_sqrt(n, r),
    ensures
        sqrt_floor(n) == r,
{
    assert(is_sqrt(n, sqrt_floor(n)));
    let r2 = sqrt_floor(n);
    assert(r == r2) by (nonlinear_arith)
        requires
            is_sqrt(n, r),
            is_sqrt(n, r2),
    ;
}

/// The magnitude of a truncating quotient is bounded by the magnitude of
/// the dividend divided by the divisor.
pub proof fn lemma_trunc_div_mag(a: int, b: int, m: int)
    requires
        b >= 1,
        0 <= m,
        -(m * b) <= a <= m * b,
    ensures
        -m <= trunc_div_s(a, b) <= m,
{
    lemma_mul_is_commutative(m, b);
    lemma_div_multiples_vanish(m, b);
    if a >= 0 {
        lemma_div_is_ordered(0, a, b);
        lemma_div_is_ordered(a, b * m, b);
    } else {
        lemma_div_is_ordered(0, -a, b);
        lemma_div_is_ordered(-a, b * m, b);
    }
}

/// Truncating division on machine integers.
pub fn trunc_div(a: i128, b: i128) -> (r: i128)
    requires
        1 <= b,
        -0x40000000000000000000000000000000 <= a <= 0x40000000000000000000000000000000,
    ensures
        r as int == trunc_div_s(a as int, b as int),
{
    if a >= 0 {
        proof {
            lemma_div_basics_5(a as int, b as int);
        }
        ((a as u128) / (b as u128)) as i128
    } else {
        proof {
            lemma_div_basics_5((-a) as int, b as int);
        }
        let q: u128 = ((-a) as u128) / (b as u128);
        -(q as i128)
    }
}

/// Clamping a wide scalar into `[-lim, lim]`.
pub fn clamp_i128(v: i128, lim: i64) -> (r: i64)
    requires
        lim >= 0,
    ensures
        r as int == clamp_s(v as int, lim as int),
{
    if v > lim as i128 {
        lim
    } else if v < -(lim as i128) {
        -lim
    } else {
        v as i64
    }
}

/// The integer square root of `n`, by binary search.
pub fn isqrt(n: u64) -> (r: u64)
    requires
        n <= crate::MASS_CAP,
    ensures
        is_sqrt(n as int, r as int),
        r as int == sqrt_floor(n as int),
        r <= 1048576,
{
    let mut lo: u64 = 0;
    let mut hi: u64 = 1048576;
    proof {
        assert(1048576 * 1048576 >= n);
    }
    while lo < hi
        invariant
            lo <= hi <= 1048576,
            lo * lo <= n,
            n < (hi + 1) * (hi + 1),
        decreases hi - lo,
    {
        let mid: u64 = (lo + hi + 1) / 2;
        proof {
            assert(lo < mid <= hi);
            assert(mid * mid <= 1048576 * 1048576) by (nonlinear_arith)
                requires
                    0 <= mid <= 1048576,
            ;
        }
        if mid * mid <= n {
            lo = mid;
        } else {
            hi = mid - 1;
        }
    }
    proof {
        lemma_sqrt_unique(n as int, lo as int);
    }
    lo
}

} // verus!
