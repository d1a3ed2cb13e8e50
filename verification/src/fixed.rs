//! Fixed-point arithmetic: truncating division and integer square roots.

use vstd::prelude::*;

verus! {

/// Fixed-point steps per whole unit.
pub const SCALE: i64 = 1000;

/// Largest magnitude of a coordinate on which every operation of the
/// geometry kernel is defined (2^60).
pub const COORD_LIMIT: i64 = 1_152_921_504_606_846_976;

/// Largest magnitude of a coordinate or velocity component of a tracked
/// object: the 32-bit range of whole units, on the grid (2^31 * 1000).
pub const WORLD_LIMIT: i64 = 2_147_483_648_000;

/// Largest magnitude of a coordinate of a destination that the policy
/// chooses (eight times `WORLD_LIMIT`).
pub const AIM_LIMIT: i64 = 17_179_869_184_000;

/// Exclusive upper bound of the radicands that `isqrt` accepts (2^124).
pub const RADICAND_LIMIT: i128 = 21_267_647_932_558_653_966_460_912_964_485_513_216;

/// `a / b` rounded toward zero, for a positive divisor.
pub open spec fn trunc_div(a: int, b: int) -> int
    recommends
        b > 0,
{
    if a >= 0 {
        a / b
    } else {
        -((-a) / b)
    }
}

/// `r` is the integer part of the square root of `n`.
pub open spec fn is_floor_sqrt(r: int, n: int) -> bool {
    0 <= r && r * r <= n && n < (r + 1) * (r + 1)
}

/// The integer part of the square root of `n` (meaningful for `n >= 0`).
pub open spec fn floor_sqrt(n: int) -> int {
    choose|r: int| is_floor_sqrt(r, n)
}

/// At most one integer is the floor of a square root.
pub proof fn lemma_floor_sqrt_unique(r: int, n: int)
    requires
        is_floor_sqrt(r, n),
    ensures
        floor_sqrt(n) == r,
{
    let s = floor_sqrt(n);
    assert(is_floor_sqrt(s, n));
    assert(s == r) by (nonlinear_arith)
        requires
            0 <= r,
            r * r <= n,
            n < (r + 1) * (r + 1),
            0 <= s,
            s * s <= n,
            n < (s + 1) * (s + 1),
    ;
}

/// Every non-negative integer has a floor square root.
pub proof fn lemma_floor_sqrt_exists(n: int)
    requires
        n >= 0,
    ensures
        is_floor_sqrt(floor_sqrt(n), n),
    decreases n,
{
    if n == 0 {
        assert(is_floor_sqrt(0, 0));
    } else {
        lemma_floor_sqrt_exists(n - 1);
        let r = floor_sqrt(n - 1);
        if (r + 1) * (r + 1) <= n {
            assert(is_floor_sqrt(r + 1, n)) by (nonlinear_arith)
                requires
                    0 <= r,
                    n - 1 < (r + 1) * (r + 1),
                    (r + 1) * (r + 1) <= n,
            ;
        } else {
            assert(is_floor_sqrt(r, n));
        }
    }
}

/// Truncating division: the quotient of `a` by a positive `b`, rounded
/// toward zero.
pub fn div_trunc(a: i128, b: i128) -> (q: i128)
    requires
        b > 0,
        a > i128::MIN,
    ensures
        q == trunc_div(a as int, b as int),
{
    if a >= 0 {
        a / b
    } else {
        let m: i128 = -a;
        let p: i128 = m / b;
        -p
    }
}

/// A coordinate of the grid in whole units, rounded toward zero.
pub open spec fn to_units(v: int) -> int {
    trunc_div(v, SCALE as int)
}

/// A coordinate of the grid in whole units, rounded toward zero.
pub fn whole_units(v: i64) -> (u: i64)
    ensures
        u == to_units(v as int),
{
    if v >= 0 {
        v / SCALE
    } else if v == i64::MIN {
        -9_223_372_036_854_775
    } else {
        -((-v) / SCALE)
    }
}

/// Integer square root by bisection.
pub fn isqrt(n: i128) -> (r: i64)
    requires
        0 <= n < RADICAND_LIMIT,
    ensures
        r == floor_sqrt(n as int),
        is_floor_sqrt(r as int, n as int),
{
    let mut lo: i128 = 0;
    let mut hi: i128 = 4_611_686_018_427_387_904;
    while hi - lo > 1
        invariant
            0 <= lo < hi <= 4_611_686_018_427_387_904,
            lo * lo <= n,
            n < hi * hi,
        decreases hi - lo,
    {
        let mid: i128 = lo + (hi - lo) / 2;
        assert(0 <= mid * mid <= 4_611_686_018_427_387_904 * 4_611_686_018_427_387_904)
            by (nonlinear_arith)
            requires
                0 <= mid <= 4_611_686_018_427_387_904,
        ;
        if mid * mid <= n {
            lo = mid;
        } else {
            hi = mid;
        }
    }
    proof {
        lemma_floor_sqrt_unique(lo as int, n as int);
    }
    lo as i64
}

} // verus!
