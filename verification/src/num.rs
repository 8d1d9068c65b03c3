use vstd::prelude::*;
use vstd::arithmetic::div_mod::lemma_fundamental_div_mod;
use vstd::arithmetic::div_mod::lemma_fundamental_div_mod_converse_div;

verus! {

/// Number of integer steps per world unit: coordinates, velocities,
/// accelerations, radii and masses are stored in thousandths of a unit.
pub const SCALE: i64 = 1000;

/// Every stored coordinate, velocity, acceleration, radius and mass lies
/// in `[-BOUND, BOUND]`.  Updates whose exact result would leave the range
/// are clamped back to it, so each intermediate product of an update fits
/// in an `i128`.
pub const BOUND: i64 = 1_000_000_000;

/// `x` held to the stored range `[-BOUND, BOUND]`.
pub open spec fn clamped(x: int) -> int {
    if x < -(BOUND as int) {
        -(BOUND as int)
    } else if x > BOUND as int {
        BOUND as int
    } else {
        x
    }
}

/// Clamp an intermediate value back into the stored range.
pub fn clamp(x: i128) -> (r: i64)
    ensures
        r as int == clamped(x as int),
{
    if x < -(BOUND as i128) {
        -BOUND
    } else if x > BOUND as i128 {
        BOUND
    } else {
        x as i64
    }
}

/// Floor division by a positive divisor, matching `int` division.
pub fn floor_div(a: i128, b: i128) -> (q: i128)
    requires
        b > 0,
        a > i128::MIN,
    ensures
        q == a as int / b as int,
{
    if a >= 0 {
        let q = (a as u128) / (b as u128);
        q as i128
    } else {
        let n = (-a) as u128;
        let d = b as u128;
        let q0 = n / d;
        let r0 = n % d;
        proof {
            lemma_fundamental_div_mod(n as int, d as int);
            if r0 == 0 {
                assert((-(q0 as int)) * (b as int) + 0 == a as int) by (nonlinear_arith)
                    requires
                        n as int == (d as int) * (q0 as int) + r0 as int,
                        r0 == 0,
                        a as int == -(n as int),
                        b as int == d as int,
                ;
                lemma_fundamental_div_mod_converse_div(a as int, b as int, -(q0 as int), 0);
            } else {
                assert((-(q0 as int) - 1) * (b as int) + (d as int - r0 as int) == a as int)
                    by (nonlinear_arith)
                    requires
                        n as int == (d as int) * (q0 as int) + r0 as int,
                        a as int == -(n as int),
                        b as int == d as int,
                ;
                lemma_fundamental_div_mod_converse_div(
                    a as int,
                    b as int,
                    -(q0 as int) - 1,
                    d as int - r0 as int,
                );
            }
        }
        if r0 == 0 {
            -(q0 as i128)
        } else {
            -(q0 as i128) - 1
        }
    }
}

/// A product of values bounded in absolute value is bounded by the
/// product of the bounds.
pub proof fn lemma_mul_abs_bound(x: int, y: int, bx: int, by: int)
    requires
        -bx <= x <= bx,
        -by <= y <= by,
    ensures
        -(bx * by) <= x * y <= bx * by,
{
    assert(-(bx * by) <= x * y <= bx * by) by (nonlinear_arith)
        requires
            -bx <= x <= bx,
            -by <= y <= by,
    ;
}

/// Floor division by a positive divisor keeps an absolute bound of the
/// dividend.
pub proof fn lemma_div_abs_bound(a: int, b: int, ba: int)
    requires
        b >= 1,
        -ba <= a <= ba,
    ensures
        -ba <= a / b <= ba,
{
    lemma_fundamental_div_mod(a, b);
    vstd::arithmetic::div_mod::lemma_mod_bound(a, b);
    assert(-ba <= a / b <= ba) by (nonlinear_arith)
        requires
            b >= 1,
            -ba <= a <= ba,
            a == b * (a / b) + a % b,
            0 <= a % b < b,
    ;
}

/// Floor division by a positive divisor keeps the dividend's sign.
pub proof fn lemma_div_sign(a: int, b: int)
    requires
        b >= 1,
    ensures
        a >= 0 ==> a / b >= 0,
        a <= 0 ==> a / b <= 0,
{
    lemma_fundamental_div_mod(a, b);
    vstd::arithmetic::div_mod::lemma_mod_bound(a, b);
    assert((a >= 0 ==> a / b >= 0) && (a <= 0 ==> a / b <= 0)) by (nonlinear_arith)
        requires
            b >= 1,
            a == b * (a / b) + a % b,
            0 <= a % b < b,
    ;
}

/// Floor of the square root of a non-negative integer.
pub open spec fn sqrt_floor(n: int) -> int
    decreases n,
{
    if n <= 0 {
        0
    } else {
        let s = sqrt_floor(n - 1);
        if (s + 1) * (s + 1) <= n {
            s + 1
        } else {
            s
        }
    }
}

/// `sqrt_floor(n)` brackets `n`: its square is at most `n` and the next
/// square is beyond it.
pub proof fn lemma_sqrt_floor_bounds(n: int)
    requires
        n >= 0,
    ensures
        sqrt_floor(n) >= 0,
        sqrt_floor(n) * sqrt_floor(n) <= n,
        n < (sqrt_floor(n) + 1) * (sqrt_floor(n) + 1),
    decreases n,
{
    if n > 0 {
        lemma_sqrt_floor_bounds(n - 1);
        let s = sqrt_floor(n - 1);
        if (s + 1) * (s + 1) <= n {
            assert(n < ((s + 1) + 1) * ((s + 1) + 1)) by (nonlinear_arith)
                requires
                    s >= 0,
                    n - 1 < (s + 1) * (s + 1),
                    (s + 1) * (s + 1) <= n,
            ;
        }
    }
}

/// Any non-negative `r` whose square brackets `n` the same way is
/// `sqrt_floor(n)`.
pub proof fn lemma_sqrt_floor_unique(n: int, r: int)
    requires
        n >= 0,
        r >= 0,
        r * r <= n,
        n < (r + 1) * (r + 1),
    ensures
        r == sqrt_floor(n),
{
    lemma_sqrt_floor_bounds(n);
    let s = sqrt_floor(n);
    if r < s {
        assert((r + 1) * (r + 1) <= s * s) by (nonlinear_arith)
            requires
                0 <= r + 1 <= s,
        ;
        assert(false);
    } else if r > s {
        assert((s + 1) * (s + 1) <= r * r) by (nonlinear_arith)
            requires
                0 <= s + 1 <= r,
        ;
        assert(false);
    }
}

/// Floor square root by bisection.
pub fn isqrt(n: u64) -> (r: u64)
    ensures
        r as int == sqrt_floor(n as int),
{
    let mut lo: u64 = 0;
    let mut hi: u64 = 4_294_967_296;
    proof {
        assert((4_294_967_296int) * (4_294_967_296int) > u64::MAX as int) by (nonlinear_arith);
    }
    while hi - lo > 1
        invariant
            lo < hi <= 4_294_967_296,
            (lo as int) * (lo as int) <= n as int,
            (n as int) < (hi as int) * (hi as int),
        decreases hi - lo,
    {
        let mid = lo + (hi - lo) / 2;
        proof {
            assert((mid as int) * (mid as int) <= 4_294_967_296int * 4_294_967_296int)
                by (nonlinear_arith)
                requires
                    0 <= mid as int <= 4_294_967_296,
            ;
        }
        let sq = (mid as u128) * (mid as u128);
        if sq <= n as u128 {
            lo = mid;
        } else {
            hi = mid;
        }
    }
    proof {
        lemma_sqrt_floor_unique(n as int, lo as int);
    }
    lo
}

} // verus!
