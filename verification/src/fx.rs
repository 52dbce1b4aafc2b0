use vstd::prelude::*;
use vstd::arithmetic::div_mod::{
    lemma_fundamental_div_mod, lemma_fundamental_div_mod_converse_div,
};
use crate::FX_ONE;

verus! {

/// Fixed-point product: the scalar standing for the real product of the two
/// operands, rounded toward negative infinity.
pub open spec fn fx_mul_spec(a: int, b: int) -> int {
    (a * b) / (FX_ONE as int)
}

/// Fixed-point quotient: the scalar standing for the real quotient `a / b`,
/// rounded toward negative infinity.
pub open spec fn fx_div_spec(a: int, b: int) -> int {
    (a * (FX_ONE as int)) / b
}

/// Quotients cannot grow past the magnitude of the dividend when the divisor
/// is at least one.
pub proof fn lemma_div_magnitude_bound(a: int, b: int, m: int)
    requires
        b >= 1,
        0 <= m,
        -m <= a <= m,
    ensures
        -m <= a / b <= m,
{
    lemma_fundamental_div_mod(a, b);
    let q = a / b;
    let r = a % b;
    if q > m {
        assert(b * q >= q) by (nonlinear_arith)
            requires
                b >= 1,
                q >= 0,
        ;
        assert(false);
    }
    if q < -m {
        assert(b * (q + 1) <= q + 1) by (nonlinear_arith)
            requires
                b >= 1,
                q + 1 <= 0,
        ;
        assert(b * (q + 1) == b * q + b) by (nonlinear_arith);
        assert(false);
    }
}

/// A product's magnitude is bounded by the product of the factors' bounds.
pub proof fn lemma_mul_magnitude_bound(a: int, b: int, m1: int, m2: int)
    by (nonlinear_arith)
    requires
        0 <= m1,
        0 <= m2,
        -m1 <= a <= m1,
        -m2 <= b <= m2,
    ensures
        -(m1 * m2) <= a * b <= m1 * m2,
{
}

/// Division by a positive divisor, rounding toward negative infinity, as the
/// mathematical `/` on `int` does.
pub fn floor_div(a: i128, b: i128) -> (q: i128)
    requires
        0 < b,
        -0x4000_0000_0000_0000_0000_0000_0000_0000 < a
            < 0x4000_0000_0000_0000_0000_0000_0000_0000,
        b < 0x4000_0000_0000_0000_0000_0000_0000_0000,
    ensures
        q == a as int / b as int,
{
    if a >= 0 {
        let qu: u128 = (a as u128) / (b as u128);
        qu as i128
    } else {
        let m: u128 = (-a) as u128;
        let bu: u128 = b as u128;
        let qc: u128 = (m + (bu - 1)) / bu;
        proof {
            let mi = m as int;
            let bi = b as int;
            lemma_fundamental_div_mod(mi, bi);
            let qm = mi / bi;
            let rm = mi % bi;
            lemma_div_magnitude_bound(mi, bi, mi);
            if rm == 0 {
                assert(mi + bi - 1 == qm * bi + (bi - 1)) by (nonlinear_arith)
                    requires
                        mi == bi * qm,
                ;
                lemma_fundamental_div_mod_converse_div(mi + bi - 1, bi, qm, bi - 1);
                assert(-mi == (-qm) * bi + 0) by (nonlinear_arith)
                    requires
                        mi == bi * qm,
                ;
                lemma_fundamental_div_mod_converse_div(-mi, bi, -qm, 0);
            } else {
                assert(mi + bi - 1 == (qm + 1) * bi + (rm - 1)) by (nonlinear_arith)
                    requires
                        mi == bi * qm + rm,
                ;
                lemma_fundamental_div_mod_converse_div(mi + bi - 1, bi, qm + 1, rm - 1);
                assert(-mi == (-qm - 1) * bi + (bi - rm)) by (nonlinear_arith)
                    requires
                        mi == bi * qm + rm,
                ;
                lemma_fundamental_div_mod_converse_div(-mi, bi, -qm - 1, bi - rm);
            }
        }
        -((qc) as i128)
    }
}

/// Division by a positive divisor, rounding toward positive infinity.
pub fn ceil_div(a: i128, b: i128) -> (q: i128)
    requires
        0 < b,
        -0x2000_0000_0000_0000_0000_0000_0000_0000 < a
            < 0x2000_0000_0000_0000_0000_0000_0000_0000,
        b < 0x2000_0000_0000_0000_0000_0000_0000_0000,
    ensures
        q == -((-a as int) / b as int),
{
    let n = floor_div(-a, b);
    proof {
        lemma_div_magnitude_bound(-a as int, b as int, 0x2000_0000_0000_0000_0000_0000_0000_0000);
    }
    -n
}

/// The ceiling quotient is the least integer whose product with the divisor
/// reaches the dividend.
pub proof fn lemma_ceil_div_bound(a: int, b: int, t: int)
    requires
        0 < b,
    ensures
        t * b >= a <==> t >= -((-a) / b),
{
    lemma_fundamental_div_mod(-a, b);
    let q = (-a) / b;
    let r = (-a) % b;
    if t >= -q {
        assert(t * b >= (-q) * b) by (nonlinear_arith)
            requires
                t >= -q,
                b > 0,
        ;
        assert((-q) * b >= a) by (nonlinear_arith)
            requires
                -a == b * q + r,
                r >= 0,
        ;
    }
    if t * b >= a && t < -q {
        assert(t * b <= (-q - 1) * b) by (nonlinear_arith)
            requires
                t <= -q - 1,
                b > 0,
        ;
        assert((-q - 1) * b < a) by (nonlinear_arith)
            requires
                -a == b * q + r,
                r < b,
        ;
        assert(false);
    }
}

/// The floor quotient is the greatest integer whose product with the divisor
/// stays at or below the dividend.
pub proof fn lemma_floor_div_bound(a: int, b: int, t: int)
    requires
        0 < b,
    ensures
        t * b <= a <==> t <= a / b,
{
    lemma_fundamental_div_mod(a, b);
    let q = a / b;
    let r = a % b;
    if t <= q {
        assert(t * b <= q * b) by (nonlinear_arith)
            requires
                t <= q,
                b > 0,
        ;
        assert(q * b <= a) by (nonlinear_arith)
            requires
                a == b * q + r,
                r >= 0,
        ;
    }
    if t * b <= a && t > q {
        assert(t * b >= (q + 1) * b) by (nonlinear_arith)
            requires
                t >= q + 1,
                b > 0,
        ;
        assert((q + 1) * b > a) by (nonlinear_arith)
            requires
                a == b * q + r,
                r < b,
        ;
        assert(false);
    }
}

/// Dividing `a * FX_ONE` by `b` stays within one unit of scale when `a`
/// itself is within `b` in magnitude.
pub proof fn lemma_unit_div_bounds(a: int, b: int)
    requires
        0 < b,
        -b <= a <= b,
    ensures
        -(FX_ONE as int) <= (a * (FX_ONE as int)) / b <= FX_ONE as int,
{
    let s = FX_ONE as int;
    assert(a * s <= b * s) by (nonlinear_arith)
        requires
            a <= b,
            s >= 0,
    ;
    assert((-b) * s <= a * s) by (nonlinear_arith)
        requires
            -b <= a,
            s >= 0,
    ;
    assert((s + 1) * b > b * s) by (nonlinear_arith)
        requires
            b > 0,
    ;
    assert((-s) * b == -(b * s)) by (nonlinear_arith);
    lemma_floor_div_bound(a * s, b, s + 1);
    lemma_floor_div_bound(a * s, b, -s);
}

/// Scaling down by the fixed-point unit divides a magnitude bound by the
/// unit, up to one step of rounding.
pub proof fn lemma_fx_div_shrink(a: int, m: int)
    requires
        0 <= m,
        -(m * (FX_ONE as int)) <= a <= m * (FX_ONE as int),
    ensures
        -m <= a / (FX_ONE as int) <= m,
{
    assert(FX_ONE == 4096);
    lemma_floor_div_bound(a, 4096, m + 1);
    lemma_floor_div_bound(a, 4096, -m);
}

/// The fixed-point product of two scalars in `[0, 1]` stays in `[0, 1]`.
pub proof fn lemma_fx_unit_mul_range(a: int, b: int)
    requires
        0 <= a <= FX_ONE as int,
        0 <= b <= FX_ONE as int,
    ensures
        0 <= fx_mul_spec(a, b) <= FX_ONE as int,
{
    assert(FX_ONE == 4096);
    lemma_mul_magnitude_bound(a, b, 4096, 4096);
    assert(a * b >= 0) by (nonlinear_arith)
        requires
            a >= 0,
            b >= 0,
    ;
    lemma_floor_div_bound(a * b, 4096, 4097);
    lemma_floor_div_bound(a * b, 4096, 0);
}

/// `s` is the integer square root of `n`, rounded down.
pub open spec fn is_sqrt_floor(n: int, s: int) -> bool {
    0 <= s && s * s <= n && n < (s + 1) * (s + 1)
}

/// The integer square root of a nonnegative scalar, rounded down.
pub open spec fn sqrt_floor(n: int) -> int {
    choose|s: int| is_sqrt_floor(n, s)
}

/// Two square-root floors of the same scalar coincide.
pub proof fn lemma_sqrt_floor_unique(n: int, s1: int, s2: int)
    requires
        is_sqrt_floor(n, s1),
        is_sqrt_floor(n, s2),
    ensures
        s1 == s2,
{
    if s1 < s2 {
        assert((s1 + 1) * (s1 + 1) <= s2 * s2) by (nonlinear_arith)
            requires
                0 <= s1,
                s1 + 1 <= s2,
        ;
    }
    if s2 < s1 {
        assert((s2 + 1) * (s2 + 1) <= s1 * s1) by (nonlinear_arith)
            requires
                0 <= s2,
                s2 + 1 <= s1,
        ;
    }
}

/// A witness for the square-root floor pins down `sqrt_floor`.
pub proof fn lemma_sqrt_floor_is(n: int, s: int)
    requires
        is_sqrt_floor(n, s),
    ensures
        sqrt_floor(n) == s,
{
    assert(is_sqrt_floor(n, sqrt_floor(n)));
    lemma_sqrt_floor_unique(n, sqrt_floor(n), s);
}

/// The integer square root, rounded down, by bisection.
pub fn isqrt(n: u128) -> (r: u64)
    requires
        n < 0x4000_0000_0000_0000_0000_0000_0000_0000,
    ensures
        is_sqrt_floor(n as int, r as int),
        r as int == sqrt_floor(n as int),
{
    let mut lo: u128 = 0;
    let mut hi: u128 = 0x8000_0000_0000_0000;
    proof {
        assert((hi as int) * (hi as int) > n) by (nonlinear_arith)
            requires
                hi == 0x8000_0000_0000_0000,
                n < 0x4000_0000_0000_0000_0000_0000_0000_0000,
        ;
    }
    while hi - lo > 1
        invariant
            0 <= lo < hi <= 0x8000_0000_0000_0000,
            (lo as int) * (lo as int) <= n as int,
            (n as int) < (hi as int) * (hi as int),
        decreases hi - lo,
    {
        let mid: u128 = lo + (hi - lo) / 2;
        proof {
            assert((mid as int) * (mid as int) <= 0x4000_0000_0000_0000_0000_0000_0000_0000int)
                by (nonlinear_arith)
                requires
                    0 <= mid <= 0x8000_0000_0000_0000,
            ;
        }
        let sq: u128 = mid * mid;
        if sq <= n {
            lo = mid;
        } else {
            hi = mid;
        }
    }
    proof {
        lemma_sqrt_floor_is(n as int, lo as int);
    }
    lo as u64
}

} // verus!
