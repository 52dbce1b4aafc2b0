use vstd::prelude::*;
use crate::fx::{
    fx_div_spec, fx_mul_spec, floor_div, isqrt, lemma_div_magnitude_bound,
    lemma_mul_magnitude_bound, sqrt_floor,
};
use crate::FX_ONE;

verus! {

/// Bound on the factors of a fixed-point product; products of two such
/// scalars fit an `i128` with room to spare, and the scaled-down result
/// fits an `i64`.
pub const FX_MUL_MAX: i64 = 0x4000_0000;

/// A three-component vector of fixed-point scalars, standing in for points,
/// directions and colors alike.
#[derive(Clone, Copy, PartialEq, Eq, Structural, Debug)]
pub struct Vec3 {
    pub x: i64,
    pub y: i64,
    pub z: i64,
}

/// Every component's magnitude stays within `m`.
pub open spec fn v3_bounded(v: Vec3, m: int) -> bool {
    -m <= v.x <= m && -m <= v.y <= m && -m <= v.z <= m
}

/// The exact (unscaled) dot product of two vectors.
pub open spec fn dot_spec(a: Vec3, b: Vec3) -> int {
    a.x * b.x + a.y * b.y + a.z * b.z
}

/// A vector from three mathematical coordinates known to fit the scalar
/// type.
pub open spec fn v3(x: int, y: int, z: int) -> Vec3 {
    Vec3 { x: x as i64, y: y as i64, z: z as i64 }
}

/// The component-wise sum.
pub open spec fn add_spec(a: Vec3, b: Vec3) -> Vec3 {
    v3(a.x + b.x, a.y + b.y, a.z + b.z)
}

/// The component-wise difference.
pub open spec fn sub_spec(a: Vec3, b: Vec3) -> Vec3 {
    v3(a.x - b.x, a.y - b.y, a.z - b.z)
}

/// The component-wise negation.
pub open spec fn neg_spec(a: Vec3) -> Vec3 {
    v3(-a.x, -a.y, -a.z)
}

/// The vector scaled by a fixed-point factor.
pub open spec fn scale_spec(a: Vec3, k: i64) -> Vec3 {
    v3(
        fx_mul_spec(a.x as int, k as int),
        fx_mul_spec(a.y as int, k as int),
        fx_mul_spec(a.z as int, k as int),
    )
}

/// The component-wise product of two colors.
pub open spec fn mulc_spec(a: Vec3, b: Vec3) -> Vec3 {
    v3(
        fx_mul_spec(a.x as int, b.x as int),
        fx_mul_spec(a.y as int, b.y as int),
        fx_mul_spec(a.z as int, b.z as int),
    )
}

/// The vector scaled to unit length at the fixed-point scale.
pub open spec fn unit_spec(a: Vec3) -> Vec3 {
    v3(
        fx_div_spec(a.x as int, sqrt_floor(dot_spec(a, a))),
        fx_div_spec(a.y as int, sqrt_floor(dot_spec(a, a))),
        fx_div_spec(a.z as int, sqrt_floor(dot_spec(a, a))),
    )
}

/// The cross product, scaled back down to the operands' scale.
pub open spec fn cross_spec(a: Vec3, b: Vec3) -> Vec3 {
    v3(
        (a.y * b.z - a.z * b.y) / (FX_ONE as int),
        (a.z * b.x - a.x * b.z) / (FX_ONE as int),
        (a.x * b.y - a.y * b.x) / (FX_ONE as int),
    )
}

impl Vec3 {
    pub fn new(x: i64, y: i64, z: i64) -> (r: Vec3)
        ensures
            r == (Vec3 { x, y, z }),
    {
        Vec3 { x, y, z }
    }

    pub fn zeros() -> (r: Vec3)
        ensures
            r == (Vec3 { x: 0, y: 0, z: 0 }),
    {
        Vec3 { x: 0, y: 0, z: 0 }
    }

    /// Component-wise sum.
    pub fn add(&self, o: &Vec3) -> (r: Vec3)
        requires
            v3_bounded(*self, 0x2000_0000_0000_0000),
            v3_bounded(*o, 0x2000_0000_0000_0000),
        ensures
            r.x == self.x + o.x,
            r.y == self.y + o.y,
            r.z == self.z + o.z,
            r == add_spec(*self, *o),
    {
        Vec3 { x: self.x + o.x, y: self.y + o.y, z: self.z + o.z }
    }

    /// Component-wise difference.
    pub fn sub(&self, o: &Vec3) -> (r: Vec3)
        requires
            v3_bounded(*self, 0x2000_0000_0000_0000),
            v3_bounded(*o, 0x2000_0000_0000_0000),
        ensures
            r.x == self.x - o.x,
            r.y == self.y - o.y,
            r.z == self.z - o.z,
            r == sub_spec(*self, *o),
    {
        Vec3 { x: self.x - o.x, y: self.y - o.y, z: self.z - o.z }
    }

    /// Component-wise negation.
    pub fn neg(&self) -> (r: Vec3)
        requires
            v3_bounded(*self, 0x2000_0000_0000_0000),
        ensures
            r.x == -self.x,
            r.y == -self.y,
            r.z == -self.z,
            r == neg_spec(*self),
    {
        Vec3 { x: -self.x, y: -self.y, z: -self.z }
    }

    /// Product with a fixed-point scalar, each component scaled back down.
    pub fn scale(&self, k: i64) -> (r: Vec3)
        requires
            v3_bounded(*self, FX_MUL_MAX as int),
            -FX_MUL_MAX <= k <= FX_MUL_MAX,
        ensures
            r.x == fx_mul_spec(self.x as int, k as int),
            r.y == fx_mul_spec(self.y as int, k as int),
            r.z == fx_mul_spec(self.z as int, k as int),
            r == scale_spec(*self, k),
    {
        Vec3 {
            x: fx_mul_scalar(self.x, k),
            y: fx_mul_scalar(self.y, k),
            z: fx_mul_scalar(self.z, k),
        }
    }

    /// Exact dot product; the result carries the square of the fixed-point
    /// scale, as the product of two scalars does.
    pub fn dot(&self, o: &Vec3) -> (r: i64)
        requires
            v3_bounded(*self, FX_MUL_MAX as int),
            v3_bounded(*o, FX_MUL_MAX as int),
        ensures
            r == dot_spec(*self, *o),
    {
        proof {
            lemma_mul_magnitude_bound(self.x as int, o.x as int, FX_MUL_MAX as int, FX_MUL_MAX as int);
            lemma_mul_magnitude_bound(self.y as int, o.y as int, FX_MUL_MAX as int, FX_MUL_MAX as int);
            lemma_mul_magnitude_bound(self.z as int, o.z as int, FX_MUL_MAX as int, FX_MUL_MAX as int);
        }
        let px: i128 = (self.x as i128) * (o.x as i128);
        let py: i128 = (self.y as i128) * (o.y as i128);
        let pz: i128 = (self.z as i128) * (o.z as i128);
        (px + py + pz) as i64
    }

    /// The squared length, in units of the squared fixed-point scale.
    pub fn norm_squared(&self) -> (r: i64)
        requires
            v3_bounded(*self, FX_MUL_MAX as int),
        ensures
            r == dot_spec(*self, *self),
            r >= 0,
    {
        proof {
            lemma_mul_magnitude_bound(self.x as int, self.x as int, FX_MUL_MAX as int, FX_MUL_MAX as int);
            lemma_mul_magnitude_bound(self.y as int, self.y as int, FX_MUL_MAX as int, FX_MUL_MAX as int);
            lemma_mul_magnitude_bound(self.z as int, self.z as int, FX_MUL_MAX as int, FX_MUL_MAX as int);
            assert(self.x as int * self.x as int >= 0) by (nonlinear_arith);
            assert(self.y as int * self.y as int >= 0) by (nonlinear_arith);
            assert(self.z as int * self.z as int >= 0) by (nonlinear_arith);
        }
        self.dot(self)
    }

    /// The length, rounded down: the square-root floor of the squared length,
    /// so a unit vector reports the fixed-point scale itself.
    pub fn norm(&self) -> (r: i64)
        requires
            v3_bounded(*self, FX_MUL_MAX as int),
        ensures
            r == sqrt_floor(dot_spec(*self, *self)),
            r >= 0,
            r * r <= dot_spec(*self, *self) < (r + 1) * (r + 1),
    {
        let n2 = self.norm_squared();
        proof {
            lemma_mul_magnitude_bound(self.x as int, self.x as int, FX_MUL_MAX as int, FX_MUL_MAX as int);
            lemma_mul_magnitude_bound(self.y as int, self.y as int, FX_MUL_MAX as int, FX_MUL_MAX as int);
            lemma_mul_magnitude_bound(self.z as int, self.z as int, FX_MUL_MAX as int, FX_MUL_MAX as int);
        }
        let r = isqrt(n2 as u128);
        proof {
            assert(r as int <= 0x1_0000_0000int) by (nonlinear_arith)
                requires
                    0 <= r as int,
                    (r as int) * (r as int) <= 0x3000_0000_0000_0000int,
            ;
        }
        r as i64
    }

    /// The vector scaled to unit length (to the fixed-point scale), each
    /// component divided by the length and rounded toward negative infinity.
    pub fn normalize(&self) -> (r: Vec3)
        requires
            v3_bounded(*self, FX_MUL_MAX as int),
            dot_spec(*self, *self) > 0,
        ensures
            r.x == fx_div_spec(self.x as int, sqrt_floor(dot_spec(*self, *self))),
            r.y == fx_div_spec(self.y as int, sqrt_floor(dot_spec(*self, *self))),
            r.z == fx_div_spec(self.z as int, sqrt_floor(dot_spec(*self, *self))),
            v3_bounded(r, FX_ONE as int),
            r == unit_spec(*self),
    {
        let n = self.norm();
        proof {
            if n == 0 {
                assert((n as int + 1) * (n as int + 1) == 1) by (nonlinear_arith)
                    requires
                        n == 0,
                ;
            }
            let ni = n as int;
            let sq = (self.x as int) * (self.x as int) + (self.y as int) * (self.y as int) + (
            self.z as int) * (self.z as int);
            assert((self.x as int) * (self.x as int) >= 0) by (nonlinear_arith);
            assert((self.y as int) * (self.y as int) >= 0) by (nonlinear_arith);
            assert((self.z as int) * (self.z as int) >= 0) by (nonlinear_arith);
            assert(-ni <= self.x as int <= ni) by (nonlinear_arith)
                requires
                    0 < ni,
                    (self.x as int) * (self.x as int) <= sq,
                    sq < (ni + 1) * (ni + 1),
            ;
            assert(-ni <= self.y as int <= ni) by (nonlinear_arith)
                requires
                    0 < ni,
                    (self.y as int) * (self.y as int) <= sq,
                    sq < (ni + 1) * (ni + 1),
            ;
            assert(-ni <= self.z as int <= ni) by (nonlinear_arith)
                requires
                    0 < ni,
                    (self.z as int) * (self.z as int) <= sq,
                    sq < (ni + 1) * (ni + 1),
            ;
            crate::fx::lemma_unit_div_bounds(self.x as int, ni);
            crate::fx::lemma_unit_div_bounds(self.y as int, ni);
            crate::fx::lemma_unit_div_bounds(self.z as int, ni);
        }
        Vec3 {
            x: fx_div_by(self.x, n),
            y: fx_div_by(self.y, n),
            z: fx_div_by(self.z, n),
        }
    }

    /// The cross product, scaled back down to the operands' scale.
    pub fn cross(&self, o: &Vec3) -> (r: Vec3)
        requires
            v3_bounded(*self, FX_MUL_MAX as int),
            v3_bounded(*o, FX_MUL_MAX as int),
        ensures
            r.x == (self.y * o.z - self.z * o.y) / (FX_ONE as int),
            r.y == (self.z * o.x - self.x * o.z) / (FX_ONE as int),
            r.z == (self.x * o.y - self.y * o.x) / (FX_ONE as int),
            r == cross_spec(*self, *o),
    {
        Vec3 {
            x: cross_component(self.y, o.z, self.z, o.y),
            y: cross_component(self.z, o.x, self.x, o.z),
            z: cross_component(self.x, o.y, self.y, o.x),
        }
    }

    /// Component-wise product of two colors, scaled back down.
    pub fn mul_components(&self, o: &Vec3) -> (r: Vec3)
        requires
            v3_bounded(*self, FX_MUL_MAX as int),
            v3_bounded(*o, FX_MUL_MAX as int),
        ensures
            r.x == fx_mul_spec(self.x as int, o.x as int),
            r.y == fx_mul_spec(self.y as int, o.y as int),
            r.z == fx_mul_spec(self.z as int, o.z as int),
            r == mulc_spec(*self, *o),
    {
        Vec3 {
            x: fx_mul_scalar(self.x, o.x),
            y: fx_mul_scalar(self.y, o.y),
            z: fx_mul_scalar(self.z, o.z),
        }
    }
}

/// Fixed-point product of two scalars, rounded toward negative infinity.
pub fn fx_mul_scalar(a: i64, b: i64) -> (r: i64)
    requires
        -FX_MUL_MAX <= a <= FX_MUL_MAX,
        -FX_MUL_MAX <= b <= FX_MUL_MAX,
    ensures
        r == fx_mul_spec(a as int, b as int),
{
    proof {
        lemma_mul_magnitude_bound(a as int, b as int, FX_MUL_MAX as int, FX_MUL_MAX as int);
        lemma_div_magnitude_bound(
            a as int * b as int,
            FX_ONE as int,
            FX_MUL_MAX as int * FX_MUL_MAX as int,
        );
    }
    let p: i128 = (a as i128) * (b as i128);
    let q = floor_div(p, FX_ONE as i128);
    q as i64
}

/// Fixed-point quotient of a scalar by a positive scalar, rounded toward
/// negative infinity.
pub fn fx_div_by(a: i64, b: i64) -> (r: i64)
    requires
        -FX_MUL_MAX <= a <= FX_MUL_MAX,
        0 < b,
    ensures
        r == fx_div_spec(a as int, b as int),
{
    proof {
        lemma_mul_magnitude_bound(a as int, FX_ONE as int, FX_MUL_MAX as int, FX_ONE as int);
        lemma_div_magnitude_bound(
            a as int * FX_ONE as int,
            b as int,
            FX_MUL_MAX as int * FX_ONE as int,
        );
    }
    let p: i128 = (a as i128) * (FX_ONE as i128);
    let q = floor_div(p, b as i128);
    q as i64
}

/// A scaled vector's components shrink by the fixed-point unit, up to one
/// step of rounding.
pub proof fn lemma_scale_spec_bounded(a: Vec3, k: i64, m1: int, m2: int)
    requires
        0 <= m1,
        0 <= m2,
        v3_bounded(a, m1),
        -m2 <= k <= m2,
    ensures
        v3_bounded(scale_spec(a, k), m1 * m2 / (FX_ONE as int) + 1),
{
    let m = m1 * m2 / (FX_ONE as int) + 1;
    crate::fx::lemma_mul_magnitude_bound(a.x as int, k as int, m1, m2);
    crate::fx::lemma_mul_magnitude_bound(a.y as int, k as int, m1, m2);
    crate::fx::lemma_mul_magnitude_bound(a.z as int, k as int, m1, m2);
    assert(m1 * m2 >= 0) by (nonlinear_arith)
        requires
            m1 >= 0,
            m2 >= 0,
    ;
    vstd::arithmetic::div_mod::lemma_fundamental_div_mod(m1 * m2, FX_ONE as int);
    crate::fx::lemma_fx_div_shrink(a.x as int * k as int, m);
    crate::fx::lemma_fx_div_shrink(a.y as int * k as int, m);
    crate::fx::lemma_fx_div_shrink(a.z as int * k as int, m);
}

/// A cross product's components shrink by the fixed-point unit, up to one
/// step of rounding.
pub proof fn lemma_cross_spec_bounded(a: Vec3, b: Vec3, m1: int, m2: int)
    requires
        0 <= m1,
        0 <= m2,
        v3_bounded(a, m1),
        v3_bounded(b, m2),
    ensures
        v3_bounded(cross_spec(a, b), 2 * (m1 * m2) / (FX_ONE as int) + 1),
{
    let m = 2 * (m1 * m2) / (FX_ONE as int) + 1;
    crate::fx::lemma_mul_magnitude_bound(a.y as int, b.z as int, m1, m2);
    crate::fx::lemma_mul_magnitude_bound(a.z as int, b.y as int, m1, m2);
    crate::fx::lemma_mul_magnitude_bound(a.z as int, b.x as int, m1, m2);
    crate::fx::lemma_mul_magnitude_bound(a.x as int, b.z as int, m1, m2);
    crate::fx::lemma_mul_magnitude_bound(a.x as int, b.y as int, m1, m2);
    crate::fx::lemma_mul_magnitude_bound(a.y as int, b.x as int, m1, m2);
    assert(m1 * m2 >= 0) by (nonlinear_arith)
        requires
            m1 >= 0,
            m2 >= 0,
    ;
    vstd::arithmetic::div_mod::lemma_fundamental_div_mod(2 * (m1 * m2), FX_ONE as int);
    crate::fx::lemma_fx_div_shrink(a.y as int * b.z as int - a.z as int * b.y as int, m);
    crate::fx::lemma_fx_div_shrink(a.z as int * b.x as int - a.x as int * b.z as int, m);
    crate::fx::lemma_fx_div_shrink(a.x as int * b.y as int - a.y as int * b.x as int, m);
}

/// A point drawn uniformly from the unit sphere by rejection sampling:
/// uniform draws in the enclosing cube, kept once the squared norm falls
/// below one. A bounded number of attempts keeps the loop finite; past it
/// the center serves as the point.
pub fn random_in_unit_sphere(draws: &mut crate::rng::DrawSource) -> (r: Vec3)
    ensures
        v3_bounded(r, FX_ONE as int),
        dot_spec(r, r) < (FX_ONE as int) * (FX_ONE as int),
{
    let mut k: usize = 0;
    while k < 64
        invariant
            k <= 64,
        decreases 64 - k,
    {
        let x = 2 * draws.next_unit() - FX_ONE;
        let y = 2 * draws.next_unit() - FX_ONE;
        let z = 2 * draws.next_unit() - FX_ONE;
        let p = Vec3 { x, y, z };
        let n2 = p.norm_squared();
        if n2 < FX_ONE * FX_ONE {
            return p;
        }
        k = k + 1;
    }
    proof {
        assert(FX_ONE == 4096);
    }
    Vec3 { x: 0, y: 0, z: 0 }
}

/// A point drawn uniformly from the unit disk in the x-y plane, by the same
/// rejection scheme.
pub fn random_in_unit_disk(draws: &mut crate::rng::DrawSource) -> (r: Vec3)
    ensures
        v3_bounded(r, FX_ONE as int),
        r.z == 0,
        dot_spec(r, r) < (FX_ONE as int) * (FX_ONE as int),
{
    let mut k: usize = 0;
    while k < 64
        invariant
            k <= 64,
        decreases 64 - k,
    {
        let x = 2 * draws.next_unit() - FX_ONE;
        let y = 2 * draws.next_unit() - FX_ONE;
        let p = Vec3 { x, y, z: 0 };
        let n2 = p.norm_squared();
        if n2 < FX_ONE * FX_ONE {
            return p;
        }
        k = k + 1;
    }
    proof {
        assert(FX_ONE == 4096);
    }
    Vec3 { x: 0, y: 0, z: 0 }
}

/// One cross-product component `(a * b - c * d) / FX_ONE`.
fn cross_component(a: i64, b: i64, c: i64, d: i64) -> (r: i64)
    requires
        -FX_MUL_MAX <= a <= FX_MUL_MAX,
        -FX_MUL_MAX <= b <= FX_MUL_MAX,
        -FX_MUL_MAX <= c <= FX_MUL_MAX,
        -FX_MUL_MAX <= d <= FX_MUL_MAX,
    ensures
        r == (a * b - c * d) / (FX_ONE as int),
{
    proof {
        lemma_mul_magnitude_bound(a as int, b as int, FX_MUL_MAX as int, FX_MUL_MAX as int);
        lemma_mul_magnitude_bound(c as int, d as int, FX_MUL_MAX as int, FX_MUL_MAX as int);
        lemma_div_magnitude_bound(
            a as int * b as int - c as int * d as int,
            FX_ONE as int,
            2 * (FX_MUL_MAX as int * FX_MUL_MAX as int),
        );
    }
    let p: i128 = (a as i128) * (b as i128) - (c as i128) * (d as i128);
    let q = floor_div(p, FX_ONE as i128);
    q as i64
}

} // verus!
