//! Three-component fixed-point vectors, used for points, directions and
//! colors alike.  Componentwise operations are exact images of the scalar
//! operations in `fixed`; the raw dot product is kept at full precision so
//! that sign arguments about orientation are exact.

use vstd::prelude::*;

use crate::fixed::{
    fx_add, fx_add_i, fx_div, fx_div_i, fx_mul, fx_mul_i, fx_neg, fx_ok, fx_sub, fx_sub_i, iabs,
    is_sqrt_floor, isqrt_wide, lemma_mul_bound, lemma_sqrt_floor_is, lemma_square_nonneg, sat,
    scale_down_wide, sqrt_floor, tdiv, FX_MAX, SCALE,
};

verus! {

/// Components smaller than this in magnitude count as "near zero" when a
/// scattered direction degenerates.
pub const NEAR_EPS: i64 = 16;

/// A point, direction or color: three fixed-point components.
#[derive(Clone, Copy, PartialEq, Eq, Structural, Debug)]
pub struct Vec3 {
    pub x: i64,
    pub y: i64,
    pub z: i64,
}

impl Vec3 {
    /// All three components lie in the representable range.
    pub open spec fn wf(self) -> bool {
        fx_ok(self.x) && fx_ok(self.y) && fx_ok(self.z)
    }

    /// Componentwise sum.
    pub open spec fn add_s(self, o: Vec3) -> Vec3 {
        (Vec3 { x: fx_add_i(self.x, o.x), y: fx_add_i(self.y, o.y), z: fx_add_i(self.z, o.z) })
    }

    /// Componentwise difference.
    pub open spec fn sub_s(self, o: Vec3) -> Vec3 {
        (Vec3 { x: fx_sub_i(self.x, o.x), y: fx_sub_i(self.y, o.y), z: fx_sub_i(self.z, o.z) })
    }

    /// Componentwise negation.
    pub open spec fn neg_s(self) -> Vec3 {
        (Vec3 {
            x: (-(self.x as int)) as i64,
            y: (-(self.y as int)) as i64,
            z: (-(self.z as int)) as i64,
        })
    }

    /// Every component scaled by `t`.
    pub open spec fn scale_s(self, t: i64) -> Vec3 {
        (Vec3 { x: fx_mul_i(self.x, t), y: fx_mul_i(self.y, t), z: fx_mul_i(self.z, t) })
    }

    /// Every component divided by `t`.
    pub open spec fn div_s(self, t: i64) -> Vec3
        recommends
            t != 0,
    {
        (Vec3 { x: fx_div_i(self.x, t), y: fx_div_i(self.y, t), z: fx_div_i(self.z, t) })
    }

    /// Componentwise product (used for color attenuation).
    pub open spec fn mul_s(self, o: Vec3) -> Vec3 {
        (Vec3 { x: fx_mul_i(self.x, o.x), y: fx_mul_i(self.y, o.y), z: fx_mul_i(self.z, o.z) })
    }

    /// Exact dot product at raw scale `SCALE * SCALE`: no rounding at all.
    pub open spec fn dot_raw_s(self, o: Vec3) -> int {
        (self.x as int) * (o.x as int) + (self.y as int) * (o.y as int) + (self.z as int) * (
        o.z as int)
    }

    /// Dot product brought back to scalar scale, rounded toward zero.
    pub open spec fn dot_s(self, o: Vec3) -> int {
        sat(tdiv(self.dot_raw_s(o), SCALE as int))
    }

    /// Dot product at scalar scale, packed back into a scalar.
    pub open spec fn dot_i(self, o: Vec3) -> i64 {
        self.dot_s(o) as i64
    }

    /// Squared length at scalar scale, packed back into a scalar.
    pub open spec fn len2_i(self) -> i64 {
        sat(tdiv(self.len2_raw_s(), SCALE as int)) as i64
    }

    /// Mirror reflection about the normal `n`: `self - 2 (self . n) n`.
    pub open spec fn reflect_s(self, n: Vec3) -> Vec3 {
        self.sub_s(n.scale_s(fx_add_i(self.dot_i(n), self.dot_i(n))))
    }

    /// Exact squared length at raw scale `SCALE * SCALE`.
    pub open spec fn len2_raw_s(self) -> int {
        self.dot_raw_s(self)
    }

    /// Length at scalar scale: the integer square root of the raw squared
    /// length, saturated.
    pub open spec fn length_s(self) -> int {
        sat(sqrt_floor(self.len2_raw_s()))
    }

    /// Unit direction: each component divided by the length.
    pub open spec fn unit_s(self) -> Vec3
        recommends
            self.length_s() > 0,
    {
        self.div_s(self.length_s() as i64)
    }

    /// Cross product.
    pub open spec fn cross_s(self, o: Vec3) -> Vec3 {
        (Vec3 {
            x: fx_sub_i(fx_mul_i(self.y, o.z), fx_mul_i(self.z, o.y)),
            y: fx_sub_i(fx_mul_i(self.z, o.x), fx_mul_i(self.x, o.z)),
            z: fx_sub_i(fx_mul_i(self.x, o.y), fx_mul_i(self.y, o.x)),
        })
    }

    /// All components negligibly small.
    pub open spec fn near_zero_s(self) -> bool {
        iabs(self.x as int) < NEAR_EPS && iabs(self.y as int) < NEAR_EPS && iabs(self.z as int)
            < NEAR_EPS
    }

    /// Build a vector from its components.
    pub fn new(x: i64, y: i64, z: i64) -> (r: Vec3)
        ensures
            r == (Vec3 { x, y, z }),
    {
        Vec3 { x, y, z }
    }

    /// The zero vector.
    pub fn zero() -> (r: Vec3)
        ensures
            r == (Vec3 { x: 0i64, y: 0i64, z: 0i64 }),
            r.wf(),
    {
        Vec3 { x: 0, y: 0, z: 0 }
    }

    /// Componentwise sum.
    pub fn add(self, o: Vec3) -> (r: Vec3)
        requires
            self.wf(),
            o.wf(),
        ensures
            r == self.add_s(o),
            r.wf(),
    {
        Vec3 { x: fx_add(self.x, o.x), y: fx_add(self.y, o.y), z: fx_add(self.z, o.z) }
    }

    /// Componentwise difference.
    pub fn sub(self, o: Vec3) -> (r: Vec3)
        requires
            self.wf(),
            o.wf(),
        ensures
            r == self.sub_s(o),
            r.wf(),
    {
        Vec3 { x: fx_sub(self.x, o.x), y: fx_sub(self.y, o.y), z: fx_sub(self.z, o.z) }
    }

    /// Componentwise negation.
    pub fn neg(self) -> (r: Vec3)
        requires
            self.wf(),
        ensures
            r == self.neg_s(),
            r.wf(),
    {
        Vec3 { x: fx_neg(self.x), y: fx_neg(self.y), z: fx_neg(self.z) }
    }

    /// Every component scaled by `t`.
    pub fn scale(self, t: i64) -> (r: Vec3)
        requires
            self.wf(),
            fx_ok(t),
        ensures
            r == self.scale_s(t),
            r.wf(),
    {
        Vec3 { x: fx_mul(self.x, t), y: fx_mul(self.y, t), z: fx_mul(self.z, t) }
    }

    /// Every component divided by `t`.
    pub fn div(self, t: i64) -> (r: Vec3)
        requires
            self.wf(),
            fx_ok(t),
            t != 0,
        ensures
            r == self.div_s(t),
            r.wf(),
    {
        Vec3 { x: fx_div(self.x, t), y: fx_div(self.y, t), z: fx_div(self.z, t) }
    }

    /// Componentwise product.
    pub fn mul(self, o: Vec3) -> (r: Vec3)
        requires
            self.wf(),
            o.wf(),
        ensures
            r == self.mul_s(o),
            r.wf(),
    {
        Vec3 { x: fx_mul(self.x, o.x), y: fx_mul(self.y, o.y), z: fx_mul(self.z, o.z) }
    }

    /// Raw dot product at scale `SCALE * SCALE`, computed without rounding.
    pub fn dot_raw(self, o: Vec3) -> (r: i128)
        requires
            self.wf(),
            o.wf(),
        ensures
            r as int == self.dot_raw_s(o),
    {
        proof {
            lemma_mul_bound(self.x as int, o.x as int, FX_MAX as int, FX_MAX as int);
            lemma_mul_bound(self.y as int, o.y as int, FX_MAX as int, FX_MAX as int);
            lemma_mul_bound(self.z as int, o.z as int, FX_MAX as int, FX_MAX as int);
        }
        (self.x as i128) * (o.x as i128) + (self.y as i128) * (o.y as i128) + (self.z as i128) * (
        o.z as i128)
    }

    /// Dot product at scalar scale.
    pub fn dot(self, o: Vec3) -> (r: i64)
        requires
            self.wf(),
            o.wf(),
        ensures
            r as int == self.dot_s(o),
            fx_ok(r),
    {
        let raw: i128 = self.dot_raw(o);
        proof {
            lemma_mul_bound(self.x as int, o.x as int, FX_MAX as int, FX_MAX as int);
            lemma_mul_bound(self.y as int, o.y as int, FX_MAX as int, FX_MAX as int);
            lemma_mul_bound(self.z as int, o.z as int, FX_MAX as int, FX_MAX as int);
        }
        scale_down_wide(raw)
    }

    /// Squared length at scalar scale.
    pub fn len2(self) -> (r: i64)
        requires
            self.wf(),
        ensures
            r == self.len2_i(),
            r >= 0,
            fx_ok(r),
    {
        let d: i64 = self.dot(self);
        proof {
            lemma_square_nonneg(self.x as int);
            lemma_square_nonneg(self.y as int);
            lemma_square_nonneg(self.z as int);
        }
        d
    }

    /// Mirror reflection about the normal `n`.
    pub fn reflect(self, n: Vec3) -> (r: Vec3)
        requires
            self.wf(),
            n.wf(),
        ensures
            r == self.reflect_s(n),
            r.wf(),
    {
        let d: i64 = self.dot(n);
        let twice: i64 = fx_add(d, d);
        self.sub(n.scale(twice))
    }

    /// Raw squared length; always non-negative.
    pub fn len2_raw(self) -> (r: i128)
        requires
            self.wf(),
        ensures
            r as int == self.len2_raw_s(),
            r >= 0,
    {
        proof {
            lemma_square_nonneg(self.x as int);
            lemma_square_nonneg(self.y as int);
            lemma_square_nonneg(self.z as int);
        }
        self.dot_raw(self)
    }

    /// Length at scalar scale.
    pub fn length(self) -> (r: i64)
        requires
            self.wf(),
        ensures
            r as int == self.length_s(),
            is_sqrt_floor(self.len2_raw_s(), sqrt_floor(self.len2_raw_s())),
            r >= 0,
            fx_ok(r),
    {
        let raw: i128 = self.len2_raw();
        let root: u128 = isqrt_wide(raw as u128);
        proof {
            lemma_sqrt_floor_is(raw as int, root as int);
        }
        if root > FX_MAX as u128 {
            FX_MAX
        } else {
            root as i64
        }
    }

    /// Unit direction.
    pub fn unit(self) -> (r: Vec3)
        requires
            self.wf(),
            self.len2_raw_s() >= 1,
        ensures
            r == self.unit_s(),
            is_sqrt_floor(self.len2_raw_s(), sqrt_floor(self.len2_raw_s())),
            r.wf(),
    {
        let l: i64 = self.length();
        proof {
            let n = self.len2_raw_s();
            let rt = sqrt_floor(n);
            assert(rt >= 1) by (nonlinear_arith)
                requires
                    0 <= rt,
                    n >= 1,
                    n < (rt + 1) * (rt + 1),
            ;
        }
        self.div(l)
    }

    /// Cross product.
    pub fn cross(self, o: Vec3) -> (r: Vec3)
        requires
            self.wf(),
            o.wf(),
        ensures
            r == self.cross_s(o),
            r.wf(),
    {
        Vec3 {
            x: fx_sub(fx_mul(self.y, o.z), fx_mul(self.z, o.y)),
            y: fx_sub(fx_mul(self.z, o.x), fx_mul(self.x, o.z)),
            z: fx_sub(fx_mul(self.x, o.y), fx_mul(self.y, o.x)),
        }
    }

    /// Whether every component is negligibly small.
    pub fn near_zero(self) -> (r: bool)
        requires
            self.wf(),
        ensures
            r == self.near_zero_s(),
    {
        let ax: i64 = if self.x < 0 {
            -self.x
        } else {
            self.x
        };
        let ay: i64 = if self.y < 0 {
            -self.y
        } else {
            self.y
        };
        let az: i64 = if self.z < 0 {
            -self.z
        } else {
            self.z
        };
        ax < NEAR_EPS && ay < NEAR_EPS && az < NEAR_EPS
    }
}

/// Negating a vector negates its raw dot product with any other vector.
pub proof fn lemma_dot_raw_neg(a: Vec3, b: Vec3)
    requires
        a.wf(),
    ensures
        a.neg_s().dot_raw_s(b) == -a.dot_raw_s(b),
{
    assert((-(a.x as int)) * (b.x as int) == -((a.x as int) * (b.x as int))) by (nonlinear_arith);
    assert((-(a.y as int)) * (b.y as int) == -((a.y as int) * (b.y as int))) by (nonlinear_arith);
    assert((-(a.z as int)) * (b.z as int) == -((a.z as int) * (b.z as int))) by (nonlinear_arith);
}

/// The raw dot product is symmetric.
pub proof fn lemma_dot_raw_comm(a: Vec3, b: Vec3)
    ensures
        a.dot_raw_s(b) == b.dot_raw_s(a),
{
    assert((a.x as int) * (b.x as int) == (b.x as int) * (a.x as int)) by (nonlinear_arith);
    assert((a.y as int) * (b.y as int) == (b.y as int) * (a.y as int)) by (nonlinear_arith);
    assert((a.z as int) * (b.z as int) == (b.z as int) * (a.z as int)) by (nonlinear_arith);
}

/// Every component of a unit vector lies in `[-1, 1]`.
pub proof fn lemma_unit_comp_bound(v: Vec3)
    requires
        v.wf(),
        v.len2_raw_s() >= 1,
        is_sqrt_floor(v.len2_raw_s(), sqrt_floor(v.len2_raw_s())),
    ensures
        -(SCALE as int) <= v.unit_s().x as int <= SCALE as int,
        -(SCALE as int) <= v.unit_s().y as int <= SCALE as int,
        -(SCALE as int) <= v.unit_s().z as int <= SCALE as int,
{
    let n = v.len2_raw_s();
    let rt = sqrt_floor(n);
    assert(rt >= 1) by (nonlinear_arith)
        requires
            0 <= rt,
            n >= 1,
            n < (rt + 1) * (rt + 1),
    ;
    lemma_square_nonneg(v.x as int);
    lemma_square_nonneg(v.y as int);
    lemma_square_nonneg(v.z as int);
    assert(-rt <= v.x as int <= rt) by (nonlinear_arith)
        requires
            (v.x as int) * (v.x as int) <= n,
            n < (rt + 1) * (rt + 1),
            0 <= rt,
    ;
    assert(-rt <= v.y as int <= rt) by (nonlinear_arith)
        requires
            (v.y as int) * (v.y as int) <= n,
            n < (rt + 1) * (rt + 1),
            0 <= rt,
    ;
    assert(-rt <= v.z as int <= rt) by (nonlinear_arith)
        requires
            (v.z as int) * (v.z as int) <= n,
            n < (rt + 1) * (rt + 1),
            0 <= rt,
    ;
    let l = v.length_s() as i64;
    assert(1 <= l as int <= FX_MAX as int);
    assert(-(l as int) <= v.x as int <= l as int);
    assert(-(l as int) <= v.y as int <= l as int);
    assert(-(l as int) <= v.z as int <= l as int);
    crate::fixed::lemma_ratio_bounded(v.x, l);
    crate::fixed::lemma_ratio_bounded(v.y, l);
    crate::fixed::lemma_ratio_bounded(v.z, l);
}

} // verus!
