//! A (possibly moving, possibly negative-radius) spherical surface and its
//! ray-intersection routine.
//!
//! The quadratic `a t^2 + 2 half_b t + c = 0` is solved in fixed point: the
//! discriminant is kept at full raw precision, its integer square root
//! gives the two candidate roots in ascending order, and the nearer root
//! inside `[t_min, t_max]` wins.  Dividing the outward normal by the signed
//! radius both normalizes it and flips it for hollow (negative-radius)
//! spheres.

use vstd::prelude::*;

use crate::fixed::{
    div_wide, fx_mul, fx_mul_i, fx_ok, fx_sub, fx_sub_i, isqrt_wide, lemma_mul_bound,
    lemma_raw_at_least_scale, lemma_sqrt_floor_is, sat, sqrt_floor, tdiv, FX_MAX, SCALE,
};
use crate::hittable::HitRecord;
use crate::material::Material;
use crate::ray3::Ray3;
use crate::vec3::{lemma_dot_raw_comm, lemma_dot_raw_neg, Vec3};

verus! {

/// A sphere whose center moves linearly from `center1` at time 0 to
/// `center2` at time 1; `radius` may be negative to turn the surface
/// inside out.
#[derive(Clone, Copy, PartialEq, Eq, Structural, Debug)]
pub struct Sphere {
    pub center1: Vec3,
    pub center2: Vec3,
    pub radius: i64,
    pub material: Material,
}

impl Sphere {
    /// Field ranges: finite centers, a nonzero radius, a well-formed
    /// material.
    pub open spec fn wf(self) -> bool {
        self.center1.wf() && self.center2.wf() && fx_ok(self.radius) && self.radius != 0
            && self.material.wf()
    }

    /// Center at a given time: linear interpolation between the two
    /// endpoint centers.
    pub open spec fn center_s(self, time: i64) -> Vec3 {
        self.center1.add_s(self.center2.sub_s(self.center1).scale_s(time))
    }

    /// Ray origin relative to the center at the ray's time.
    pub open spec fn oc_s(self, ray: Ray3) -> Vec3 {
        ray.origin.sub_s(self.center_s(ray.time))
    }

    /// Leading quadratic coefficient: the squared length of the direction.
    pub open spec fn quad_a_s(self, ray: Ray3) -> i64 {
        ray.direction.len2_i()
    }

    /// Half the linear quadratic coefficient.
    pub open spec fn half_b_s(self, ray: Ray3) -> i64 {
        self.oc_s(ray).dot_i(ray.direction)
    }

    /// Constant quadratic coefficient: `|oc|^2 - radius^2`.
    pub open spec fn quad_c_s(self, ray: Ray3) -> i64 {
        fx_sub_i(self.oc_s(ray).len2_i(), fx_mul_i(self.radius, self.radius))
    }

    /// Discriminant `half_b^2 - a c`, kept at full raw precision.
    pub open spec fn disc_s(self, ray: Ray3) -> int {
        (self.half_b_s(ray) as int) * (self.half_b_s(ray) as int) - (self.quad_a_s(ray) as int) * (
        self.quad_c_s(ray) as int)
    }

    /// Square root of the discriminant, saturated into scalar range.
    pub open spec fn sqrt_disc_s(self, ray: Ray3) -> i64
        recommends
            self.disc_s(ray) >= 0,
    {
        sat(sqrt_floor(self.disc_s(ray))) as i64
    }

    /// The smaller quadratic root `(-half_b - sqrt(disc)) / a`.
    pub open spec fn root_near_s(self, ray: Ray3) -> i64 {
        sat(
            tdiv(
                (-(self.half_b_s(ray) as int) - (self.sqrt_disc_s(ray) as int)) * (SCALE as int),
                self.quad_a_s(ray) as int,
            ),
        ) as i64
    }

    /// The larger quadratic root `(-half_b + sqrt(disc)) / a`.
    pub open spec fn root_far_s(self, ray: Ray3) -> i64 {
        sat(
            tdiv(
                (-(self.half_b_s(ray) as int) + (self.sqrt_disc_s(ray) as int)) * (SCALE as int),
                self.quad_a_s(ray) as int,
            ),
        ) as i64
    }

    /// The remainder the closing division leaves at the nearer root: the
    /// scaled numerator minus the leading coefficient times the accepted
    /// parameter.
    pub open spec fn root_near_rem_s(self, ray: Ray3) -> int {
        (-(self.half_b_s(ray) as int) - sqrt_floor(self.disc_s(ray))) * (SCALE as int) - (
        self.quad_a_s(ray) as int) * (self.root_near_s(ray) as int)
    }

    /// The accepted root: the nearer one if it lies in the window, else the
    /// farther one (the roots are tried in ascending order).
    pub open spec fn chosen_root_s(self, ray: Ray3, t_min: i64, t_max: i64) -> i64 {
        if t_min <= self.root_near_s(ray) && self.root_near_s(ray) <= t_max {
            self.root_near_s(ray)
        } else {
            self.root_far_s(ray)
        }
    }

    /// Geometric outward normal at the surface point reached at `t`:
    /// `(point - center) / radius`.  The signed radius flips it for hollow
    /// spheres.
    pub open spec fn outward_normal_s(self, ray: Ray3, t: i64) -> Vec3
        recommends
            self.radius != 0,
    {
        ray.at_s(t).sub_s(self.center_s(ray.time)).div_s(self.radius)
    }

    /// The record built at an accepted root: the normal is negated when the
    /// ray strikes the surface from behind, so the stored normal always
    /// opposes the ray.
    pub open spec fn record_s(self, ray: Ray3, t: i64) -> HitRecord {
        let n = self.outward_normal_s(ray, t);
        let front = ray.direction.dot_raw_s(n) < 0;
        (HitRecord {
            t,
            point: ray.at_s(t),
            normal: if front {
                n
            } else {
                n.neg_s()
            },
            is_front_face: front,
            material: self.material,
        })
    }

    /// What `hit` returns: `None` on a degenerate direction, a negative
    /// discriminant, or no root in the window; otherwise the record at the
    /// accepted root.
    pub open spec fn hit_s(self, ray: Ray3, t_min: i64, t_max: i64) -> Option<HitRecord> {
        if self.quad_a_s(ray) <= 0 {
            None
        } else if self.disc_s(ray) < 0 {
            None
        } else {
            let t = self.chosen_root_s(ray, t_min, t_max);
            if t < t_min || t > t_max {
                None
            } else {
                Some(self.record_s(ray, t))
            }
        }
    }

    /// Build a sphere from its parts.
    pub fn new(center1: Vec3, center2: Vec3, radius: i64, material: Material) -> (r: Sphere)
        ensures
            r == (Sphere { center1, center2, radius, material }),
    {
        Sphere { center1, center2, radius, material }
    }

    /// Center at a given time.
    pub fn center(&self, time: i64) -> (r: Vec3)
        requires
            self.wf(),
            fx_ok(time),
        ensures
            r == self.center_s(time),
            r.wf(),
    {
        self.center1.add(self.center2.sub(self.center1).scale(time))
    }

    /// Does the ray strike this sphere at a parameter within
    /// `[t_min, t_max]`?  On success the record's normal opposes the ray
    /// and its parameter lies in the window.
    pub fn hit(&self, ray: &Ray3, t_min: i64, t_max: i64) -> (r: Option<HitRecord>)
        requires
            self.wf(),
            ray.wf(),
            fx_ok(t_min),
            fx_ok(t_max),
        ensures
            r == self.hit_s(*ray, t_min, t_max),
            (r matches Some(h) ==> h.wf() && h.opposes(*ray) && t_min <= h.t <= t_max
                && h.material == self.material),
            r is Some ==> ray.direction.len2_raw_s() >= SCALE as int,
    {
        let center: Vec3 = self.center(ray.time);
        let oc: Vec3 = ray.origin.sub(center);
        let a: i64 = ray.direction.len2();
        if a <= 0 {
            return None;
        }
        proof {
            lemma_raw_at_least_scale(ray.direction.len2_raw_s());
        }
        let half_b: i64 = oc.dot(ray.direction);
        let c: i64 = fx_sub(oc.len2(), fx_mul(self.radius, self.radius));
        proof {
            lemma_mul_bound(half_b as int, half_b as int, FX_MAX as int, FX_MAX as int);
            lemma_mul_bound(a as int, c as int, FX_MAX as int, FX_MAX as int);
        }
        let disc: i128 = (half_b as i128) * (half_b as i128) - (a as i128) * (c as i128);
        if disc < 0 {
            return None;
        }
        let sd_u: u128 = isqrt_wide(disc as u128);
        proof {
            lemma_sqrt_floor_is(disc as int, sd_u as int);
        }
        let sd: i64 = if sd_u > FX_MAX as u128 {
            FX_MAX
        } else {
            sd_u as i64
        };
        let num_near: i128 = (-(half_b as i128) - (sd as i128)) * (SCALE as i128);
        let t1: i64 = div_wide(num_near, a);
        let t: i64 = if t1 < t_min || t1 > t_max {
            let num_far: i128 = (-(half_b as i128) + (sd as i128)) * (SCALE as i128);
            div_wide(num_far, a)
        } else {
            t1
        };
        if t < t_min || t > t_max {
            return None;
        }
        let point: Vec3 = ray.at(t);
        let mut normal: Vec3 = point.sub(center).div(self.radius);
        let front_dot: i128 = ray.direction.dot_raw(normal);
        let is_front_face: bool = front_dot < 0;
        if !is_front_face {
            proof {
                lemma_dot_raw_neg(normal, ray.direction);
                lemma_dot_raw_comm(ray.direction, normal);
                lemma_dot_raw_comm(normal.neg_s(), ray.direction);
            }
            normal = normal.neg();
        }
        proof {
            lemma_dot_raw_comm(ray.direction, normal);
        }
        Some(HitRecord { t, point, normal, is_front_face, material: self.material })
    }
}

/// Intersection correctness: whenever the ray parameter `p / q` exactly
/// solves the quadratic that `hit` sets up (with raw coefficients
/// `a = d.d`, `half_b = oc.d`, `c = oc.oc - radius^2`), the point the ray
/// reaches lies at distance `|radius|` from the center: in exact integer
/// arithmetic, `|oc q + d p|^2 == radius^2 q^2`.
pub proof fn lemma_root_on_sphere(oc: Vec3, d: Vec3, radius: int, p: int, q: int)
    requires
        d.dot_raw_s(d) * (p * p) + 2 * oc.dot_raw_s(d) * (p * q) + (oc.dot_raw_s(oc) - radius
            * radius) * (q * q) == 0,
    ensures
        ((oc.x as int) * q + (d.x as int) * p) * ((oc.x as int) * q + (d.x as int) * p) + ((
        oc.y as int) * q + (d.y as int) * p) * ((oc.y as int) * q + (d.y as int) * p) + ((
        oc.z as int) * q + (d.z as int) * p) * ((oc.z as int) * q + (d.z as int) * p) == radius
            * radius * (q * q),
{
    let ox = oc.x as int;
    let oy = oc.y as int;
    let oz = oc.z as int;
    let dx = d.x as int;
    let dy = d.y as int;
    let dz = d.z as int;
    lemma_expand_square(ox, dx, p, q);
    lemma_expand_square(oy, dy, p, q);
    lemma_expand_square(oz, dz, p, q);
    lemma_distribute_three(ox * ox, oy * oy, oz * oz, q * q);
    lemma_distribute_three(dx * dx, dy * dy, dz * dz, p * p);
    lemma_distribute_three(ox * dx, oy * dy, oz * dz, 2 * (p * q));
    lemma_shift_double(ox * dx + oy * dy + oz * dz, p, q);
    lemma_distribute_difference(ox * ox + oy * oy + oz * oz, radius * radius, q * q);
}

/// `(o q + d p)^2` expanded.
proof fn lemma_expand_square(o: int, d: int, p: int, q: int)
    ensures
        (o * q + d * p) * (o * q + d * p) == o * o * (q * q) + (o * d) * (2 * (p * q)) + d * d * (
        p * p),
{
    lemma_square_of_sum(o * q, d * p, (o * q) * (o * q), (o * q) * (d * p), (d * p) * (d * p));
    lemma_regroup_product(o, q, o, q);
    lemma_regroup_product(o, q, d, p);
    lemma_regroup_product(d, p, d, p);
    lemma_double_shift(o * d, p * q);
    lemma_regroup_product(o, o, q, q);
    lemma_regroup_product(d, d, p, p);
}

/// The square of a sum, over named subproducts.
proof fn lemma_square_of_sum(x: int, y: int, xx: int, xy: int, yy: int) by (nonlinear_arith)
    requires
        xx == x * x,
        xy == x * y,
        yy == y * y,
    ensures
        (x + y) * (x + y) == xx + 2 * xy + yy,
{
}

/// Products regroup: `(a b)(c d) == (a c)(d b)`.
proof fn lemma_regroup_product(a: int, b: int, c: int, d: int) by (nonlinear_arith)
    ensures
        (a * b) * (c * d) == (a * c) * (d * b),
{
}

/// Doubling can move between factors.
proof fn lemma_double_shift(a: int, b: int) by (nonlinear_arith)
    ensures
        2 * (a * b) == a * (2 * b),
{
}

/// Distribution of a common factor over a three-term sum.
proof fn lemma_distribute_three(x1: int, x2: int, x3: int, f: int) by (nonlinear_arith)
    ensures
        (x1 + x2 + x3) * f == x1 * f + x2 * f + x3 * f,
{
}

/// Doubling can move between factors.
proof fn lemma_shift_double(b: int, p: int, q: int) by (nonlinear_arith)
    ensures
        2 * b * (p * q) == b * (2 * (p * q)),
{
}

/// Distribution of a common factor over a difference.
proof fn lemma_distribute_difference(a: int, r: int, f: int) by (nonlinear_arith)
    ensures
        (a - r) * f == a * f - r * f,
{
}

/// Negative-radius inversion: two spheres identical but for the sign of
/// the radius have exactly opposite geometric outward normals at the same
/// surface point.
pub proof fn lemma_negative_radius_inversion(s1: Sphere, s2: Sphere, ray: Ray3, t: i64)
    requires
        s1.wf(),
        s2.wf(),
        ray.wf(),
        fx_ok(t),
        s2.center1 == s1.center1,
        s2.center2 == s1.center2,
        s2.radius as int == -(s1.radius as int),
    ensures
        s2.outward_normal_s(ray, t) == s1.outward_normal_s(ray, t).neg_s(),
{
    let rel = ray.at_s(t).sub_s(s1.center_s(ray.time));
    assert(s2.center_s(ray.time) == s1.center_s(ray.time));
    crate::fixed::lemma_tdiv_neg_den(
        (rel.x as int) * (SCALE as int),
        s1.radius as int,
    );
    crate::fixed::lemma_tdiv_neg_den(
        (rel.y as int) * (SCALE as int),
        s1.radius as int,
    );
    crate::fixed::lemma_tdiv_neg_den(
        (rel.z as int) * (SCALE as int),
        s1.radius as int,
    );
}

/// Both quadratic roots, and hence the accepted parameter, ignore the sign
/// of the radius: the mirrored sphere is struck at the same point, and its
/// record differs only in the face flag and (away from grazing incidence)
/// not at all in the stored normal.
pub proof fn lemma_negative_radius_same_hit(
    s1: Sphere,
    s2: Sphere,
    ray: Ray3,
    t_min: i64,
    t_max: i64,
)
    requires
        s1.wf(),
        s2.wf(),
        ray.wf(),
        fx_ok(t_min),
        fx_ok(t_max),
        s2.center1 == s1.center1,
        s2.center2 == s1.center2,
        s2.radius as int == -(s1.radius as int),
    ensures
        (s1.hit_s(ray, t_min, t_max) is Some) == (s2.hit_s(ray, t_min, t_max) is Some),
        (s1.hit_s(ray, t_min, t_max) matches Some(h1) ==> s2.hit_s(ray, t_min, t_max) matches
            Some(h2) && h2.t == h1.t && h2.point == h1.point && (ray.direction.dot_raw_s(
            s1.outward_normal_s(ray, h1.t),
        ) != 0 ==> h2.normal == h1.normal && h2.is_front_face == !h1.is_front_face)),
{
    assert((s2.radius as int) * (s2.radius as int) == (s1.radius as int) * (s1.radius as int))
        by (nonlinear_arith)
        requires
            s2.radius as int == -(s1.radius as int),
    ;
    assert(s2.quad_c_s(ray) == s1.quad_c_s(ray));
    assert(s2.quad_a_s(ray) == s1.quad_a_s(ray));
    assert(s2.half_b_s(ray) == s1.half_b_s(ray));
    assert(s2.disc_s(ray) == s1.disc_s(ray));
    assert(s2.chosen_root_s(ray, t_min, t_max) == s1.chosen_root_s(ray, t_min, t_max));
    if s1.hit_s(ray, t_min, t_max) is Some {
        let t = s1.chosen_root_s(ray, t_min, t_max);
        lemma_negative_radius_inversion(s1, s2, ray, t);
        let n1 = s1.outward_normal_s(ray, t);
        lemma_dot_raw_neg(n1, ray.direction);
        lemma_dot_raw_comm(ray.direction, n1);
        lemma_dot_raw_comm(ray.direction, n1.neg_s());
        assert(n1.neg_s().neg_s() == n1);
    }
}

/// Narrowing the upper end of the search window keeps a hit whose
/// parameter still fits, and rules every other hit out: the accepted root
/// is the nearest root in the window.
pub proof fn lemma_hit_narrow(s: Sphere, ray: Ray3, t_min: i64, w1: i64, w2: i64)
    requires
        s.wf(),
        ray.wf(),
        fx_ok(t_min),
        fx_ok(w1),
        fx_ok(w2),
        w2 <= w1,
    ensures
        (s.hit_s(ray, t_min, w1) matches Some(h) ==> (if h.t <= w2 {
            s.hit_s(ray, t_min, w2) == s.hit_s(ray, t_min, w1)
        } else {
            s.hit_s(ray, t_min, w2) is None
        })),
        s.hit_s(ray, t_min, w1) is None ==> s.hit_s(ray, t_min, w2) is None,
{
    if s.quad_a_s(ray) <= 0 || s.disc_s(ray) < 0 {
        return ;
    }
    let near = s.root_near_s(ray);
    let far = s.root_far_s(ray);
    crate::fixed::lemma_sqrt_floor_exists(s.disc_s(ray));
    let sd = s.sqrt_disc_s(ray);
    assert(sd >= 0);
    crate::fixed::lemma_tdiv_monotone(
        (-(s.half_b_s(ray) as int) - (sd as int)) * (SCALE as int),
        (-(s.half_b_s(ray) as int) + (sd as int)) * (SCALE as int),
        s.quad_a_s(ray) as int,
    );
    assert(near <= far);
}

/// The square of a difference, over named subproducts.
proof fn lemma_square_of_diff(x: int, y: int, xx: int, xy: int, yy: int) by (nonlinear_arith)
    requires
        xx == x * x,
        xy == x * y,
        yy == y * y,
    ensures
        (x - y) * (x - y) == xx - 2 * xy + yy,
{
}

/// Squaring ignores the sign.
proof fn lemma_neg_square(x: int) by (nonlinear_arith)
    ensures
        (-x) * (-x) == x * x,
{
}

/// A scale factor moves out of the right factor.
proof fn lemma_assoc_scale(x: int, y: int) by (nonlinear_arith)
    ensures
        x * (y * 65536) == (x * y) * 65536,
        (y * 65536) * x == (y * x) * 65536,
{
}

/// Multiplication distributes over a difference.
proof fn lemma_distribute_diff(x: int, y: int, z: int) by (nonlinear_arith)
    ensures
        x * (y - z) == x * y - x * z,
{
}

/// Multiplication distributes over a negated sum.
proof fn lemma_distribute_negsum(x: int, y: int, z: int) by (nonlinear_arith)
    ensures
        x * (-y - z) == -(x * y) - (x * z),
{
}

/// Multiplication commutes.
proof fn lemma_mul_comm(x: int, y: int) by (nonlinear_arith)
    ensures
        x * y == y * x,
{
}

/// How far the accepted nearer root is from an exact root, in exact
/// arithmetic.  With `a, b, c` the quadratic's raw coefficients,
/// `d = b^2 - a c` its discriminant, `sd` the integer square root of `d`
/// and `rho` the remainder of the closing division (so `a t` is the
/// scaled numerator minus `rho`), the quadratic multiplied through by `a`
/// and evaluated at the returned parameter equals
/// `S^2 (sd^2 - d) + 2 sd rho S + rho^2`, where `S` is one fixed-point
/// unit: the only departure from an exact root is the square-root defect
/// `sd^2 - d`, which lies in `[-2 sd, 0]`, and the division remainder
/// `rho`.  An exact square root and an exact division (`sd^2 == d`,
/// `rho == 0`) make the returned parameter an exact root, and
/// `lemma_root_on_sphere` then puts the hit point at distance `|radius|`
/// from the center.
pub proof fn lemma_near_root_residual(a: int, b: int, c: int, d: int, sd: int, t: int, rho: int)
    requires
        d == b * b - a * c,
        0 <= sd,
        sd * sd <= d,
        d < (sd + 1) * (sd + 1),
        a * t == (-b - sd) * 65536 - rho,
    ensures
        (a * t) * (a * t) + 2 * ((b * (a * t)) * 65536) + (a * c) * 4294967296 == 4294967296 * (
        sd * sd - d) + 2 * ((sd * rho) * 65536) + rho * rho,
        -(2 * sd) <= sd * sd - d <= 0,
{
    let n = (-b - sd) * 65536;
    let u = a * t;
    // u^2 expanded about the remainder
    lemma_square_of_diff(n, rho, n * n, n * rho, rho * rho);
    assert(u * u == n * n - 2 * (n * rho) + rho * rho);
    // n^2 at raw scale
    lemma_regroup_product(-b - sd, 65536, -b - sd, 65536);
    assert(n * n == ((-b - sd) * (-b - sd)) * (65536 * 65536));
    lemma_neg_square(b + sd);
    assert((-b - sd) * (-b - sd) == (b + sd) * (b + sd)) by {
        assert(-b - sd == -(b + sd));
    }
    lemma_square_of_sum(b, sd, b * b, b * sd, sd * sd);
    assert(n * n == (b * b + 2 * (b * sd) + sd * sd) * 4294967296);
    // the linear term
    lemma_distribute_diff(b, n, rho);
    assert(b * u == b * n - b * rho);
    lemma_assoc_scale(b, -b - sd);
    lemma_distribute_negsum(b, b, sd);
    assert(b * n == (-(b * b) - (b * sd)) * 65536);
    // the cross term of u^2
    lemma_assoc_scale(rho, -b - sd);
    lemma_distribute_negsum(rho, b, sd);
    lemma_mul_comm(rho, b);
    lemma_mul_comm(rho, sd);
    assert(n * rho == ((-b - sd) * rho) * 65536) by {
        lemma_mul_comm(n, rho);
        assert(rho * ((-b - sd) * 65536) == (rho * (-b - sd)) * 65536);
        lemma_mul_comm(rho, -b - sd);
    }
    assert(n * rho == (-(b * rho) - (sd * rho)) * 65536);
    // assemble: the raw-scale squares cancel, the discriminant defect and
    // the remainder terms stay
    assert(u * u + 2 * ((b * u) * 65536) + (a * c) * 4294967296 == 4294967296 * (sd * sd - d) + 2
        * ((sd * rho) * 65536) + rho * rho);
    assert((sd + 1) * (sd + 1) == sd * sd + 2 * sd + 1) by (nonlinear_arith);
}

/// Intersection correctness for the parameter the code actually returns:
/// whenever `hit` reports a hit at the nearer root and neither the square
/// root nor the division saturated, that parameter satisfies the scaled
/// quadratic up to the two rounding defects alone — the square-root
/// defect, within `[-2 sd, 0]`, and the division remainder, smaller than
/// the leading coefficient.  With an exact square root and an exact
/// division both defects vanish, the parameter is an exact root, and
/// `lemma_root_on_sphere` places the hit point at distance `|radius|`
/// from the center.
pub proof fn lemma_hit_near_root_residual(s: Sphere, ray: Ray3, t_min: i64, t_max: i64)
    requires
        s.wf(),
        ray.wf(),
        s.hit_s(ray, t_min, t_max) is Some,
        sqrt_floor(s.disc_s(ray)) <= FX_MAX as int,
        -(FX_MAX as int) <= tdiv(
            (-(s.half_b_s(ray) as int) - sqrt_floor(s.disc_s(ray))) * (SCALE as int),
            s.quad_a_s(ray) as int,
        ) <= FX_MAX as int,
    ensures
        -(s.quad_a_s(ray) as int) < s.root_near_rem_s(ray) < s.quad_a_s(ray) as int,
        -(2 * sqrt_floor(s.disc_s(ray))) <= sqrt_floor(s.disc_s(ray)) * sqrt_floor(s.disc_s(ray))
            - s.disc_s(ray) <= 0,
        ((s.quad_a_s(ray) as int) * (s.root_near_s(ray) as int)) * ((s.quad_a_s(ray) as int) * (
        s.root_near_s(ray) as int)) + 2 * (((s.half_b_s(ray) as int) * ((s.quad_a_s(
            ray,
        ) as int) * (s.root_near_s(ray) as int))) * 65536) + ((s.quad_a_s(ray) as int) * (
        s.quad_c_s(ray) as int)) * 4294967296 == 4294967296 * (sqrt_floor(s.disc_s(ray))
            * sqrt_floor(s.disc_s(ray)) - s.disc_s(ray)) + 2 * ((sqrt_floor(s.disc_s(ray))
            * s.root_near_rem_s(ray)) * 65536) + s.root_near_rem_s(ray) * s.root_near_rem_s(ray),
{
    let a = s.quad_a_s(ray) as int;
    let b = s.half_b_s(ray) as int;
    let c = s.quad_c_s(ray) as int;
    let d = s.disc_s(ray);
    assert(a >= 1 && d >= 0);
    crate::fixed::lemma_sqrt_floor_exists(d);
    let sd = sqrt_floor(d);
    assert(s.sqrt_disc_s(ray) as int == sd);
    let num = (-b - sd) * (SCALE as int);
    let t = s.root_near_s(ray) as int;
    assert(t == tdiv(num, a));
    crate::fixed::lemma_tdiv_remainder(num, a);
    let rho = s.root_near_rem_s(ray);
    assert(rho == num - a * t);
    lemma_mul_comm(tdiv(num, a), a);
    assert(a * t == num - rho);
    lemma_near_root_residual(a, b, c, d, sd, t, rho);
}

} // verus!
