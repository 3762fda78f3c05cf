//! Surface materials: a closed set of three scattering models.  Scattering
//! is deterministic once the random inputs are passed in, so its contract
//! pins the outcome down exactly.

use vstd::prelude::*;

use crate::fixed::{
    fx_add, fx_add_i, fx_div, fx_div_i, fx_mul, fx_mul_i, fx_ok, fx_sqrt, fx_sqrt_i, fx_sub,
    fx_sub_i, is_sqrt_floor, lemma_sq_fixed_le_one, tdiv, FX_MAX, SCALE,
};
use crate::hittable::HitRecord;
use crate::ray3::Ray3;
use crate::vec3::Vec3;

verus! {

/// One of the three scattering models.
#[derive(Clone, Copy, PartialEq, Eq, Structural, Debug)]
pub enum Material {
    /// Diffuse: scatters about the normal, attenuating by `albedo`.
    Lambertian { albedo: Vec3 },
    /// Reflective: mirrors the incoming direction, perturbed by `fuzz`.
    Metal { albedo: Vec3, fuzz: i64 },
    /// Transparent: reflects or refracts by index of refraction `ir`.
    Dielectric { ir: i64 },
}

/// A color channel lies in `[0, 1]`.
pub open spec fn channel_ok(v: i64) -> bool {
    0 <= v <= SCALE
}

/// A color has all channels in `[0, 1]`.
pub open spec fn color_ok(c: Vec3) -> bool {
    channel_ok(c.x) && channel_ok(c.y) && channel_ok(c.z)
}

impl Material {
    /// Field ranges every material must keep: albedo channels in `[0, 1]`,
    /// fuzz in `[0, 1]`, and a positive index of refraction.  `1 <= ir`
    /// asks for one fixed-point step (`1/65536`), not for an index of one:
    /// indices below one are admitted; only zero (which the refraction
    /// ratio divides by) and negative indices (which would flip Schlick's
    /// reflectance) are ruled out.
    pub open spec fn wf(self) -> bool {
        match self {
            Material::Lambertian { albedo } => color_ok(albedo),
            Material::Metal { albedo, fuzz } => color_ok(albedo) && 0 <= fuzz <= SCALE,
            Material::Dielectric { ir } => 1 <= ir <= FX_MAX,
        }
    }
}

/// The diffuse bounce direction: the normal plus a random point of the
/// unit sphere, falling back to the bare normal when the sum degenerates.
pub open spec fn lambertian_dir_s(normal: Vec3, rand_unit: Vec3) -> Vec3 {
    let d = normal.add_s(rand_unit);
    if d.near_zero_s() {
        normal
    } else {
        d
    }
}

/// Cosine of the incidence angle: `(-unit_dir) . n`, clamped into `[-1, 1]`.
pub open spec fn cos_theta_s(unit_dir: Vec3, n: Vec3) -> i64 {
    let d = unit_dir.neg_s().dot_i(n);
    if d > SCALE {
        SCALE
    } else if d < -SCALE {
        (-(SCALE as int)) as i64
    } else {
        d
    }
}

/// Schlick's reflectance approximation
/// `r0 + (1 - r0) (1 - cos)^5` with `r0 = ((1 - ratio) / (1 + ratio))^2`.
pub open spec fn schlick_s(cos: i64, ratio: i64) -> i64
    recommends
        0 <= ratio,
{
    let r0a = fx_div_i(fx_sub_i(SCALE, ratio), fx_add_i(SCALE, ratio));
    let r0 = fx_mul_i(r0a, r0a);
    let p = fx_sub_i(SCALE, cos);
    let p2 = fx_mul_i(p, p);
    let p4 = fx_mul_i(p2, p2);
    let p5 = fx_mul_i(p4, p);
    fx_add_i(r0, fx_mul_i(fx_sub_i(SCALE, r0), p5))
}

/// Snell refraction of the unit direction `uv` about the normal `n`:
/// the perpendicular part `ratio (uv + cos n)` plus the parallel part
/// `-sqrt(|1 - |perp|^2|) n`.
pub open spec fn refract_s(uv: Vec3, n: Vec3, ratio: i64, cos: i64) -> Vec3 {
    let perp = uv.add_s(n.scale_s(cos)).scale_s(ratio);
    let k = fx_sub_i(SCALE, perp.len2_i());
    let ka = if k < 0 {
        (-(k as int)) as i64
    } else {
        k
    };
    perp.add_s(n.scale_s((-(fx_sqrt_i(ka) as int)) as i64))
}

impl Material {
    /// What `scatter` returns, as a function of the two random inputs.
    pub open spec fn scatter_s(
        self,
        ray_in: Ray3,
        rec: HitRecord,
        rand_unit: Vec3,
        rand_draw: i64,
    ) -> Option<(Vec3, Ray3)> {
        match self {
            Material::Lambertian { albedo } => {
                let dir = lambertian_dir_s(rec.normal, rand_unit);
                Some((albedo, Ray3 { origin: rec.point, direction: dir, time: ray_in.time }))
            },
            Material::Metal { albedo, fuzz } => {
                let dir = ray_in.direction.unit_s().reflect_s(rec.normal).add_s(
                    rand_unit.scale_s(fuzz),
                );
                if dir.dot_raw_s(rec.normal) > 0 {
                    Some((albedo, Ray3 { origin: rec.point, direction: dir, time: ray_in.time }))
                } else {
                    None
                }
            },
            Material::Dielectric { ir } => {
                let ratio = if rec.is_front_face {
                    fx_div_i(SCALE, ir)
                } else {
                    ir
                };
                let u = ray_in.direction.unit_s();
                let cos = cos_theta_s(u, rec.normal);
                let sin = fx_sqrt_i(fx_sub_i(SCALE, fx_mul_i(cos, cos)));
                let dir = if fx_mul_i(ratio, sin) > SCALE || rand_draw < schlick_s(cos, ratio) {
                    u.reflect_s(rec.normal)
                } else {
                    refract_s(u, rec.normal, ratio, cos)
                };
                Some(
                    (
                        Vec3 { x: SCALE, y: SCALE, z: SCALE },
                        Ray3 { origin: rec.point, direction: dir, time: ray_in.time },
                    ),
                )
            },
        }
    }

    /// Decide absorption or scattering.  `rand_unit` is a random point of
    /// the unit sphere and `rand_draw` a uniform draw in `[0, 1)`; given
    /// those the outcome is exact: a diffuse surface always scatters with
    /// its albedo as attenuation, a metal absorbs exactly when the fuzzed
    /// reflection points into the surface, and a dielectric always
    /// scatters at full intensity.
    pub fn scatter(&self, ray_in: &Ray3, rec: &HitRecord, rand_unit: Vec3, rand_draw: i64) -> (r:
        Option<(Vec3, Ray3)>)
        requires
            self.wf(),
            ray_in.wf(),
            rec.wf(),
            rand_unit.wf(),
            fx_ok(rand_draw),
            ray_in.direction.len2_raw_s() >= SCALE as int,
        ensures
            r == self.scatter_s(*ray_in, *rec, rand_unit, rand_draw),
            (r matches Some(p) ==> p.0.wf() && color_ok(p.0) && p.1.wf() && p.1.origin
                == rec.point && p.1.time == ray_in.time),
    {
        match self {
            Material::Lambertian { albedo } => {
                let d0: Vec3 = rec.normal.add(rand_unit);
                let dir: Vec3 = if d0.near_zero() {
                    rec.normal
                } else {
                    d0
                };
                Some((*albedo, Ray3::new(rec.point, dir, ray_in.time)))
            },
            Material::Metal { albedo, fuzz } => {
                let reflected: Vec3 = ray_in.direction.unit().reflect(rec.normal);
                let dir: Vec3 = reflected.add(rand_unit.scale(*fuzz));
                let d: i128 = dir.dot_raw(rec.normal);
                if d > 0 {
                    Some((*albedo, Ray3::new(rec.point, dir, ray_in.time)))
                } else {
                    None
                }
            },
            Material::Dielectric { ir } => {
                let ratio: i64 = if rec.is_front_face {
                    fx_div(SCALE, *ir)
                } else {
                    *ir
                };
                let u: Vec3 = ray_in.direction.unit();
                let du: i64 = u.neg().dot(rec.normal);
                let cos: i64 = if du > SCALE {
                    SCALE
                } else if du < -SCALE {
                    -SCALE
                } else {
                    du
                };
                proof {
                    lemma_sq_fixed_le_one(cos);
                }
                let sin: i64 = fx_sqrt(fx_sub(SCALE, fx_mul(cos, cos)));
                let reflect_now: bool = fx_mul(ratio, sin) > SCALE || rand_draw < schlick(
                    cos,
                    ratio,
                );
                let dir: Vec3 = if reflect_now {
                    u.reflect(rec.normal)
                } else {
                    refract(u, rec.normal, ratio, cos)
                };
                Some((Vec3::new(SCALE, SCALE, SCALE), Ray3::new(rec.point, dir, ray_in.time)))
            },
        }
    }
}

/// Schlick's reflectance approximation.
pub fn schlick(cos: i64, ratio: i64) -> (r: i64)
    requires
        fx_ok(cos),
        0 <= ratio <= FX_MAX,
    ensures
        r == schlick_s(cos, ratio),
        fx_ok(r),
{
    let r0a: i64 = fx_div(fx_sub(SCALE, ratio), fx_add(SCALE, ratio));
    let r0: i64 = fx_mul(r0a, r0a);
    let p: i64 = fx_sub(SCALE, cos);
    let p2: i64 = fx_mul(p, p);
    let p4: i64 = fx_mul(p2, p2);
    let p5: i64 = fx_mul(p4, p);
    fx_add(r0, fx_mul(fx_sub(SCALE, r0), p5))
}

/// Snell refraction of the unit direction `uv` about the normal `n`.
pub fn refract(uv: Vec3, n: Vec3, ratio: i64, cos: i64) -> (r: Vec3)
    requires
        uv.wf(),
        n.wf(),
        fx_ok(ratio),
        fx_ok(cos),
    ensures
        r == refract_s(uv, n, ratio, cos),
        r.wf(),
{
    let perp: Vec3 = uv.add(n.scale(cos)).scale(ratio);
    let k: i64 = fx_sub(SCALE, perp.len2());
    let ka: i64 = if k < 0 {
        -k
    } else {
        k
    };
    let par_len: i64 = fx_sqrt(ka);
    perp.add(n.scale(-par_len))
}

/// Lambertian energy conservation: whatever random bounce direction was
/// drawn, a diffuse surface always scatters and its attenuation is exactly
/// its albedo.
pub proof fn lemma_lambertian_attenuation(
    albedo: Vec3,
    ray_in: Ray3,
    rec: HitRecord,
    rand_unit: Vec3,
    rand_draw: i64,
)
    ensures
        (Material::Lambertian { albedo }).scatter_s(ray_in, rec, rand_unit, rand_draw) matches
            Some(p) && p.0 == albedo,
{
}

/// Metal self-occlusion: with no fuzz, a reflection direction that points
/// into the surface (its raw dot product with the normal is not positive)
/// is absorbed, whatever the random inputs were.
pub proof fn lemma_metal_self_occlusion(
    albedo: Vec3,
    ray_in: Ray3,
    rec: HitRecord,
    rand_unit: Vec3,
    rand_draw: i64,
)
    requires
        rec.normal.wf(),
        ray_in.direction.unit_s().reflect_s(rec.normal).dot_raw_s(rec.normal) <= 0,
    ensures
        (Material::Metal { albedo, fuzz: 0i64 }).scatter_s(
            ray_in,
            rec,
            rand_unit,
            rand_draw,
        ) is None,
{
    let reflected = ray_in.direction.unit_s().reflect_s(rec.normal);
    let zero = rand_unit.scale_s(0);
    assert(zero == (Vec3 { x: 0i64, y: 0i64, z: 0i64 }));
    assert(reflected.add_s(zero) == reflected);
}

/// Dielectric normal-incidence refraction: a ray striking the surface
/// dead-center from outside (its unit direction exactly opposite an
/// exactly-unit normal), with the random draw at or above the reflectance
/// threshold, refracts straight through with no angular deviation, at full
/// intensity.
pub proof fn lemma_dielectric_normal_incidence(
    ir: i64,
    ray_in: Ray3,
    rec: HitRecord,
    rand_unit: Vec3,
    rand_draw: i64,
)
    requires
        1 <= ir <= FX_MAX,
        rec.normal.wf(),
        rec.is_front_face,
        rec.normal.len2_raw_s() == (SCALE as int) * (SCALE as int),
        ray_in.direction.unit_s() == rec.normal.neg_s(),
        rand_draw >= schlick_s(SCALE, fx_div_i(SCALE, ir)),
    ensures
        (Material::Dielectric { ir }).scatter_s(ray_in, rec, rand_unit, rand_draw) matches Some(p)
            && p.1.direction == ray_in.direction.unit_s() && p.0 == (Vec3 {
            x: SCALE,
            y: SCALE,
            z: SCALE,
        }),
{
    let n = rec.normal;
    let u = n.neg_s();
    assert(u.wf());
    crate::vec3::lemma_dot_raw_neg(n, n);
    assert(u.neg_s() == n);
    crate::vec3::lemma_dot_raw_neg(u, n);
    assert(u.neg_s().dot_raw_s(n) == n.dot_raw_s(n));
    vstd::arithmetic::div_mod::lemma_div_by_multiple(SCALE as int, SCALE as int);
    assert(tdiv((SCALE as int) * (SCALE as int), SCALE as int) == SCALE as int);
    assert(u.neg_s().dot_i(n) == SCALE);
    let cos: i64 = SCALE;
    assert(cos_theta_s(u, n) == cos);
    crate::fixed::lemma_fx_mul_one(SCALE);
    assert(fx_mul_i(cos, cos) == SCALE);
    assert(fx_sub_i(SCALE, fx_mul_i(cos, cos)) == 0);
    assert(is_sqrt_floor(0, 0)) by {
        assert(0 * 0 <= 0);
        assert(0 < (0 + 1) * (0 + 1)) by (nonlinear_arith);
    }
    crate::fixed::lemma_sqrt_floor_is(0, 0);
    assert(fx_sqrt_i(0) == 0) by {
        assert((0int) * (SCALE as int) == 0) by (nonlinear_arith);
    }
    let ratio = fx_div_i(SCALE, ir);
    assert(fx_mul_i(ratio, 0) == 0) by {
        assert(tdiv((ratio as int) * 0, SCALE as int) == 0) by {
            assert((ratio as int) * 0 == 0) by (nonlinear_arith);
            vstd::arithmetic::div_mod::lemma_div_of0(SCALE as int);
        }
    }
    // the refraction branch is taken
    let scn = n.scale_s(cos);
    crate::fixed::lemma_fx_mul_one(n.x);
    crate::fixed::lemma_fx_mul_one(n.y);
    crate::fixed::lemma_fx_mul_one(n.z);
    assert(scn == n);
    assert(u.add_s(scn) == (Vec3 { x: 0i64, y: 0i64, z: 0i64 }));
    let perp = u.add_s(scn).scale_s(ratio);
    assert(perp == (Vec3 { x: 0i64, y: 0i64, z: 0i64 })) by {
        assert(tdiv(0 * (ratio as int), SCALE as int) == 0) by {
            assert(0 * (ratio as int) == 0) by (nonlinear_arith);
            vstd::arithmetic::div_mod::lemma_div_of0(SCALE as int);
        }
    }
    assert(perp.len2_raw_s() == 0);
    assert(perp.len2_i() == 0) by {
        vstd::arithmetic::div_mod::lemma_div_of0(SCALE as int);
    }
    assert(fx_sub_i(SCALE, perp.len2_i()) == SCALE);
    assert((SCALE as int) * (SCALE as int) < (SCALE as int + 1) * (SCALE as int + 1))
        by (nonlinear_arith);
    crate::fixed::lemma_sqrt_floor_is((SCALE as int) * (SCALE as int), SCALE as int);
    assert(fx_sqrt_i(SCALE) == SCALE);
    crate::fixed::lemma_fx_mul_neg_one(n.x);
    crate::fixed::lemma_fx_mul_neg_one(n.y);
    crate::fixed::lemma_fx_mul_neg_one(n.z);
    let par = n.scale_s((-(fx_sqrt_i(SCALE) as int)) as i64);
    assert(par == u);
    assert(refract_s(u, n, ratio, cos) == perp.add_s(par));
    assert(perp.add_s(par) == u);
}

} // verus!
