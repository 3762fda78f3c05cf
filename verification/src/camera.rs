//! The camera: view and lens geometry, per-pixel ray generation with lens
//! and time jitter, the recursive color integrator, and the render loop
//! that averages samples, gamma-corrects and emits PPM text.

use vstd::prelude::*;

use crate::fixed::{
    fx_add, fx_add_i, fx_div, fx_div_i, fx_mul, fx_mul_i, fx_ok, fx_sqrt, fx_sub, fx_sub_i,
    lemma_channel_mul, lemma_half_mul, sqrt_floor, FX_MAX, SCALE,
};
use crate::hittable::HitRecord;
use crate::hittable_list::HittableList;
use crate::material::color_ok;
use crate::ppm::{ppm_bytes_s, write_ppm};
use crate::ray3::Ray3;
use crate::rng::Rng64;
use crate::vec3::{lemma_unit_comp_bound, Vec3};

verus! {

/// Lower end of every hit window: keeps bounces from re-hitting their own
/// surface ("shadow acne"), about 0.001 in fixed point.
pub const T_EPS: i64 = 66;

/// The sky gradient a missed ray sees, blended by the vertical component
/// of the unit direction; a degenerate direction sees black.
pub open spec fn background_s(ray: Ray3) -> Vec3 {
    if ray.direction.len2_raw_s() < 1 {
        (Vec3 { x: 0i64, y: 0i64, z: 0i64 })
    } else {
        let u = ray.direction.unit_s();
        let tt = fx_mul_i(32768, fx_add_i(u.y, SCALE));
        (Vec3 { x: SCALE, y: SCALE, z: SCALE }).scale_s(fx_sub_i(SCALE, tt)).add_s(
            (Vec3 { x: 32768, y: 45875, z: SCALE }).scale_s(tt),
        )
    }
}

/// The sky gradient for a missed ray.
pub fn background(ray: &Ray3) -> (c: Vec3)
    requires
        ray.wf(),
    ensures
        c == background_s(*ray),
        c.wf(),
        color_ok(c),
{
    let l2: i128 = ray.direction.len2_raw();
    if l2 < 1 {
        return Vec3::zero();
    }
    let u: Vec3 = ray.direction.unit();
    proof {
        lemma_unit_comp_bound(ray.direction);
    }
    let base: i64 = fx_add(u.y, SCALE);
    let tt: i64 = fx_mul(32768, base);
    proof {
        lemma_half_mul(base);
    }
    let white: Vec3 = Vec3::new(SCALE, SCALE, SCALE);
    let blue: Vec3 = Vec3::new(32768, 45875, SCALE);
    let s1: i64 = fx_sub(SCALE, tt);
    let a: Vec3 = white.scale(s1);
    let b: Vec3 = blue.scale(tt);
    proof {
        lemma_channel_mul(SCALE, s1);
        lemma_channel_mul(32768, tt);
        lemma_channel_mul(45875, tt);
        lemma_channel_mul(SCALE, tt);
    }
    a.add(b)
}

/// `c` is an admissible color for `ray` with `depth` bounces left: black
/// once the budget is spent, the exact sky gradient on a miss, and on a
/// hit the outcome of some admissible pair of random draws: black where
/// the material absorbed the ray, and the attenuation times an admissible
/// color of the scattered ray at the remaining depth where it scattered.
pub open spec fn color_outcome_s(world: HittableList, ray: Ray3, depth: u32, c: Vec3) -> bool
    decreases depth,
{
    if depth == 0 {
        c == (Vec3 { x: 0i64, y: 0i64, z: 0i64 })
    } else {
        match world.hit_list_s(ray, T_EPS, FX_MAX) {
            None => c == background_s(ray),
            Some(rec) => exists|ru: Vec3, draw: i64, rest: Vec3|
                #![trigger rec.material.scatter_s(ray, rec, ru, draw), color_ok(rest)]
                ru.wf() && ru.len2_raw_s() < (SCALE as int) * (SCALE as int) && 0 <= draw < SCALE
                    && color_ok(rest) && (match rec.material.scatter_s(ray, rec, ru, draw) {
                    None => c == (Vec3 { x: 0i64, y: 0i64, z: 0i64 }),
                    Some(p) => color_outcome_s(world, p.1, (depth - 1) as u32, rest) && c
                        == p.0.mul_s(rest),
                }),
        }
    }
}

/// Recursive light transport: black once the bounce budget is spent, the
/// attenuated recursion on a scattered hit, black on absorption, and the
/// sky gradient on a miss.
#[verifier::rlimit(100)]
pub fn ray_color(ray: &Ray3, world: &HittableList, depth: u32, rng: &mut Rng64) -> (c: Vec3)
    requires
        ray.wf(),
        world.wf(),
    ensures
        c.wf(),
        color_ok(c),
        depth == 0 ==> c == (Vec3 { x: 0i64, y: 0i64, z: 0i64 }),
        depth > 0 && world.hit_list_s(*ray, T_EPS, FX_MAX) is None ==> c == background_s(*ray),
        color_outcome_s(*world, *ray, depth, c),
    decreases depth,
{
    if depth == 0 {
        let z: Vec3 = Vec3::zero();
        proof {
            lemma_outcome_spent(*world, *ray, z);
        }
        return z;
    }
    let hit = world.hit(ray, T_EPS, FX_MAX);
    match hit {
        Some(rec) => {
            let rand_unit: Vec3 = rng.in_unit_sphere();
            let rand_draw: i64 = rng.next_unit();
            let scattered = rec.material.scatter(ray, &rec, rand_unit, rand_draw);
            match scattered {
                Some((attenuation, bounce)) => {
                    let rest: Vec3 = ray_color(&bounce, world, depth - 1, rng);
                    proof {
                        lemma_channel_mul(attenuation.x, rest.x);
                        lemma_channel_mul(attenuation.y, rest.y);
                        lemma_channel_mul(attenuation.z, rest.z);
                    }
                    let result: Vec3 = attenuation.mul(rest);
                    proof {
                        assert(color_ok(rest) && result == attenuation.mul_s(rest));
                        lemma_outcome_scattered(
                            *world,
                            *ray,
                            depth,
                            rec,
                            rand_unit,
                            rand_draw,
                            rest,
                            result,
                        );
                    }
                    result
                },
                None => {
                    let result: Vec3 = Vec3::zero();
                    proof {
                        lemma_outcome_absorbed(*world, *ray, depth, rec, rand_unit, rand_draw);
                    }
                    result
                },
            }
        },
        None => {
            let bg: Vec3 = background(ray);
            proof {
                lemma_outcome_miss(*world, *ray, depth, bg);
            }
            bg
        },
    }
}

/// A spent bounce budget admits only black.
proof fn lemma_outcome_spent(world: HittableList, ray: Ray3, c: Vec3)
    requires
        c == (Vec3 { x: 0i64, y: 0i64, z: 0i64 }),
    ensures
        color_outcome_s(world, ray, 0, c),
{
}

/// A miss admits only the sky gradient.
proof fn lemma_outcome_miss(world: HittableList, ray: Ray3, depth: u32, c: Vec3)
    requires
        depth > 0,
        world.hit_list_s(ray, T_EPS, FX_MAX) is None,
        c == background_s(ray),
    ensures
        color_outcome_s(world, ray, depth, c),
{
}

/// A hit whose scatter succeeded admits the attenuated admissible color
/// of the bounce.
proof fn lemma_outcome_scattered(
    world: HittableList,
    ray: Ray3,
    depth: u32,
    rec: HitRecord,
    ru: Vec3,
    draw: i64,
    rest: Vec3,
    c: Vec3,
)
    requires
        depth > 0,
        world.hit_list_s(ray, T_EPS, FX_MAX) == Some(rec),
        ru.wf(),
        ru.len2_raw_s() < (SCALE as int) * (SCALE as int),
        0 <= draw < SCALE,
        rec.material.scatter_s(ray, rec, ru, draw) is Some,
        color_ok(rest),
        color_outcome_s(
            world,
            rec.material.scatter_s(ray, rec, ru, draw)->Some_0.1,
            (depth - 1) as u32,
            rest,
        ),
        c == rec.material.scatter_s(ray, rec, ru, draw)->Some_0.0.mul_s(rest),
    ensures
        color_outcome_s(world, ray, depth, c),
{
    let p = rec.material.scatter_s(ray, rec, ru, draw)->Some_0;
    let rec0 = world.hit_list_s(ray, T_EPS, FX_MAX)->Some_0;
    assert(rec0 == rec);
    assert(color_ok(rest) && color_outcome_s(world, p.1, (depth - 1) as u32, rest) && c == p.0.mul_s(
        rest,
    ));
    assert(color_outcome_s(world, ray, depth, c));
}

/// A hit whose scatter absorbed the ray admits only black.
proof fn lemma_outcome_absorbed(
    world: HittableList,
    ray: Ray3,
    depth: u32,
    rec: HitRecord,
    ru: Vec3,
    draw: i64,
)
    requires
        depth > 0,
        world.hit_list_s(ray, T_EPS, FX_MAX) == Some(rec),
        ru.wf(),
        ru.len2_raw_s() < (SCALE as int) * (SCALE as int),
        0 <= draw < SCALE,
        rec.material.scatter_s(ray, rec, ru, draw) is None,
    ensures
        color_outcome_s(world, ray, depth, (Vec3 { x: 0i64, y: 0i64, z: 0i64 })),
{
    let rec0 = world.hit_list_s(ray, T_EPS, FX_MAX)->Some_0;
    assert(rec0 == rec);
    assert(color_ok((Vec3 { x: 0i64, y: 0i64, z: 0i64 })));
    assert(color_outcome_s(world, ray, depth, (Vec3 { x: 0i64, y: 0i64, z: 0i64 })));
}

/// One gamma-corrected output channel: average the accumulated linear
/// samples, take the square root, clamp just below one, and scale to a
/// byte.
pub open spec fn channel_byte_s(sum: i64, samples: u32) -> u8
    recommends
        samples >= 1,
        sum >= 0,
{
    let avg = (sum as int) / (samples as int);
    let g = sqrt_floor(avg * (SCALE as int));
    let cl = if g > 65479 {
        65479int
    } else {
        g
    };
    (cl / 256) as u8
}

/// Quantize an accumulated pixel color.
pub fn color_to_bytes(col: Vec3, samples: u32) -> (r: (u8, u8, u8))
    requires
        1 <= samples <= 65536,
        0 <= col.x <= (samples as int) * (SCALE as int),
        0 <= col.y <= (samples as int) * (SCALE as int),
        0 <= col.z <= (samples as int) * (SCALE as int),
    ensures
        r.0 == channel_byte_s(col.x, samples),
        r.1 == channel_byte_s(col.y, samples),
        r.2 == channel_byte_s(col.z, samples),
{
    let a: u8 = channel_byte(col.x, samples);
    let b: u8 = channel_byte(col.y, samples);
    let c: u8 = channel_byte(col.z, samples);
    (a, b, c)
}

/// Quantize one channel.
fn channel_byte(sum: i64, samples: u32) -> (r: u8)
    requires
        1 <= samples <= 65536,
        0 <= sum <= (samples as int) * (SCALE as int),
    ensures
        r == channel_byte_s(sum, samples),
{
    proof {
        assert((samples as int) * (SCALE as int) <= 4294967296int) by (nonlinear_arith)
            requires
                1 <= samples as int <= 65536,
        ;
    }
    let avg: u64 = (sum as u64) / (samples as u64);
    proof {
        vstd::arithmetic::div_mod::lemma_div_pos_is_pos(sum as int, samples as int);
        vstd::arithmetic::div_mod::lemma_div_is_ordered(
            sum as int,
            4294967296int,
            samples as int,
        );
        vstd::arithmetic::div_mod::lemma_div_nonincreasing(4294967296int, samples as int);
    }
    let g: i64 = fx_sqrt(avg as i64);
    let cl: i64 = if g > 65479 {
        65479
    } else {
        g
    };
    proof {
        vstd::arithmetic::div_mod::lemma_div_pos_is_pos(cl as int, 256int);
        vstd::arithmetic::div_mod::lemma_div_is_ordered(cl as int, 65479int, 256int);
        vstd::arithmetic::div_mod::lemma_fundamental_div_mod_converse(65479int, 256int, 255int, 199int);
    }
    ((cl as u64) / 256) as u8
}

/// Output rows for a given width and aspect ratio, at least one.
pub open spec fn camera_height_s(width: int, aspect: int) -> int
    recommends
        aspect >= 1,
{
    let q = width * (SCALE as int) / aspect;
    if q < 1 {
        1
    } else {
        q
    }
}

/// The immutable render configuration: lens geometry, viewport frame,
/// shutter window and output size.
pub struct Camera {
    pub origin: Vec3,
    pub lower_left: Vec3,
    pub horizontal: Vec3,
    pub vertical: Vec3,
    pub u: Vec3,
    pub v: Vec3,
    pub w: Vec3,
    pub lens_radius: i64,
    pub time0: i64,
    pub time1: i64,
    pub image_width: u32,
    pub image_height: u32,
}

impl Camera {
    /// Field ranges, a non-empty shutter order and a bounded image size.
    pub open spec fn wf(self) -> bool {
        self.origin.wf() && self.lower_left.wf() && self.horizontal.wf() && self.vertical.wf()
            && self.u.wf() && self.v.wf() && self.w.wf() && fx_ok(self.lens_radius) && fx_ok(
            self.time0,
        ) && fx_ok(self.time1) && self.time0 <= self.time1 && 1 <= self.image_width <= 4096 && 1
            <= self.image_height <= 4096
    }

    /// Derive the view geometry from the configuration.  `tan_half_vfov`
    /// is the tangent of half the vertical field of view; the aspect ratio
    /// must be at least one (landscape output).
    pub fn new(
        aspect_ratio: i64,
        tan_half_vfov: i64,
        lookfrom: Vec3,
        lookat: Vec3,
        vup: Vec3,
        aperture: i64,
        focus_dist: i64,
        image_width: u32,
        time0: i64,
        time1: i64,
    ) -> (r: Camera)
        requires
            lookfrom.wf(),
            lookat.wf(),
            vup.wf(),
            SCALE <= aspect_ratio <= FX_MAX,
            1 <= tan_half_vfov <= FX_MAX,
            0 <= aperture <= FX_MAX,
            1 <= focus_dist <= FX_MAX,
            fx_ok(time0),
            fx_ok(time1),
            time0 <= time1,
            1 <= image_width <= 4096,
            lookfrom.sub_s(lookat).len2_raw_s() >= 1,
            vup.cross_s(lookfrom.sub_s(lookat).unit_s()).len2_raw_s() >= 1,
        ensures
            r.wf(),
            r.origin == lookfrom,
            r.time0 == time0,
            r.time1 == time1,
            r.image_width == image_width,
            r.w == lookfrom.sub_s(lookat).unit_s(),
            r.u == vup.cross_s(r.w).unit_s(),
            r.v == r.w.cross_s(r.u),
            r.lens_radius == fx_mul_i(aperture, 32768),
            r.image_height as int == camera_height_s(image_width as int, aspect_ratio as int),
            r.horizontal == r.u.scale_s(
                fx_mul_i(fx_mul_i(aspect_ratio, fx_add_i(tan_half_vfov, tan_half_vfov)),
                focus_dist),
            ),
            r.vertical == r.v.scale_s(
                fx_mul_i(fx_add_i(tan_half_vfov, tan_half_vfov), focus_dist),
            ),
            r.lower_left == lookfrom.sub_s(r.horizontal.scale_s(32768)).sub_s(
                r.vertical.scale_s(32768),
            ).sub_s(r.w.scale_s(focus_dist)),
    {
        let w: Vec3 = lookfrom.sub(lookat).unit();
        let u: Vec3 = vup.cross(w).unit();
        let v: Vec3 = w.cross(u);
        let viewport_height: i64 = fx_add(tan_half_vfov, tan_half_vfov);
        let viewport_width: i64 = fx_mul(aspect_ratio, viewport_height);
        let horizontal: Vec3 = u.scale(fx_mul(viewport_width, focus_dist));
        let vertical: Vec3 = v.scale(fx_mul(viewport_height, focus_dist));
        let lower_left: Vec3 = lookfrom.sub(horizontal.scale(32768)).sub(
            vertical.scale(32768),
        ).sub(w.scale(focus_dist));
        let lens_radius: i64 = fx_mul(aperture, 32768);
        let hq: u64 = ((image_width as u64) * 65536) / (aspect_ratio as u64);
        proof {
            vstd::arithmetic::div_mod::lemma_div_pos_is_pos(
                (image_width as int) * 65536,
                aspect_ratio as int,
            );
            vstd::arithmetic::div_mod::lemma_div_is_ordered_by_denominator(
                (image_width as int) * 65536,
                65536int,
                aspect_ratio as int,
            );
            vstd::arithmetic::div_mod::lemma_div_by_multiple(image_width as int, 65536int);
        }
        let image_height: u32 = if hq < 1 {
            1
        } else {
            hq as u32
        };
        Camera {
            origin: lookfrom,
            lower_left,
            horizontal,
            vertical,
            u,
            v,
            w,
            lens_radius,
            time0,
            time1,
            image_width,
            image_height,
        }
    }

    /// The ray cast for viewport coordinates `(s, t)` once the lens-disk
    /// sample `rd` and shutter time are fixed: it starts at the origin
    /// offset across the lens disk and heads for the jittered viewport
    /// point.
    pub open spec fn sampled_ray_s(self, s: i64, t: i64, rd: Vec3, time: i64, r: Ray3) -> bool {
        rd.wf() && rd.z == 0 && rd.len2_raw_s() < (SCALE as int) * (SCALE as int) && r.origin
            == self.origin.add_s(
            self.u.scale_s(fx_mul_i(self.lens_radius, rd.x)).add_s(
                self.v.scale_s(fx_mul_i(self.lens_radius, rd.y)),
            ),
        ) && r.direction == self.lower_left.add_s(self.horizontal.scale_s(s)).add_s(
            self.vertical.scale_s(t),
        ).sub_s(r.origin) && r.time == time && self.time0 <= time <= self.time1
    }

    /// Cast one sampled ray through viewport coordinates `(s, t)`, with
    /// lens-aperture jitter for depth of field and a shutter time drawn
    /// from the camera's time window.
    pub fn get_ray(&self, s: i64, t: i64, rng: &mut Rng64) -> (r: Ray3)
        requires
            self.wf(),
            fx_ok(s),
            fx_ok(t),
        ensures
            r.wf(),
            self.time0 <= r.time <= self.time1,
            exists|rd: Vec3, time: i64| #[trigger] self.sampled_ray_s(s, t, rd, time, r),
    {
        let rd: Vec3 = rng.in_unit_disk();
        let offset: Vec3 = self.u.scale(fx_mul(self.lens_radius, rd.x)).add(
            self.v.scale(fx_mul(self.lens_radius, rd.y)),
        );
        let orig: Vec3 = self.origin.add(offset);
        let dir: Vec3 = self.lower_left.add(self.horizontal.scale(s)).add(
            self.vertical.scale(t),
        ).sub(orig);
        let time: i64 = if self.time0 < self.time1 {
            rng.next_range(self.time0, self.time1)
        } else {
            self.time0
        };
        let r: Ray3 = Ray3::new(orig, dir, time);
        proof {
            assert(self.sampled_ray_s(s, t, rd, time, r));
        }
        r
    }

    /// The viewport abscissa for a column and its jitter draw:
    /// `(col + jitter) / width`.
    pub open spec fn viewport_u_s(self, col: u32, ju: i64) -> i64 {
        fx_div_i(
            fx_add_i(((col as int) * 65536) as i64, ju),
            ((self.image_width as int) * 65536) as i64,
        )
    }

    /// The viewport ordinate for a row and its jitter draw:
    /// `(row + jitter) / height`.
    pub open spec fn viewport_v_s(self, row: u32, jv: i64) -> i64 {
        fx_div_i(
            fx_add_i(((row as int) * 65536) as i64, jv),
            ((self.image_height as int) * 65536) as i64,
        )
    }

    /// One admissible sample for the pixel at `col`/`row`: jitters in
    /// `[0, 1)`, an admissible lens sample and shutter time, the ray they
    /// generate through the jittered viewport point, and an admissible
    /// color of that ray.
    pub open spec fn sample_trace_s(
        self,
        world: HittableList,
        col: u32,
        row: u32,
        depth: u32,
        ju: i64,
        jv: i64,
        rd: Vec3,
        time: i64,
        ray: Ray3,
        c: Vec3,
    ) -> bool {
        0 <= ju < SCALE && 0 <= jv < SCALE && self.sampled_ray_s(
            self.viewport_u_s(col, ju),
            self.viewport_v_s(row, jv),
            rd,
            time,
            ray,
        ) && color_outcome_s(world, ray, depth, c) && color_ok(c)
    }

    /// `c` is an admissible per-sample color for the pixel at `col`/`row`.
    pub open spec fn sample_outcome_s(
        self,
        world: HittableList,
        col: u32,
        row: u32,
        depth: u32,
        c: Vec3,
    ) -> bool {
        exists|ju: i64, jv: i64, rd: Vec3, time: i64, ray: Ray3|
            #[trigger] self.sample_trace_s(world, col, row, depth, ju, jv, rd, time, ray, c)
    }

    /// `c` is a sum of `k` admissible per-sample colors for the pixel at
    /// `col`/`row`.
    pub open spec fn accum_outcome_s(
        self,
        world: HittableList,
        col: u32,
        row: u32,
        depth: u32,
        k: nat,
        c: Vec3,
    ) -> bool
        decreases k,
    {
        if k == 0 {
            c == (Vec3 { x: 0i64, y: 0i64, z: 0i64 })
        } else {
            exists|prev: Vec3, one: Vec3|
                #![trigger prev.add_s(one)]
                self.accum_outcome_s(world, col, row, depth, (k - 1) as nat, prev)
                    && self.sample_outcome_s(world, col, row, depth, one) && c == prev.add_s(one)
        }
    }

    /// The pixel at `col`/`row` is the gamma-corrected average of some
    /// accumulated color made of `samples` admissible sample colors.
    pub open spec fn pixel_outcome_s(
        self,
        world: HittableList,
        col: u32,
        row: u32,
        samples: u32,
        depth: u32,
        p: (u8, u8, u8),
    ) -> bool {
        exists|c: Vec3|
            #![trigger channel_byte_s(c.x, samples)]
            self.accum_outcome_s(world, col, row, depth, samples as nat, c) && 0 <= c.x && 0 <= c.y
                && 0 <= c.z && p == (
            channel_byte_s(c.x, samples),
            channel_byte_s(c.y, samples),
            channel_byte_s(c.z, samples),
            )
    }

    /// Render every pixel: rows top to bottom, columns left to right, each
    /// pixel the quantized average of `samples` jittered rays.
    pub fn render_pixels(
        &self,
        world: &HittableList,
        samples: u32,
        max_depth: u32,
        rng: &mut Rng64,
    ) -> (px: Vec<(u8, u8, u8)>)
        requires
            self.wf(),
            world.wf(),
            1 <= samples <= 65536,
        ensures
            px@.len() == (self.image_height as int) * (self.image_width as int),
            forall|idx: int|
                0 <= idx < px@.len() ==> self.pixel_outcome_s(
                    *world,
                    (idx % (self.image_width as int)) as u32,
                    ((self.image_height as int) - 1 - idx / (self.image_width as int)) as u32,
                    samples,
                    max_depth,
                    #[trigger] px@[idx],
                ),
    {
        let w: u32 = self.image_width;
        let h: u32 = self.image_height;
        let mut px: Vec<(u8, u8, u8)> = Vec::new();
        let mut jj: u32 = 0;
        while jj < h
            invariant
                jj <= h,
                w == self.image_width,
                h == self.image_height,
                self.wf(),
                world.wf(),
                1 <= samples <= 65536,
                px@.len() == (jj as int) * (w as int),
                forall|idx: int|
                    0 <= idx < px@.len() ==> self.pixel_outcome_s(
                        *world,
                        (idx % (w as int)) as u32,
                        ((h as int) - 1 - idx / (w as int)) as u32,
                        samples,
                        max_depth,
                        #[trigger] px@[idx],
                    ),
            decreases h - jj,
        {
            let j: u32 = h - 1 - jj;
            let mut i: u32 = 0;
            while i < w
                invariant
                    i <= w,
                    jj < h,
                    w == self.image_width,
                    h == self.image_height,
                    self.wf(),
                    world.wf(),
                    1 <= samples <= 65536,
                    j == h - 1 - jj,
                    px@.len() == (jj as int) * (w as int) + i as int,
                    forall|idx: int|
                        0 <= idx < px@.len() ==> self.pixel_outcome_s(
                            *world,
                            (idx % (w as int)) as u32,
                            ((h as int) - 1 - idx / (w as int)) as u32,
                            samples,
                            max_depth,
                            #[trigger] px@[idx],
                        ),
                decreases w - i,
            {
                let mut col: Vec3 = Vec3::zero();
                let mut k: u32 = 0;
                while k < samples
                    invariant
                        k <= samples,
                        samples <= 65536,
                        i < w,
                        w == self.image_width,
                        h == self.image_height,
                        jj < h,
                        j == h - 1 - jj,
                        self.wf(),
                        world.wf(),
                        col.wf(),
                        0 <= col.x <= (k as int) * (SCALE as int),
                        0 <= col.y <= (k as int) * (SCALE as int),
                        0 <= col.z <= (k as int) * (SCALE as int),
                        self.accum_outcome_s(*world, i, j, max_depth, k as nat, col),
                    decreases samples - k,
                {
                    let ju: i64 = rng.next_unit();
                    let su: i64 = fx_div(fx_add((i as i64) * 65536, ju), (w as i64) * 65536);
                    let jv: i64 = rng.next_unit();
                    let tv: i64 = fx_div(fx_add((j as i64) * 65536, jv), (h as i64) * 65536);
                    let ray: Ray3 = self.get_ray(su, tv, rng);
                    let c: Vec3 = ray_color(&ray, world, max_depth, rng);
                    proof {
                        assert((k as int + 1) * (SCALE as int) == (k as int) * (SCALE as int)
                            + SCALE as int) by (nonlinear_arith);
                        let (rd, time) = choose|rd: Vec3, time: i64|
                            self.sampled_ray_s(su, tv, rd, time, ray);
                        assert(su == self.viewport_u_s(i, ju));
                        assert(tv == self.viewport_v_s(j, jv));
                        assert(self.sample_trace_s(
                            *world,
                            i,
                            j,
                            max_depth,
                            ju,
                            jv,
                            rd,
                            time,
                            ray,
                            c,
                        ));
                        assert(self.sample_outcome_s(*world, i, j, max_depth, c));
                    }
                    let next_col: Vec3 = col.add(c);
                    proof {
                        assert(next_col == col.add_s(c));
                        assert(self.accum_outcome_s(
                            *world,
                            i,
                            j,
                            max_depth,
                            (k + 1) as nat,
                            next_col,
                        ));
                    }
                    col = next_col;
                    k = k + 1;
                }
                let bytes: (u8, u8, u8) = color_to_bytes(col, samples);
                proof {
                    assert(self.pixel_outcome_s(*world, i, j, samples, max_depth, bytes));
                }
                let ghost opx: Seq<(u8, u8, u8)> = px@;
                px.push(bytes);
                proof {
                    assert forall|idx: int| 0 <= idx < px@.len() implies self.pixel_outcome_s(
                        *world,
                        (idx % (w as int)) as u32,
                        ((h as int) - 1 - idx / (w as int)) as u32,
                        samples,
                        max_depth,
                        #[trigger] px@[idx],
                    ) by {
                        if idx < opx.len() {
                            assert(px@[idx] == opx[idx]);
                        } else {
                            assert(idx == (jj as int) * (w as int) + (i as int));
                            vstd::arithmetic::div_mod::lemma_fundamental_div_mod_converse(
                                idx,
                                w as int,
                                jj as int,
                                i as int,
                            );
                            assert(px@[idx] == bytes);
                        }
                    }
                }
                i = i + 1;
            }
            proof {
                assert((jj as int + 1) * (w as int) == (jj as int) * (w as int) + w as int)
                    by (nonlinear_arith);
            }
            jj = jj + 1;
        }
        px
    }

    /// Render the scene and emit the complete PPM text.
    pub fn render(&self, world: &HittableList, samples: u32, max_depth: u32, rng: &mut Rng64) -> (
        out: Vec<u8>)
        requires
            self.wf(),
            world.wf(),
            1 <= samples <= 65536,
        ensures
            exists|px: Seq<(u8, u8, u8)>|
                #![trigger ppm_bytes_s(self.image_width as int, self.image_height as int, px)]
                px.len() == (self.image_height as int) * (self.image_width as int) && (forall|
                    idx: int,
                |
                    0 <= idx < px.len() ==> self.pixel_outcome_s(
                        *world,
                        (idx % (self.image_width as int)) as u32,
                        ((self.image_height as int) - 1 - idx / (self.image_width as int)) as u32,
                        samples,
                        max_depth,
                        #[trigger] px[idx],
                    )) && out@ == ppm_bytes_s(
                    self.image_width as int,
                    self.image_height as int,
                    px,
                ),
    {
        let px: Vec<(u8, u8, u8)> = self.render_pixels(world, samples, max_depth, rng);
        let out: Vec<u8> = write_ppm(self.image_width, self.image_height, &px);
        proof {
            assert(px@.len() == (self.image_height as int) * (self.image_width as int) && out@
                == ppm_bytes_s(self.image_width as int, self.image_height as int, px@));
        }
        out
    }
}

} // verus!
