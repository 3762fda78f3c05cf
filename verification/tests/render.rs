use raytrace::camera::{background, ray_color, Camera};
use raytrace::fixed::{fx_add, fx_div, fx_mul, fx_sqrt, fx_sub, FX_MAX, SCALE};
use raytrace::hittable_list::HittableList;
use raytrace::material::Material;
use raytrace::ppm::write_ppm;
use raytrace::ray3::Ray3;
use raytrace::rng::Rng64;
use raytrace::sphere::Sphere;
use raytrace::vec3::Vec3;

#[test]
fn fixed_arithmetic_exact_values() {
    assert_eq!(fx_add(SCALE, SCALE), 2 * SCALE);
    assert_eq!(fx_sub(SCALE, 3 * SCALE), -2 * SCALE);
    // 1.5 * 2.5 == 3.75
    assert_eq!(fx_mul(98304, 163840), 245760);
    // 1 / 2 == 0.5
    assert_eq!(fx_div(SCALE, 2 * SCALE), 32768);
    // sqrt(4) == 2, sqrt(2) == 92681/65536
    assert_eq!(fx_sqrt(4 * SCALE), 2 * SCALE);
    assert_eq!(fx_sqrt(2 * SCALE), 92681);
    // rounding is toward zero, saturation at the representable bound
    assert_eq!(fx_div(-SCALE, 3 * SCALE), -21845);
    assert_eq!(fx_mul(FX_MAX, FX_MAX), FX_MAX);
}

#[test]
fn rng_is_deterministic_and_in_range() {
    let mut a = Rng64::new(42);
    let mut b = Rng64::new(42);
    for _ in 0..32 {
        let x = a.next_unit();
        let y = b.next_unit();
        assert_eq!(x, y);
        assert!(0 <= x && x < SCALE);
    }
    let mut c = Rng64::new(7);
    for _ in 0..32 {
        let v = c.next_range(-SCALE, SCALE);
        assert!(-SCALE <= v && v < SCALE);
        let p = c.in_unit_sphere();
        let l2 = (p.x as i128) * (p.x as i128) + (p.y as i128) * (p.y as i128) + (p.z as i128)
            * (p.z as i128);
        assert!(l2 < (SCALE as i128) * (SCALE as i128));
        let d = c.in_unit_disk();
        assert_eq!(d.z, 0);
    }
}

#[test]
fn ray_color_depth_zero_is_black() {
    let mut world = HittableList::new();
    world.add(Sphere::new(
        Vec3::new(0, 0, 0),
        Vec3::new(0, 0, 0),
        SCALE,
        Material::Lambertian { albedo: Vec3::new(32768, 32768, 32768) },
    ));
    let ray = Ray3::new(Vec3::new(0, 0, -3 * SCALE), Vec3::new(0, 0, SCALE), 0);
    let mut rng = Rng64::new(1);
    assert_eq!(ray_color(&ray, &world, 0, &mut rng), Vec3::new(0, 0, 0));
}

#[test]
fn ray_color_miss_sees_background() {
    let world = HittableList::new();
    let ray = Ray3::new(Vec3::new(0, 0, 0), Vec3::new(0, SCALE, 0), 0);
    let mut rng = Rng64::new(1);
    let c = ray_color(&ray, &world, 8, &mut rng);
    assert_eq!(c, background(&ray));
    // straight up: the gradient parameter is 1, giving the pure sky color
    assert_eq!(c, Vec3::new(32768, 45875, SCALE));
}

#[test]
fn single_bounce_halves_the_background() {
    // One Lambertian sphere of albedo one half; the camera ray strikes it
    // dead center, the bounce leaves the sphere and misses everything, so
    // the pixel is exactly one half of the sky color seen by the bounce.
    let albedo = Vec3::new(32768, 32768, 32768);
    let mut world = HittableList::new();
    world.add(Sphere::new(
        Vec3::new(0, 0, 0),
        Vec3::new(0, 0, 0),
        SCALE,
        Material::Lambertian { albedo },
    ));
    let ray = Ray3::new(Vec3::new(0, 0, -3 * SCALE), Vec3::new(0, 0, SCALE), 0);

    let seed = 2024;
    let mut rng = Rng64::new(seed);
    let got = ray_color(&ray, &world, 2, &mut rng);

    // replay the same draws to predict the bounce exactly
    let mut replay = Rng64::new(seed);
    let rand_unit = replay.in_unit_sphere();
    let _draw = replay.next_unit();
    let normal = Vec3::new(0, 0, -SCALE);
    let mut dir = normal.add(rand_unit);
    if dir.near_zero() {
        dir = normal;
    }
    let bounce = Ray3::new(Vec3::new(0, 0, -SCALE), dir, 0);
    let expected = albedo.mul(background(&bounce));
    assert_eq!(got, expected);

    // with only one bounce allowed, the bounce itself hits the depth
    // cutoff and the pixel is black
    let mut rng1 = Rng64::new(seed);
    assert_eq!(ray_color(&ray, &world, 1, &mut rng1), Vec3::new(0, 0, 0));

    // the gamma-encoded channel is the square root of the linear channel
    let bytes = raytrace::camera::color_to_bytes(expected, 1);
    let gx = fx_sqrt(expected.x);
    let clamped = if gx > 65479 { 65479 } else { gx };
    assert_eq!(bytes.0, (clamped / 256) as u8);
}

#[test]
fn ppm_two_pixel_image_is_bit_exact() {
    let px = vec![(255u8, 0u8, 10u8), (1u8, 2u8, 3u8)];
    let out = write_ppm(2, 1, &px);
    let text = String::from_utf8(out).unwrap();
    assert_eq!(text, "P3\n2 1\n255\n255 0 10\n1 2 3\n");
}

#[test]
fn camera_derives_image_height_from_aspect() {
    // aspect 2:1 with width 200 gives height 100
    let cam = Camera::new(
        2 * SCALE,
        11559,  // tan of 10 degrees
        Vec3::new(12 * SCALE, 2 * SCALE, 3 * SCALE),
        Vec3::new(0, 0, 0),
        Vec3::new(0, SCALE, 0),
        39322,  // aperture 0.6
        10 * SCALE,
        200,
        0,
        SCALE,
    );
    assert_eq!(cam.image_width, 200);
    assert_eq!(cam.image_height, 100);
    assert_eq!(cam.origin, Vec3::new(12 * SCALE, 2 * SCALE, 3 * SCALE));
    assert_eq!(cam.lens_radius, fx_mul(39322, 32768));
    assert!(cam.time0 <= cam.time1);
}

#[test]
fn camera_ray_time_stays_in_shutter_window() {
    let cam = Camera::new(
        2 * SCALE,
        11559,
        Vec3::new(0, 0, 3 * SCALE),
        Vec3::new(0, 0, 0),
        Vec3::new(0, SCALE, 0),
        0,
        3 * SCALE,
        64,
        0,
        SCALE,
    );
    let mut rng = Rng64::new(5);
    for _ in 0..16 {
        let r = cam.get_ray(32768, 32768, &mut rng);
        assert!(cam.time0 <= r.time && r.time <= cam.time1);
    }
}

#[test]
fn render_emits_well_formed_ppm() {
    let mut world = HittableList::new();
    world.add(Sphere::new(
        Vec3::new(0, 0, 0),
        Vec3::new(0, 0, 0),
        SCALE,
        Material::Lambertian { albedo: Vec3::new(32768, 32768, 32768) },
    ));
    let cam = Camera::new(
        SCALE,
        11559,
        Vec3::new(0, 0, 3 * SCALE),
        Vec3::new(0, 0, 0),
        Vec3::new(0, SCALE, 0),
        0,
        3 * SCALE,
        4,
        0,
        0,
    );
    assert_eq!(cam.image_height, 4);
    let mut rng = Rng64::new(9);
    let out = cam.render(&world, 2, 4, &mut rng);
    let text = String::from_utf8(out).unwrap();
    assert!(text.starts_with("P3\n4 4\n255\n"));
    // one line per pixel after the three header lines
    assert_eq!(text.lines().count(), 3 + 16);
    for line in text.lines().skip(3) {
        let parts: Vec<&str> = line.split(' ').collect();
        assert_eq!(parts.len(), 3);
        for p in parts {
            let v: u32 = p.parse().unwrap();
            assert!(v <= 255);
        }
    }
}
