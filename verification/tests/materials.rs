use raytrace::fixed::{fx_div, FX_MAX, SCALE};
use raytrace::hittable::HitRecord;
use raytrace::material::{schlick, Material};
use raytrace::ray3::Ray3;
use raytrace::sphere::Sphere;
use raytrace::vec3::Vec3;

fn record_at(point: Vec3, normal: Vec3, front: bool, material: Material) -> HitRecord {
    HitRecord { t: SCALE, point, normal, is_front_face: front, material }
}

#[test]
fn lambertian_attenuation_is_albedo() {
    let albedo = Vec3::new(32768, 16384, 8192);
    let m = Material::Lambertian { albedo };
    let rec = record_at(Vec3::new(0, 0, -SCALE), Vec3::new(0, 0, -SCALE), true, m);
    let ray = Ray3::new(Vec3::new(0, 0, -3 * SCALE), Vec3::new(0, 0, SCALE), 7);
    // whatever bounce was drawn, the attenuation is exactly the albedo
    let (att, scattered) = m.scatter(&ray, &rec, Vec3::new(1000, -2000, 3000), 0).unwrap();
    assert_eq!(att, albedo);
    assert_eq!(scattered.origin, rec.point);
    assert_eq!(scattered.time, 7);
    assert_eq!(scattered.direction, Vec3::new(1000, -2000, -SCALE + 3000));
}

#[test]
fn lambertian_degenerate_direction_falls_back_to_normal() {
    let albedo = Vec3::new(32768, 32768, 32768);
    let m = Material::Lambertian { albedo };
    let n = Vec3::new(0, 0, SCALE);
    let rec = record_at(Vec3::new(0, 0, SCALE), n, true, m);
    let ray = Ray3::new(Vec3::new(0, 0, 3 * SCALE), Vec3::new(0, 0, -SCALE), 0);
    // a sample that exactly cancels the normal would give a useless ray
    let (_, scattered) = m.scatter(&ray, &rec, Vec3::new(0, 0, -SCALE), 0).unwrap();
    assert_eq!(scattered.direction, n);
}

#[test]
fn metal_reflects_about_the_normal() {
    let albedo = Vec3::new(SCALE, SCALE, SCALE);
    let m = Material::Metal { albedo, fuzz: 0 };
    let n = Vec3::new(0, 0, SCALE);
    let rec = record_at(Vec3::new(0, 0, 0), n, true, m);
    // incoming at 45 degrees in the x/z plane
    let ray = Ray3::new(Vec3::new(-SCALE, 0, SCALE), Vec3::new(SCALE, 0, -SCALE), 0);
    let (att, scattered) = m.scatter(&ray, &rec, Vec3::new(0, 0, 0), 0).unwrap();
    assert_eq!(att, albedo);
    // unit(1,0,-1) reflects to the same x, flipped z
    let u = ray.direction.unit();
    let refl = u.reflect(n);
    assert_eq!(scattered.direction, refl);
    assert_eq!(refl.x, u.x);
    assert_eq!(refl.z, -u.z);
}

#[test]
fn metal_self_occlusion_absorbs() {
    let m = Material::Metal { albedo: Vec3::new(SCALE, SCALE, SCALE), fuzz: 0 };
    let n = Vec3::new(0, 0, SCALE);
    let rec = record_at(Vec3::new(0, 0, 0), n, true, m);
    // the reflection of a ray arriving along the normal points into the
    // surface: reflect((0,0,1), (0,0,1)) == (0,0,-1)
    let ray = Ray3::new(Vec3::new(0, 0, -SCALE), Vec3::new(0, 0, SCALE), 0);
    assert!(m.scatter(&ray, &rec, Vec3::new(0, 0, 0), 0).is_none());
}

#[test]
fn dielectric_normal_incidence_refracts_straight() {
    let ir = 98304;  // 1.5
    let m = Material::Dielectric { ir };
    let sphere = Sphere::new(Vec3::new(0, 0, 0), Vec3::new(0, 0, 0), SCALE, m);
    let ray = Ray3::new(Vec3::new(0, 0, -3 * SCALE), Vec3::new(0, 0, SCALE), 0);
    let rec = sphere.hit(&ray, 66, FX_MAX).unwrap();
    assert!(rec.is_front_face);
    assert_eq!(rec.normal, Vec3::new(0, 0, -SCALE));
    // force the draw at the reflectance threshold, so Schlick refracts
    let ratio = fx_div(SCALE, ir);
    let threshold = schlick(SCALE, ratio);
    let (att, scattered) = m.scatter(&ray, &rec, Vec3::new(0, 0, 0), threshold).unwrap();
    // full intensity, and the ray continues with no angular deviation
    assert_eq!(att, Vec3::new(SCALE, SCALE, SCALE));
    assert_eq!(scattered.direction, ray.direction.unit());
    assert_eq!(scattered.direction, Vec3::new(0, 0, SCALE));
}

#[test]
fn dielectric_total_internal_reflection() {
    let ir = 98304;  // 1.5
    let m = Material::Dielectric { ir };
    // leaving the glass (back face) at a grazing angle: ratio * sin > 1
    let n = Vec3::new(0, 0, SCALE);
    let rec = record_at(Vec3::new(0, 0, 0), n, false, m);
    let ray = Ray3::new(Vec3::new(-4 * SCALE, 0, SCALE), Vec3::new(4 * SCALE, 0, -SCALE), 0);
    // the draw is as large as possible, so only total internal reflection
    // can force a mirror bounce
    let (_, scattered) = m.scatter(&ray, &rec, Vec3::new(0, 0, 0), SCALE - 1).unwrap();
    let u = ray.direction.unit();
    assert_eq!(scattered.direction, u.reflect(n));
}
