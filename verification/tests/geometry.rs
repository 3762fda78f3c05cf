use raytrace::fixed::{FX_MAX, SCALE};
use raytrace::hittable_list::HittableList;
use raytrace::material::Material;
use raytrace::ray3::Ray3;
use raytrace::sphere::Sphere;
use raytrace::vec3::Vec3;

fn unit_sphere_at(z: i64, radius: i64) -> Sphere {
    Sphere::new(
        Vec3::new(0, 0, z),
        Vec3::new(0, 0, z),
        radius,
        Material::Lambertian { albedo: Vec3::new(32768, 32768, 32768) },
    )
}

fn axis_ray() -> Ray3 {
    Ray3::new(Vec3::new(0, 0, -3 * SCALE), Vec3::new(0, 0, SCALE), 0)
}

#[test]
fn sphere_hit_dead_center() {
    let s = unit_sphere_at(0, SCALE);
    let r = axis_ray();
    let h = s.hit(&r, 66, FX_MAX).expect("the ray points straight at the sphere");
    // the nearer root: t = 2.0 exactly
    assert_eq!(h.t, 2 * SCALE);
    assert_eq!(h.point, Vec3::new(0, 0, -SCALE));
    assert_eq!(h.normal, Vec3::new(0, 0, -SCALE));
    assert!(h.is_front_face);
}

#[test]
fn hit_point_lies_on_sphere() {
    // |ray.at(t) - center| == |radius| at the reported parameter
    let s = unit_sphere_at(0, SCALE);
    let r = axis_ray();
    let h = s.hit(&r, 66, FX_MAX).unwrap();
    let rel = r.at(h.t).sub(s.center(r.time));
    assert_eq!(rel.length(), SCALE);
}

#[test]
fn sphere_miss_returns_none() {
    let s = unit_sphere_at(0, SCALE);
    let sideways = Ray3::new(Vec3::new(0, 3 * SCALE, -3 * SCALE), Vec3::new(0, 0, SCALE), 0);
    assert!(s.hit(&sideways, 66, FX_MAX).is_none());
}

#[test]
fn window_excludes_hit() {
    let s = unit_sphere_at(0, SCALE);
    let r = axis_ray();
    // both roots (t = 2 and t = 4) lie beyond the window
    assert!(s.hit(&r, 66, SCALE).is_none());
}

#[test]
fn normal_opposes_ray_from_inside() {
    let s = unit_sphere_at(0, SCALE);
    let inside = Ray3::new(Vec3::new(0, 0, 0), Vec3::new(0, 0, SCALE), 0);
    let h = s.hit(&inside, 66, FX_MAX).unwrap();
    assert_eq!(h.t, SCALE);
    assert!(!h.is_front_face);
    // outward-facing convention holds on the back face too
    assert_eq!(h.normal, Vec3::new(0, 0, -SCALE));
    assert!(h.normal.dot(inside.direction) <= 0);
}

#[test]
fn negative_radius_flips_outward_normal() {
    let pos = unit_sphere_at(0, SCALE);
    let neg = unit_sphere_at(0, -SCALE);
    let r = axis_ray();
    let hp = pos.hit(&r, 66, FX_MAX).unwrap();
    let hn = neg.hit(&r, 66, FX_MAX).unwrap();
    // same root, same point
    assert_eq!(hn.t, hp.t);
    assert_eq!(hn.point, hp.point);
    // geometric outward normals are exact negations of each other
    let out_pos = hp.point.sub(pos.center(r.time)).div(pos.radius);
    let out_neg = hn.point.sub(neg.center(r.time)).div(neg.radius);
    assert_eq!(out_neg, out_pos.neg());
    // the stored (ray-opposing) normals agree, the face flags differ
    assert_eq!(hn.normal, hp.normal);
    assert_eq!(hn.is_front_face, !hp.is_front_face);
}

#[test]
fn moving_sphere_center_interpolates() {
    let s = Sphere::new(
        Vec3::new(0, 0, 0),
        Vec3::new(2 * SCALE, 0, 0),
        SCALE,
        Material::Lambertian { albedo: Vec3::new(32768, 32768, 32768) },
    );
    assert_eq!(s.center(0), Vec3::new(0, 0, 0));
    assert_eq!(s.center(SCALE), Vec3::new(2 * SCALE, 0, 0));
    assert_eq!(s.center(32768), Vec3::new(SCALE, 0, 0));
}

#[test]
fn closest_hit_wins_regardless_of_order() {
    let near = unit_sphere_at(0, SCALE);
    let far = unit_sphere_at(4 * SCALE, SCALE);
    let r = axis_ray();
    let mut a = HittableList::new();
    a.add(near);
    a.add(far);
    let mut b = HittableList::new();
    b.add(far);
    b.add(near);
    let ha = a.hit(&r, 66, FX_MAX).unwrap();
    let hb = b.hit(&r, 66, FX_MAX).unwrap();
    assert_eq!(ha.t, 2 * SCALE);
    assert_eq!(hb.t, 2 * SCALE);
    assert_eq!(ha.point, hb.point);
}

#[test]
fn empty_scene_misses() {
    let world = HittableList::new();
    assert!(world.hit(&axis_ray(), 66, FX_MAX).is_none());
}

#[test]
fn ray_at_walks_the_line() {
    let r = Ray3::new(Vec3::new(SCALE, 0, 0), Vec3::new(0, 2 * SCALE, 0), 0);
    assert_eq!(r.at(0), Vec3::new(SCALE, 0, 0));
    assert_eq!(r.at(SCALE), Vec3::new(SCALE, 2 * SCALE, 0));
    assert_eq!(r.at(-SCALE), Vec3::new(SCALE, -2 * SCALE, 0));
}
