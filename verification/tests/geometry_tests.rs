use raytracer::vec3::Vec3q;
use raytracer::ray::{Ray, HitData};
use raytracer::primitive::{Sphere, Plane};
use raytracer::scene::{Primitive, Scene};
use raytracer::material::Material;
use raytracer::color::Color;

const ONE: i64 = 65536;

fn matte(r: i64, g: i64, b: i64) -> Material {
    Material { color: Color { r, g, b }, shininess: 0, emission: 0 }
}

#[test]
fn vector_arithmetic_is_exact() {
    let a = Vec3q::new(ONE, 2 * ONE, -ONE);
    let b = Vec3q::new(3 * ONE, -ONE, ONE / 2);
    assert_eq!(a.add(b), Vec3q { x: 4 * ONE, y: ONE, z: -ONE / 2 });
    assert_eq!(a.sub(b), Vec3q { x: -2 * ONE, y: 3 * ONE, z: -3 * ONE / 2 });
    assert_eq!(a.neg(), Vec3q { x: -ONE, y: -2 * ONE, z: ONE });
    // 1*3 + 2*(-1) + (-1)*(1/2) = 1/2, in the raw Q32 scale of dot.
    assert_eq!(a.dot(b), ONE * ONE / 2);
    assert_eq!(a.scale(ONE / 2), Vec3q { x: ONE / 2, y: ONE, z: -ONE / 2 });
}

#[test]
fn cross_product_of_axes() {
    let x = Vec3q::new(ONE, 0, 0);
    let y = Vec3q::new(0, ONE, 0);
    let z = Vec3q::new(0, 0, ONE);
    assert_eq!(x.cross(y), z);
    assert_eq!(y.cross(z), x);
    assert_eq!(y.cross(x), Vec3q { x: 0, y: 0, z: -ONE });
}

#[test]
fn normalize_scales_to_unit_length() {
    let v = Vec3q::new(3 * ONE, 0, 0);
    assert_eq!(v.normalize(), Vec3q { x: ONE, y: 0, z: 0 });
    let w = Vec3q::new(0, -5 * ONE, 0);
    assert_eq!(w.normalize(), Vec3q { x: 0, y: -ONE, z: 0 });
    let zero = Vec3q::new(0, 0, 0);
    assert_eq!(zero.normalize(), Vec3q { x: 0, y: 0, z: 0 });
}

#[test]
fn reflect_mirrors_about_the_normal() {
    let d = Vec3q::new(ONE, -ONE, 0);
    let n = Vec3q::new(0, ONE, 0);
    assert_eq!(d.reflect(n), Vec3q { x: ONE, y: ONE, z: 0 });
}

#[test]
fn ray_at_walks_the_direction() {
    let r = Ray::new(Vec3q::new(0, ONE, 0), Vec3q::new(ONE, 2 * ONE, 0));
    assert_eq!(r.at(ONE / 2), Vec3q { x: ONE / 2, y: 2 * ONE, z: 0 });
}

#[test]
fn set_normal_orients_against_the_ray() {
    let r = Ray::new(Vec3q::new(0, 0, 0), Vec3q::new(0, 0, -ONE));
    let mut h = HitData::new();
    h.set_normal(&r, Vec3q::new(0, 0, ONE));
    assert!(h.front);
    assert_eq!(h.normal, Vec3q { x: 0, y: 0, z: ONE });
    let mut h2 = HitData::new();
    h2.set_normal(&r, Vec3q::new(0, 0, -ONE));
    assert!(!h2.front);
    assert_eq!(h2.normal, Vec3q { x: 0, y: 0, z: ONE });
}

#[test]
fn sphere_hit_through_center_has_symmetric_roots() {
    // Camera two units before a half-unit sphere: the roots are 1.5 and 2.5,
    // symmetric about |origin - center| / |direction| = 2.
    let s = Sphere {
        center: Vec3q::new(0, 0, -2 * ONE),
        radius: ONE / 2,
        material: matte(ONE, 0, 0),
    };
    let r = Ray::new(Vec3q::new(0, 0, 0), Vec3q::new(0, 0, -ONE));
    let h = s.hit(&r, 7, 0x200000000000).unwrap();
    assert_eq!(h.t, 3 * ONE / 2);
    assert!(h.front);
    assert_eq!(h.normal, Vec3q { x: 0, y: 0, z: ONE });
    assert_eq!(h.point, Vec3q { x: 0, y: 0, z: -3 * ONE / 2 });
    assert_eq!(h.material, matte(ONE, 0, 0));
    // The larger root is taken when the interval excludes the smaller one.
    let h2 = s.hit(&r, 2 * ONE, 0x200000000000).unwrap();
    assert_eq!(h2.t, 5 * ONE / 2);
    // Both roots are symmetric about t = 2.
    assert_eq!(h.t + h2.t, 4 * ONE);
}

#[test]
fn sphere_hit_from_inside_flips_the_normal() {
    let s = Sphere {
        center: Vec3q::new(0, 0, -2 * ONE),
        radius: ONE / 2,
        material: matte(0, ONE, 0),
    };
    let r = Ray::new(Vec3q::new(0, 0, -2 * ONE), Vec3q::new(0, 0, -ONE));
    let h = s.hit(&r, 0, 0x200000000000).unwrap();
    assert_eq!(h.t, ONE / 2);
    assert!(!h.front);
    assert_eq!(h.normal, Vec3q { x: 0, y: 0, z: ONE });
    // The oriented normal never points with the ray.
    let d: i128 = (h.normal.z as i128) * (r.direction.z as i128);
    assert!(d <= 0);
}

#[test]
fn sphere_miss_reports_nothing() {
    let s = Sphere {
        center: Vec3q::new(0, 0, -2 * ONE),
        radius: ONE / 2,
        material: matte(ONE, 0, 0),
    };
    let r = Ray::new(Vec3q::new(0, 3 * ONE, 0), Vec3q::new(0, 0, -ONE));
    assert!(s.hit(&r, 7, 0x200000000000).is_none());
    let degenerate = Ray::new(Vec3q::new(0, 0, 0), Vec3q::new(0, 0, 0));
    assert!(s.hit(&degenerate, 7, 0x200000000000).is_none());
}

#[test]
fn plane_hit_reports_the_single_root() {
    let p = Plane { y: 0, material: matte(0, 0, ONE) };
    let down = Ray::new(Vec3q::new(0, ONE, 0), Vec3q::new(0, -ONE, 0));
    let h = p.hit(&down, 7, 0x200000000000).unwrap();
    assert_eq!(h.t, ONE);
    assert!(h.front);
    assert_eq!(h.normal, Vec3q { x: 0, y: ONE, z: 0 });
    assert_eq!(h.point, Vec3q { x: 0, y: 0, z: 0 });
    let away = Ray::new(Vec3q::new(0, ONE, 0), Vec3q::new(0, ONE, 0));
    assert!(p.hit(&away, 7, 0x200000000000).is_none());
    let parallel = Ray::new(Vec3q::new(0, ONE, 0), Vec3q::new(ONE, 0, 0));
    assert!(p.hit(&parallel, 7, 0x200000000000).is_none());
}

#[test]
fn scene_reports_the_nearest_of_two_overlapping_spheres() {
    let near = Sphere {
        center: Vec3q::new(0, 0, -2 * ONE),
        radius: ONE / 2,
        material: matte(0, ONE, 0),
    };
    let far = Sphere {
        center: Vec3q::new(0, 0, -4 * ONE),
        radius: ONE,
        material: matte(ONE, 0, 0),
    };
    let r = Ray::new(Vec3q::new(0, 0, 0), Vec3q::new(0, 0, -ONE));
    let a = Scene::new(vec![Primitive::Sphere(near), Primitive::Sphere(far)]);
    let b = Scene::new(vec![Primitive::Sphere(far), Primitive::Sphere(near)]);
    let ha = a.hit(&r, 7, 0x200000000000).unwrap();
    let hb = b.hit(&r, 7, 0x200000000000).unwrap();
    assert_eq!(ha.t, 3 * ONE / 2);
    assert_eq!(hb.t, 3 * ONE / 2);
    assert_eq!(ha.material, matte(0, ONE, 0));
    assert_eq!(hb.material, matte(0, ONE, 0));
}

#[test]
fn empty_scene_never_hits() {
    let scene = Scene::new(vec![]);
    let r = Ray::new(Vec3q::new(0, 0, 0), Vec3q::new(0, 0, -ONE));
    assert!(scene.hit(&r, 7, 0x200000000000).is_none());
}

#[test]
fn scene_mixes_spheres_and_planes() {
    let ball = Sphere {
        center: Vec3q::new(0, ONE / 2, -2 * ONE),
        radius: ONE / 2,
        material: matte(0, ONE, 0),
    };
    let ground = Plane { y: 0, material: matte(ONE, 0, 0) };
    let scene = Scene::new(vec![Primitive::Sphere(ball), Primitive::Plane(ground)]);
    // Straight down: only the plane.
    let down = Ray::new(Vec3q::new(0, ONE, 0), Vec3q::new(0, -ONE, 0));
    let h = scene.hit(&down, 7, 0x200000000000).unwrap();
    assert_eq!(h.material, matte(ONE, 0, 0));
    // Through the sphere's center: the sphere comes first.
    let ahead = Ray::new(Vec3q::new(0, ONE / 2, 0), Vec3q::new(0, 0, -ONE));
    let h2 = scene.hit(&ahead, 7, 0x200000000000).unwrap();
    assert_eq!(h2.material, matte(0, ONE, 0));
    assert_eq!(h2.t, 3 * ONE / 2);
}
