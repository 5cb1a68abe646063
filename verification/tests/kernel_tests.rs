use raytracer::vec3::Vec3q;
use raytracer::ray::{Ray, HitData};
use raytracer::primitive::Sphere;
use raytracer::scene::{Primitive, Scene};
use raytracer::material::Material;
use raytracer::color::{Color, convert_color};
use raytracer::rng::RandomSauce;
use raytracer::trace::ray_color;
use raytracer::render::{ShaderConsts, render_pixel};

const ONE: i64 = 65536;

fn consts_for(scene_samples: u32, bounce_limit: u32, background: Color) -> ShaderConsts {
    ShaderConsts {
        bounce_limit,
        time: 0,
        width: 1,
        height: 1,
        samples: scene_samples,
        tan_half_fov: 6554,
        pos: Vec3q::new(0, 0, 0),
        forward: Vec3q::new(0, 0, -ONE),
        background,
    }
}

#[test]
fn color_arithmetic_is_exact() {
    let a = Color::new(ONE, ONE / 2, 0);
    let b = Color::new(ONE / 2, ONE / 2, ONE);
    assert_eq!(a.add(b), Color { r: 3 * ONE / 2, g: ONE, b: ONE });
    assert_eq!(a.mul(b), Color { r: ONE / 2, g: ONE / 4, b: 0 });
    assert_eq!(a.scale(ONE / 2), Color { r: ONE / 2, g: ONE / 4, b: 0 });
    assert_eq!(Color::new(9, 10, 11).div(3), Color { r: 3, g: 3, b: 3 });
    assert_eq!(Color::new(-5, 2 * ONE, 300).clamp01(), Color { r: 0, g: ONE, b: 300 });
}

#[test]
fn gamma_encoding_is_the_one_over_2_2_curve() {
    assert_eq!(convert_color(0), 0);
    assert_eq!(convert_color(-7), 0);
    assert_eq!(convert_color(ONE), ONE);
    // floor(65536 * (1/4)^(5/11)) = 34899 (pow(0.25, 1/2.2) = 0.53252...).
    assert_eq!(convert_color(ONE / 4), 34899);
    // floor(65536 * (1/2)^(5/11)) = 47824.
    assert_eq!(convert_color(ONE / 2), 47824);
    // The curve is steep near zero: one raw step encodes to 423.
    assert_eq!(convert_color(1), 423);
    assert_eq!(convert_color(65535), 65535);
    // to_srgb holds the color to [0, 1] first.
    let c = Color::new(-5, 2 * ONE, ONE / 4);
    assert_eq!(c.to_srgb(), Color { r: 0, g: ONE, b: 34899 });
}

#[test]
fn gamma_encoding_is_monotone() {
    let mut prev: i64 = 0;
    let mut c: i64 = 0;
    while c <= 65536 {
        let e = convert_color(c);
        assert!(e >= prev);
        prev = e;
        c += 97;
    }
}

#[test]
fn emission_scales_the_base_color() {
    let m = Material { color: Color::new(ONE, ONE / 2, 0), shininess: 0, emission: ONE / 2 };
    assert_eq!(m.emit(), Color { r: ONE / 2, g: ONE / 4, b: 0 });
}

#[test]
fn fully_shiny_material_scatters_by_mirror_reflection() {
    let m = Material { color: Color::new(ONE, ONE, ONE), shininess: ONE, emission: 0 };
    let r = Ray::new(Vec3q::new(0, 2 * ONE, 0), Vec3q::new(ONE, -ONE, 0));
    let hit = HitData {
        point: Vec3q::new(ONE, ONE, 0),
        normal: Vec3q::new(0, ONE, 0),
        t: ONE,
        front: true,
        material: m,
    };
    let mut rng = RandomSauce::new(1, 2, 3);
    let (scattered, attenuation) = m.scatter(&r, &hit, &mut rng);
    assert_eq!(scattered.origin, hit.point);
    assert_eq!(scattered.direction, Vec3q { x: ONE, y: ONE, z: 0 });
    assert_eq!(attenuation, m.color);
}

#[test]
fn matte_material_scatters_about_the_normal() {
    let m = Material { color: Color::new(ONE / 2, ONE / 4, 0), shininess: 0, emission: 0 };
    let r = Ray::new(Vec3q::new(0, 2 * ONE, 0), Vec3q::new(0, -ONE, 0));
    let hit = HitData {
        point: Vec3q::new(0, 0, 0),
        normal: Vec3q::new(0, ONE, 0),
        t: 2 * ONE,
        front: true,
        material: m,
    };
    let mut rng = RandomSauce::new(4, 5, 6);
    let (scattered, attenuation) = m.scatter(&r, &hit, &mut rng);
    assert_eq!(scattered.origin, hit.point);
    assert_eq!(attenuation, m.color);
    // The diffuse direction is the normal plus a unit vector: its dot with
    // the normal is never negative.
    let d: i128 = (scattered.direction.y as i128) * (ONE as i128);
    assert!(d >= 0);
}

#[test]
fn single_matte_sphere_resolves_to_its_base_color() {
    // A matte red half-unit sphere one unit ahead, white background: the
    // primary ray hits, the bounce scatters into the background, and the
    // path's light is exactly the base color.
    let red = Material { color: Color::new(ONE, 0, 0), shininess: 0, emission: 0 };
    let scene = Scene::new(vec![Primitive::Sphere(Sphere {
        center: Vec3q::new(0, 0, -ONE),
        radius: ONE / 2,
        material: red,
    })]);
    let r = Ray::new(Vec3q::new(0, 0, 0), Vec3q::new(0, 0, -ONE));
    let mut rng = RandomSauce::new(0, 0, 0);
    let light = ray_color(r, &scene, &mut rng, 4, Color::new(ONE, ONE, ONE));
    assert_eq!(light, Color { r: ONE, g: 0, b: 0 });
    // Through the one-pixel driver the gamma-encoded result is still exactly
    // red: sqrt(1) = 1 and sqrt(0) = 0.
    let consts = consts_for(1, 4, Color::new(ONE, ONE, ONE));
    let out = render_pixel(&consts, &scene, 0, 0);
    assert_eq!(out, Color { r: ONE, g: 0, b: 0 });
}

#[test]
fn empty_scene_resolves_to_the_background() {
    let scene = Scene::new(vec![]);
    let bg = Color::new(ONE / 4, ONE, 0);
    let r = Ray::new(Vec3q::new(0, 0, 0), Vec3q::new(123, -456, -ONE));
    let mut rng = RandomSauce::new(9, 9, 9);
    let light = ray_color(r, &scene, &mut rng, 8, bg);
    assert_eq!(light, bg);
    // Averaging any number of samples keeps the exact background; the gamma
    // encode then maps 1/4 to 34899 (its 1/2.2 power) and 1 to 1.
    let consts = consts_for(7, 8, bg);
    let out = render_pixel(&consts, &scene, 0, 0);
    assert_eq!(out, Color { r: 34899, g: ONE, b: 0 });
}

#[test]
fn enclosing_emissive_sphere_yields_its_emission() {
    // A fully emissive sphere around the camera: with bounce limit one,
    // every sample gathers exactly color * emission, whatever the sample
    // count — there is no scattering noise.
    let glow = Material {
        color: Color::new(ONE, ONE / 2, ONE / 4),
        shininess: 0,
        emission: ONE,
    };
    let scene = Scene::new(vec![Primitive::Sphere(Sphere {
        center: Vec3q::new(0, 0, 0),
        radius: 2 * ONE,
        material: glow,
    })]);
    let r = Ray::new(Vec3q::new(0, 0, 0), Vec3q::new(0, 0, -ONE));
    let mut rng = RandomSauce::new(2, 4, 8);
    let light = ray_color(r, &scene, &mut rng, 1, Color::new(0, 0, 0));
    assert_eq!(light, Color { r: ONE, g: ONE / 2, b: ONE / 4 });
    // Identical through the driver for 1 and for 16 samples: the average of
    // equal values is that value; gamma raises (1, 1/2, 1/4) to the 1/2.2
    // power.
    let expected = Color { r: ONE, g: 47824, b: 34899 };
    let one_sample = render_pixel(&consts_for(1, 1, Color::new(0, 0, 0)), &scene, 0, 0);
    let many_samples = render_pixel(&consts_for(16, 1, Color::new(0, 0, 0)), &scene, 0, 0);
    assert_eq!(one_sample, expected);
    assert_eq!(many_samples, expected);
}

#[test]
fn one_bounce_on_a_matte_surface_gathers_no_light() {
    // With a bounce limit of one a path that hits a non-emissive surface
    // ends with its throughput unspent: the gathered light is black (the
    // final unresolved bounce contributes nothing).
    let red = Material { color: Color::new(ONE, 0, 0), shininess: 0, emission: 0 };
    let scene = Scene::new(vec![Primitive::Sphere(Sphere {
        center: Vec3q::new(0, 0, -ONE),
        radius: ONE / 2,
        material: red,
    })]);
    let r = Ray::new(Vec3q::new(0, 0, 0), Vec3q::new(0, 0, -ONE));
    let mut rng = RandomSauce::new(0, 0, 0);
    let light = ray_color(r, &scene, &mut rng, 1, Color::new(ONE, ONE, ONE));
    assert_eq!(light, Color { r: 0, g: 0, b: 0 });
}

#[test]
fn depth_zero_and_zero_samples_render_black() {
    let scene = Scene::new(vec![]);
    let r = Ray::new(Vec3q::new(0, 0, 0), Vec3q::new(0, 0, -ONE));
    let mut rng = RandomSauce::new(1, 1, 1);
    let light = ray_color(r, &scene, &mut rng, 0, Color::new(ONE, ONE, ONE));
    assert_eq!(light, Color { r: 0, g: 0, b: 0 });
    let consts = consts_for(0, 4, Color::new(ONE, ONE, ONE));
    let out = render_pixel(&consts, &scene, 0, 0);
    assert_eq!(out, Color { r: 0, g: 0, b: 0 });
}
