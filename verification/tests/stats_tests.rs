use raytracer::vec3::Vec3q;
use raytracer::primitive::Sphere;
use raytracer::scene::{Primitive, Scene};
use raytracer::material::Material;
use raytracer::color::Color;
use raytracer::rng::RandomSauce;
use raytracer::render::{ShaderConsts, render_pixel};

const ONE: i64 = 65536;

#[test]
fn rand_f_covers_the_unit_interval_uniformly() {
    // 2048 fractions from 256 pixel seeds into 16 buckets: the chi-square
    // statistic over 15 degrees of freedom stays far below the 0.001
    // rejection threshold (37.7) for a uniform source.
    let mut buckets = [0u32; 16];
    let mut total: u32 = 0;
    for px in 0..16u32 {
        for py in 0..16u32 {
            let mut rng = RandomSauce::new(px, py, 0);
            for _ in 0..8 {
                let f: i64 = rng.rand_f();
                buckets[(f / 4096) as usize] += 1;
                total += 1;
            }
        }
    }
    let expected: f64 = total as f64 / 16.0;
    let mut chi2: f64 = 0.0;
    for b in buckets.iter() {
        let d: f64 = *b as f64 - expected;
        chi2 += d * d / expected;
    }
    assert!(chi2 < 37.7, "chi-square {} too large: {:?}", chi2, buckets);
}

#[test]
fn distinct_seeds_give_distinct_first_outputs() {
    let mut outputs: Vec<u32> = Vec::new();
    for px in 0..10u32 {
        for py in 0..10u32 {
            for frame in 0..3u32 {
                let mut rng = RandomSauce::new(px, py, frame);
                outputs.push(rng.rand_u());
            }
        }
    }
    let n = outputs.len();
    outputs.sort();
    outputs.dedup();
    assert_eq!(outputs.len(), n);
}

fn noisy_scene() -> Scene {
    let gray = Material { color: Color::new(ONE / 2, ONE / 2, ONE / 2), shininess: 0, emission: 0 };
    Scene::new(vec![Primitive::Sphere(Sphere {
        center: Vec3q::new(0, 0, -2 * ONE),
        radius: ONE,
        material: gray,
    })])
}

fn variance_of_red_channel(samples: u32, frames: u32) -> f64 {
    let scene = noisy_scene();
    let mut values: Vec<f64> = Vec::new();
    for time in 0..frames {
        let consts = ShaderConsts {
            bounce_limit: 8,
            time,
            width: 1,
            height: 1,
            samples,
            tan_half_fov: ONE,
            pos: Vec3q::new(0, 0, 0),
            forward: Vec3q::new(0, 0, -ONE),
            background: Color::new(ONE, ONE, ONE),
        };
        let out = render_pixel(&consts, &scene, 0, 0);
        values.push(out.r as f64 / ONE as f64);
    }
    let mean: f64 = values.iter().sum::<f64>() / values.len() as f64;
    values.iter().map(|v| (v - mean) * (v - mean)).sum::<f64>() / values.len() as f64
}

#[test]
fn averaging_more_samples_reduces_frame_variance() {
    // The same pixel re-rendered over 40 frames: with one sample per frame
    // the jittered, stochastically scattered result varies a lot; with 256
    // samples the average settles and the variance strictly drops.
    let var_one: f64 = variance_of_red_channel(1, 40);
    let var_many: f64 = variance_of_red_channel(256, 40);
    assert!(var_one > 0.0);
    assert!(var_many < var_one, "variance {} not below {}", var_many, var_one);
}
