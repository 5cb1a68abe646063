use raytracer::rng::RandomSauce;
use raytracer::vec3::Vec3q;

#[test]
fn pcg_hash_matches_reference_values() {
    // seed = (3 + 5 * 2^16) ^ (9 * 1337) = 339714; two hand-computed draws.
    let mut rng = RandomSauce::new(3, 5, 9);
    assert_eq!(rng.state, 339714);
    let o1: u32 = rng.rand_u();
    assert_eq!(rng.state, 1073640815);
    assert_eq!(o1, 3767748671);
    let o2: u32 = rng.rand_u();
    assert_eq!(rng.state, 1092873088);
    assert_eq!(o2, 2844461589);
}

#[test]
fn rand_f_is_top_sixteen_bits_of_the_draw() {
    let mut rng = RandomSauce::new(3, 5, 9);
    let f1: i64 = rng.rand_f();
    assert_eq!(f1, 3767748671u32 as i64 >> 16);
    assert_eq!(f1, 57491);
    let f2: i64 = rng.rand_f();
    assert_eq!(f2, 43403);
}

#[test]
fn rand_f_stays_in_unit_interval() {
    let mut rng = RandomSauce::new(11, 22, 33);
    let mut k: u32 = 0;
    while k < 1000 {
        let f: i64 = rng.rand_f();
        assert!(0 <= f && f < 65536);
        k += 1;
    }
}

#[test]
fn rand_f_range_respects_its_bounds() {
    let mut rng = RandomSauce::new(7, 1, 2);
    let mut k: u32 = 0;
    while k < 500 {
        let f: i64 = rng.rand_f_range(-65536, 65536);
        assert!(-65536 <= f && f <= 65536);
        let g: i64 = rng.rand_f_range(13, 14);
        assert!(13 <= g && g <= 14);
        k += 1;
    }
}

#[test]
fn rand_unit_vec3_has_unit_length() {
    let mut rng = RandomSauce::new(40, 41, 42);
    let mut k: u32 = 0;
    while k < 200 {
        let v: Vec3q = rng.rand_unit_vec3();
        let l2: i128 =
            (v.x as i128) * (v.x as i128) + (v.y as i128) * (v.y as i128) + (v.z as i128) * (v.z as i128);
        // |v|^2 is 2^32 up to fixed-point rounding: the floor square root of
        // the candidate's length undershoots by at most one part in 2^13,
        // so the squared length lands within about 2^21 of one.
        let one2: i128 = 65536i128 * 65536i128;
        assert!(l2 <= one2 + (1i128 << 21));
        assert!(l2 >= one2 - (1i128 << 21));
        k += 1;
    }
}

#[test]
fn rand_hemisphere_vec3_never_points_against_the_normal() {
    let normals = [
        Vec3q { x: 0, y: 65536, z: 0 },
        Vec3q { x: -65536, y: 0, z: 0 },
        Vec3q { x: 30000, y: -40000, z: 20000 },
    ];
    let mut rng = RandomSauce::new(5, 6, 7);
    for n in normals.iter() {
        let mut k: u32 = 0;
        while k < 100 {
            let v: Vec3q = rng.rand_hemisphere_vec3(*n);
            let d: i128 = (v.x as i128) * (n.x as i128) + (v.y as i128) * (n.y as i128)
                + (v.z as i128) * (n.z as i128);
            assert!(d >= 0);
            k += 1;
        }
    }
}
