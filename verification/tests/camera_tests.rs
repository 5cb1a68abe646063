use raytracer::vec3::Vec3q;
use raytracer::camera::Camera;

const ONE: i64 = 65536;

fn looking_down_z() -> Camera {
    Camera::new(800, 600, 50, ONE, Vec3q::new(0, ONE, 2 * ONE), Vec3q::new(0, 0, -ONE))
}

#[test]
fn direction_returns_the_stored_forward() {
    let c = looking_down_z();
    assert_eq!(c.direction(), Vec3q { x: 0, y: 0, z: -ONE });
}

#[test]
fn basis_is_right_handed_for_the_default_pose() {
    let c = looking_down_z();
    assert_eq!(c.u(), Vec3q { x: ONE, y: 0, z: 0 });
    assert_eq!(c.v(), Vec3q { x: 0, y: ONE, z: 0 });
}

#[test]
fn near_plane_scales_height_by_the_aspect_ratio() {
    // tan(fov/2) = 1: height 2, width 2 * 800/600 rounded down.
    let c = looking_down_z();
    let (pw, ph) = c.near_plane_dimensions();
    assert_eq!(ph, 2 * ONE);
    assert_eq!(pw, 2 * ONE * 800 / 600);
    assert_eq!(pw, 174762);
}

#[test]
fn first_pixel_sits_at_the_lower_left_of_the_near_plane() {
    let c = looking_down_z();
    // pos + forward - u * (pw/2) - v * (ph/2).
    let f = c.first();
    assert_eq!(f, Vec3q { x: -87381, y: ONE - ONE, z: 2 * ONE - ONE });
}

#[test]
fn pixel_deltas_divide_the_plane_by_the_viewport() {
    let c = looking_down_z();
    assert_eq!(c.pdu(), Vec3q { x: 174762 / 800, y: 0, z: 0 });
    assert_eq!(c.pdv(), Vec3q { x: 0, y: 2 * ONE / 600, z: 0 });
}

#[test]
fn basis_follows_a_turned_camera() {
    // Looking down +x: u is forward x up = +z, v is +y.
    let c = Camera::new(100, 100, 1, ONE, Vec3q::new(0, 0, 0), Vec3q::new(ONE, 0, 0));
    assert_eq!(c.u(), Vec3q { x: 0, y: 0, z: ONE });
    assert_eq!(c.v(), Vec3q { x: 0, y: ONE, z: 0 });
}
