//! The camera: maps viewport pixel coordinates to primary rays.
//!
//! The pose is a position and a unit forward vector together with the
//! tangent of half the field of view — the values a host derives once per
//! frame from yaw, pitch and the field-of-view angle (the trigonometry
//! happens outside the kernel; everything from there on is fixed-point
//! arithmetic and is verified).  Derived each frame, never stored: the
//! right/up basis, the near plane's dimensions (height 2 tan(fov/2), width
//! scaled by the aspect ratio), the world position of the first pixel, and
//! the per-pixel delta vectors.

use vstd::prelude::*;

verus! {

use crate::fixed::{lemma_fxm_abs, lemma_div_exact, lemma_mul_le, lemma_div_nonneg_le, div_q};
use crate::vec3::{Vec3q, bounded, vadd, vsub, vscale, vcross, vnormalize};

/// The world up direction.
pub open spec fn vup() -> Vec3q {
    Vec3q { x: 0, y: 65536, z: 0 }
}

/// A camera pose and viewport.
pub struct Camera {
    pub width: u32,
    pub height: u32,
    pub samples: u32,
    pub tan_half_fov: i64,
    pub pos: Vec3q,
    pub forward: Vec3q,
}

/// A camera the kernel accepts: a viewport up to 4096 pixels a side, a
/// nonnegative half-fov tangent up to 4 (a field of view under about 152
/// degrees), an in-bounds position, a unit-range forward that is not
/// vertical, and up to 65536 samples.
pub open spec fn cam_wf(c: Camera) -> bool {
    &&& 1 <= c.width <= 4096
    &&& 1 <= c.height <= 4096
    &&& c.samples <= 65536
    &&& 0 <= c.tan_half_fov <= 0x40000
    &&& bounded(c.pos, 0x10000000)
    &&& bounded(c.forward, 65536)
    &&& (c.forward.x != 0 || c.forward.z != 0)
}

/// The right basis vector: forward x up, normalized.
pub open spec fn cam_u(c: Camera) -> Vec3q {
    vnormalize(vcross(c.forward, vup()))
}

/// The up basis vector: u x forward, normalized.
pub open spec fn cam_v(c: Camera) -> Vec3q {
    vnormalize(vcross(cam_u(c), c.forward))
}

/// The near plane's height: 2 tan(fov/2).
pub open spec fn cam_ph(c: Camera) -> int {
    2 * c.tan_half_fov
}

/// The near plane's width: the height scaled by the aspect ratio.
pub open spec fn cam_pw(c: Camera) -> int {
    ((2 * c.tan_half_fov) * (c.width as int)) / (c.height as int)
}

/// The world position of the viewport's first pixel: one unit forward from
/// the position, back half the plane's width along u and half its height
/// along v.
pub open spec fn cam_first(c: Camera) -> Vec3q {
    vsub(vsub(vadd(c.pos, c.forward), vscale(cam_u(c), cam_pw(c) / 2)), vscale(cam_v(c), cam_ph(c) / 2))
}

/// The per-pixel delta along the viewport's horizontal axis.
pub open spec fn cam_pdu(c: Camera) -> Vec3q {
    vscale(cam_u(c), cam_pw(c) / (c.width as int))
}

/// The per-pixel delta along the viewport's vertical axis.
pub open spec fn cam_pdv(c: Camera) -> Vec3q {
    vscale(cam_v(c), cam_ph(c) / (c.height as int))
}

/// Bound the cross product of two unit-range vectors.
proof fn lemma_unit_cross_bounded(a: Vec3q, b: Vec3q)
    requires
        bounded(a, 65536),
        bounded(b, 65536),
    ensures
        bounded(vcross(a, b), 0x40000000),
{
    lemma_fxm_abs(a.y as int, b.z as int, 65536, 65536);
    lemma_fxm_abs(a.z as int, b.y as int, 65536, 65536);
    lemma_fxm_abs(a.z as int, b.x as int, 65536, 65536);
    lemma_fxm_abs(a.x as int, b.z as int, 65536, 65536);
    lemma_fxm_abs(a.x as int, b.y as int, 65536, 65536);
    lemma_fxm_abs(a.y as int, b.x as int, 65536, 65536);
    assert(65536int * 65536int == 65536int * 65536int);
    lemma_div_exact(65536, 65536);
}

impl Camera {
    pub fn new(width: u32, height: u32, samples: u32, tan_half_fov: i64, pos: Vec3q, forward: Vec3q)
        -> (c: Camera)
        ensures
            c == (Camera { width, height, samples, tan_half_fov, pos, forward }),
    {
        Camera { width, height, samples, tan_half_fov, pos, forward }
    }

    /// The unit forward vector of the pose.
    pub fn direction(&self) -> (d: Vec3q)
        ensures
            d == self.forward,
    {
        self.forward
    }

    /// The right basis vector.
    pub fn u(&self) -> (r: Vec3q)
        requires
            cam_wf(*self),
        ensures
            r == cam_u(*self),
            bounded(r, 65536),
    {
        let up = Vec3q { x: 0, y: 65536, z: 0 };
        proof {
            lemma_unit_cross_bounded(self.forward, up);
        }
        self.forward.cross(up).normalize()
    }

    /// The up basis vector.
    pub fn v(&self) -> (r: Vec3q)
        requires
            cam_wf(*self),
        ensures
            r == cam_v(*self),
            bounded(r, 65536),
    {
        let u = self.u();
        proof {
            lemma_unit_cross_bounded(u, self.forward);
        }
        u.cross(self.forward).normalize()
    }

    /// The near plane's width and height.
    pub fn near_plane_dimensions(&self) -> (d: (i64, i64))
        requires
            cam_wf(*self),
        ensures
            d.0 == cam_pw(*self),
            d.1 == cam_ph(*self),
            0 <= d.0 <= 0x80000000,
            0 <= d.1 <= 0x80000,
    {
        let ph: i64 = 2 * self.tan_half_fov;
        proof {
            lemma_mul_le(ph as int, 0x80000, self.width as int, 4096);
            assert(ph * (self.width as int) >= 0) by (nonlinear_arith)
                requires
                    ph >= 0,
                    self.width >= 1;
            lemma_div_nonneg_le(ph * (self.width as int), self.height as int);
        }
        let num: i64 = ph * (self.width as i64);
        let pw: i64 = div_q(num, self.height as i64);
        (pw, ph)
    }

    /// The world position of the first pixel.
    pub fn first(&self) -> (r: Vec3q)
        requires
            cam_wf(*self),
        ensures
            r == cam_first(*self),
            bounded(r, 0x100000000),
    {
        let dims = self.near_plane_dimensions();
        let u = self.u();
        let v = self.v();
        let hw: i64 = div_q(dims.0, 2);
        let hh: i64 = div_q(dims.1, 2);
        proof {
            lemma_fxm_abs(u.x as int, hw as int, 65536, 0x40000000);
            lemma_fxm_abs(u.y as int, hw as int, 65536, 0x40000000);
            lemma_fxm_abs(u.z as int, hw as int, 65536, 0x40000000);
            lemma_fxm_abs(v.x as int, hh as int, 65536, 0x40000000);
            lemma_fxm_abs(v.y as int, hh as int, 65536, 0x40000000);
            lemma_fxm_abs(v.z as int, hh as int, 65536, 0x40000000);
            assert(65536int * 0x40000000int == 0x40000000int * 65536int);
            lemma_div_exact(0x40000000, 65536);
        }
        let center = self.pos.add(self.forward);
        let right = u.scale(hw);
        let upv = v.scale(hh);
        center.sub(right).sub(upv)
    }

    /// The per-pixel delta along the viewport's horizontal axis.
    pub fn pdu(&self) -> (r: Vec3q)
        requires
            cam_wf(*self),
        ensures
            r == cam_pdu(*self),
            bounded(r, 0x100000000),
    {
        let dims = self.near_plane_dimensions();
        let u = self.u();
        let s: i64 = div_q(dims.0, self.width as i64);
        proof {
            lemma_fxm_abs(u.x as int, s as int, 65536, 0x80000000);
            lemma_fxm_abs(u.y as int, s as int, 65536, 0x80000000);
            lemma_fxm_abs(u.z as int, s as int, 65536, 0x80000000);
            assert(65536int * 0x80000000int == 0x80000000int * 65536int);
            lemma_div_exact(0x80000000, 65536);
        }
        u.scale(s)
    }

    /// The per-pixel delta along the viewport's vertical axis.
    pub fn pdv(&self) -> (r: Vec3q)
        requires
            cam_wf(*self),
        ensures
            r == cam_pdv(*self),
            bounded(r, 0x100000000),
    {
        let dims = self.near_plane_dimensions();
        let v = self.v();
        let s: i64 = div_q(dims.1, self.height as i64);
        proof {
            lemma_fxm_abs(v.x as int, s as int, 65536, 0x80000000);
            lemma_fxm_abs(v.y as int, s as int, 65536, 0x80000000);
            lemma_fxm_abs(v.z as int, s as int, 65536, 0x80000000);
            assert(65536int * 0x80000000int == 0x80000000int * 65536int);
            lemma_div_exact(0x80000000, 65536);
        }
        v.scale(s)
    }
}

} // verus!
