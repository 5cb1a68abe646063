//! Rays and hit records.
//!
//! A ray is an origin and an (unnormalized) direction.  Scene positions stay
//! within 2^12 world units (|component| <= 2^28 raw) and directions within
//! 2^14 units (|component| <= 2^30 raw); ray parameters t stay within
//! 2^45 raw (2^29 world units over a unit direction), the crate's stand-in
//! for an unbounded upper bound.

use vstd::prelude::*;

verus! {

use crate::fixed::{fxm, fx_mul, lemma_fxm_abs, lemma_div_exact};
use crate::vec3::{Vec3q, dot3, bounded, vneg, lemma_dot3_neg};
use crate::material::Material;

/// Positions and centers stay within this raw bound (2^12 world units).
pub const POS_B: i64 = 0x10000000;

/// Ray directions stay within this raw bound (2^14 world units).
pub const DIR_B: i64 = 0x40000000;

/// Ray parameters stay within this raw bound; it stands in for "no upper
/// bound" when a scene is queried.
pub const T_CAP: i64 = 0x200000000000;

#[derive(Clone, Copy, PartialEq, Eq, Structural, Debug)]
pub struct Ray {
    pub origin: Vec3q,
    pub direction: Vec3q,
}

/// A ray whose origin and direction are within the crate's bounds.
pub open spec fn ray_wf(r: Ray) -> bool {
    &&& bounded(r.origin, 0x10000000)
    &&& bounded(r.direction, 0x40000000)
}

/// The point origin + t * direction (componentwise fixed-point product).
pub open spec fn ray_at(r: Ray, t: int) -> Vec3q {
    Vec3q {
        x: (r.origin.x + fxm(t, r.direction.x as int)) as i64,
        y: (r.origin.y + fxm(t, r.direction.y as int)) as i64,
        z: (r.origin.z + fxm(t, r.direction.z as int)) as i64,
    }
}

impl Ray {
    pub fn new(origin: Vec3q, direction: Vec3q) -> (r: Ray)
        ensures
            r == (Ray { origin, direction }),
    {
        Ray { origin, direction }
    }

    /// The point at parameter t along the ray.
    pub fn at(&self, t: i64) -> (p: Vec3q)
        requires
            ray_wf(*self),
            -0x200000000000 <= t <= 0x200000000000,
        ensures
            p == ray_at(*self, t as int),
    {
        proof {
            lemma_fxm_abs(t as int, self.direction.x as int, 0x200000000000, 0x40000000);
            lemma_fxm_abs(t as int, self.direction.y as int, 0x200000000000, 0x40000000);
            lemma_fxm_abs(t as int, self.direction.z as int, 0x200000000000, 0x40000000);
            assert(0x200000000000int * 0x40000000int == 0x800000000000000int * 65536int);
            lemma_div_exact(0x800000000000000, 65536);
        }
        Vec3q {
            x: self.origin.x + fx_mul(t, self.direction.x),
            y: self.origin.y + fx_mul(t, self.direction.y),
            z: self.origin.z + fx_mul(t, self.direction.z),
        }
    }
}

/// True when an outward normal faces the incoming ray.
pub open spec fn facing(r: Ray, out_normal: Vec3q) -> bool {
    dot3(r.direction, out_normal) < 0
}

/// The outward normal, flipped where it does not face the incoming ray, so
/// that the stored normal never points with the ray.
pub open spec fn orient(r: Ray, out_normal: Vec3q) -> Vec3q {
    if facing(r, out_normal) {
        out_normal
    } else {
        vneg(out_normal)
    }
}

/// The result of a successful intersection: hit point, normal oriented
/// against the incoming ray, ray parameter, facing flag, and the material of
/// the surface.
#[derive(Clone, Copy, PartialEq, Eq, Structural, Debug)]
pub struct HitData {
    pub point: Vec3q,
    pub normal: Vec3q,
    pub t: i64,
    pub front: bool,
    pub material: Material,
}

impl HitData {
    /// An all-zero record (no geometric meaning; a writable placeholder).
    pub fn new() -> (h: HitData)
        ensures
            h.point == (Vec3q { x: 0, y: 0, z: 0 }),
            h.normal == (Vec3q { x: 0, y: 0, z: 0 }),
            h.t == 0,
            h.front == false,
            h.material.color.r == 0 && h.material.color.g == 0 && h.material.color.b == 0,
            h.material.shininess == 0 && h.material.emission == 0,
    {
        HitData {
            point: Vec3q { x: 0, y: 0, z: 0 },
            normal: Vec3q { x: 0, y: 0, z: 0 },
            t: 0,
            front: false,
            material: Material {
                color: crate::color::Color { r: 0, g: 0, b: 0 },
                shininess: 0,
                emission: 0,
            },
        }
    }

    /// Record the facing flag and store the outward normal oriented against
    /// the incoming ray: the stored normal's dot product with the ray
    /// direction is never positive.
    pub fn set_normal(&mut self, r: &Ray, out_normal: Vec3q)
        requires
            bounded(out_normal, 0x40000000),
            bounded(r.direction, 0x40000000),
        ensures
            final(self).front == facing(*r, out_normal),
            final(self).normal == orient(*r, out_normal),
            final(self).point == old(self).point,
            final(self).t == old(self).t,
            final(self).material == old(self).material,
            dot3(final(self).normal, r.direction) <= 0,
    {
        let d: i64 = r.direction.dot(out_normal);
        proof {
            lemma_dot3_comm(out_normal, r.direction);
            lemma_orient_never_with_ray(*r, out_normal);
        }
        self.front = d < 0;
        if d < 0 {
            self.normal = out_normal;
        } else {
            self.normal = out_normal.neg();
        }
    }
}

/// Normal orientation: whatever outward normal a primitive computes, the
/// oriented normal's dot product with the incoming ray direction is never
/// positive.
pub proof fn lemma_orient_never_with_ray(r: Ray, out_normal: Vec3q)
    requires
        bounded(out_normal, 0x4000000000000000),
    ensures
        dot3(orient(r, out_normal), r.direction) <= 0,
{
    lemma_dot3_comm(out_normal, r.direction);
    if !facing(r, out_normal) {
        lemma_dot3_neg(out_normal, r.direction);
    }
}

/// Dot products are symmetric.
pub proof fn lemma_dot3_comm(a: Vec3q, b: Vec3q)
    ensures
        dot3(a, b) == dot3(b, a),
{
    assert((a.x as int) * b.x == (b.x as int) * a.x) by (nonlinear_arith);
    assert((a.y as int) * b.y == (b.y as int) * a.y) by (nonlinear_arith);
    assert((a.z as int) * b.z == (b.z as int) * a.z) by (nonlinear_arith);
}

} // verus!
