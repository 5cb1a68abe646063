//! Scene primitives: spheres and horizontal planes.
//!
//! A sphere test solves |O + tD - C|^2 = r^2 through the discriminant; the
//! smaller root is preferred when it lies in [t_min, t_max], else the larger
//! root is tried, else there is no hit.  The outward normal is
//! (point - center) / radius, held to unit range, then oriented against the
//! incoming ray.  A plane y = y0 has the single root (y0 - O.y) / D.y and the
//! outward normal +y, oriented the same way.

use vstd::prelude::*;

verus! {

use crate::fixed::{
    qdiv, sclamp, sqrt_floor, div_floor_i128, isqrt_u128, clamp_q, lemma_mul_le, lemma_div_abs,
    lemma_div_nonneg_le, lemma_sqrt_floor_bounds,
};
use crate::vec3::{Vec3q, dot3, bounded, vsub, clamp_vec3};
use crate::ray::{Ray, HitData, ray_wf, ray_at, facing, orient};
use crate::material::{Material, mat_wf};

#[derive(Clone, Copy, PartialEq, Eq, Structural, Debug)]
pub struct Sphere {
    pub center: Vec3q,
    pub radius: i64,
    pub material: Material,
}

#[derive(Clone, Copy, PartialEq, Eq, Structural, Debug)]
pub struct Plane {
    pub y: i64,
    pub material: Material,
}

/// A sphere the kernel accepts: center in bounds, positive radius in bounds,
/// well-formed material.
pub open spec fn sphere_wf(s: Sphere) -> bool {
    &&& bounded(s.center, 0x10000000)
    &&& 1 <= s.radius <= 0x10000000
    &&& mat_wf(s.material)
}

pub open spec fn plane_wf(p: Plane) -> bool {
    &&& -0x10000000 <= p.y <= 0x10000000
    &&& mat_wf(p.material)
}

/// Quadratic coefficient a = D.D of the sphere equation.
pub open spec fn sphere_a(r: Ray) -> int {
    dot3(r.direction, r.direction)
}

/// Half the linear coefficient: (O - C).D.
pub open spec fn sphere_hb(s: Sphere, r: Ray) -> int {
    dot3(vsub(r.origin, s.center), r.direction)
}

/// Constant coefficient: |O - C|^2 - radius^2.
pub open spec fn sphere_c(s: Sphere, r: Ray) -> int {
    dot3(vsub(r.origin, s.center), vsub(r.origin, s.center)) - s.radius * s.radius
}

/// The discriminant (half-b form): hb^2 - a c.  Negative means no real root,
/// so no hit.
pub open spec fn sphere_disc(s: Sphere, r: Ray) -> int {
    sphere_hb(s, r) * sphere_hb(s, r) - sphere_a(r) * sphere_c(s, r)
}

/// Floor square root of the discriminant.
pub open spec fn sphere_sq(s: Sphere, r: Ray) -> int {
    sqrt_floor(sphere_disc(s, r) as nat) as int
}

/// The smaller root (-hb - sqrt) / a, in Q16.16.
pub open spec fn sphere_t1(s: Sphere, r: Ray) -> int {
    qdiv((-sphere_hb(s, r) - sphere_sq(s, r)) * 65536, sphere_a(r))
}

/// The larger root (-hb + sqrt) / a, in Q16.16.
pub open spec fn sphere_t2(s: Sphere, r: Ray) -> int {
    qdiv((-sphere_hb(s, r) + sphere_sq(s, r)) * 65536, sphere_a(r))
}

/// The outward normal (point - center) / radius, held to unit range.
pub open spec fn sphere_out_normal(s: Sphere, p: Vec3q) -> Vec3q {
    Vec3q {
        x: sclamp(qdiv((p.x - s.center.x) * 65536, s.radius as int), -65536, 65536) as i64,
        y: sclamp(qdiv((p.y - s.center.y) * 65536, s.radius as int), -65536, 65536) as i64,
        z: sclamp(qdiv((p.z - s.center.z) * 65536, s.radius as int), -65536, 65536) as i64,
    }
}

/// The hit record for a sphere at a given accepted root.
pub open spec fn sphere_record(s: Sphere, r: Ray, t: int) -> HitData {
    let p = clamp_vec3(ray_at(r, t), 0x10000000);
    let out = sphere_out_normal(s, p);
    HitData { point: p, normal: orient(r, out), t: t as i64, front: facing(r, out), material: s.material }
}

/// What a sphere test returns: nothing for a degenerate direction or a
/// negative discriminant; else the smaller root if it lies in
/// [t_min, t_max], else the larger root if it does, else nothing.
pub open spec fn sphere_hit_spec(s: Sphere, r: Ray, t_min: int, t_max: int) -> Option<HitData> {
    if sphere_a(r) <= 0 {
        None
    } else if sphere_disc(s, r) < 0 {
        None
    } else if t_min <= sphere_t1(s, r) <= t_max {
        Some(sphere_record(s, r, sphere_t1(s, r)))
    } else if t_min <= sphere_t2(s, r) <= t_max {
        Some(sphere_record(s, r, sphere_t2(s, r)))
    } else {
        None
    }
}

/// The single plane root (y0 - O.y) / D.y, in Q16.16.
pub open spec fn plane_t(p: Plane, r: Ray) -> int {
    qdiv((p.y - r.origin.y) * 65536, r.direction.y as int)
}

/// The hit record for a plane at a given accepted root.
pub open spec fn plane_record(p: Plane, r: Ray, t: int) -> HitData {
    let pt = clamp_vec3(ray_at(r, t), 0x10000000);
    let out = Vec3q { x: 0, y: 65536, z: 0 };
    HitData { point: pt, normal: orient(r, out), t: t as i64, front: facing(r, out), material: p.material }
}

/// What a plane test returns: nothing for a ray parallel to the plane, else
/// the root when it lies in [t_min, t_max].
pub open spec fn plane_hit_spec(p: Plane, r: Ray, t_min: int, t_max: int) -> Option<HitData> {
    if r.direction.y == 0 {
        None
    } else if t_min <= plane_t(p, r) <= t_max {
        Some(plane_record(p, r, plane_t(p, r)))
    } else {
        None
    }
}

/// One component of the sphere's outward normal.
fn normal_comp(pc: i64, cc: i64, rad: i64) -> (r: i64)
    requires
        -0x10000000 <= pc <= 0x10000000,
        -0x10000000 <= cc <= 0x10000000,
        1 <= rad <= 0x10000000,
    ensures
        r == sclamp(qdiv((pc - cc) * 65536, rad as int), -65536, 65536),
{
    let num: i128 = ((pc - cc) as i128) * 65536;
    let q: i128 = div_floor_i128(num, rad as i128);
    proof {
        lemma_div_abs((pc - cc) * 65536, 0x200000000000, rad as int);
        lemma_div_nonneg_le(0x200000000000, rad as int);
    }
    clamp_q(q as i64, -65536, 65536)
}

impl Sphere {
    /// Intersect a ray with the sphere over the closed parameter interval
    /// [t_min, t_max]; the returned record's normal never points with the
    /// incoming ray.
    pub fn hit(&self, r: &Ray, t_min: i64, t_max: i64) -> (res: Option<HitData>)
        requires
            sphere_wf(*self),
            ray_wf(*r),
            -0x200000000000 <= t_min,
            t_max <= 0x200000000000,
        ensures
            res == sphere_hit_spec(*self, *r, t_min as int, t_max as int),
            match res {
                Some(h) => {
                    &&& dot3(h.normal, r.direction) <= 0
                    &&& bounded(h.point, 0x10000000)
                    &&& bounded(h.normal, 65536)
                    &&& t_min <= h.t <= t_max
                    &&& h.material == self.material
                },
                None => true,
            },
    {
        let oc: Vec3q = r.origin.sub(self.center);
        let a: i64 = r.direction.dot(r.direction);
        if a <= 0 {
            return None;
        }
        let hb: i64 = oc.dot(r.direction);
        proof {
            lemma_mul_le(self.radius as int, 0x10000000, self.radius as int, 0x10000000);
        }
        let cc: i64 = oc.dot(oc) - self.radius * self.radius;
        proof {
            lemma_mul_le(hb as int, 0x3000000000000000, hb as int, 0x3000000000000000);
            lemma_mul_le(a as int, 0x3000000000000000, cc as int, 0x4000000000000000);
        }
        let disc: i128 = (hb as i128) * (hb as i128) - (a as i128) * (cc as i128);
        if disc < 0 {
            return None;
        }
        let sq: u128 = isqrt_u128(disc as u128);
        let num1: i128 = -(hb as i128) - (sq as i128);
        let num2: i128 = -(hb as i128) + (sq as i128);
        let t1: i128 = div_floor_i128(num1 * 65536, a as i128);
        let root: i128 = if t_min as i128 <= t1 && t1 <= t_max as i128 {
            t1
        } else {
            let t2: i128 = div_floor_i128(num2 * 65536, a as i128);
            if t_min as i128 <= t2 && t2 <= t_max as i128 {
                t2
            } else {
                return None;
            }
        };
        let t: i64 = root as i64;
        let p0: Vec3q = r.at(t);
        let p = Vec3q {
            x: clamp_q(p0.x, -0x10000000, 0x10000000),
            y: clamp_q(p0.y, -0x10000000, 0x10000000),
            z: clamp_q(p0.z, -0x10000000, 0x10000000),
        };
        let out = Vec3q {
            x: normal_comp(p.x, self.center.x, self.radius),
            y: normal_comp(p.y, self.center.y, self.radius),
            z: normal_comp(p.z, self.center.z, self.radius),
        };
        let mut h = HitData {
            point: p,
            normal: Vec3q { x: 0, y: 0, z: 0 },
            t,
            front: false,
            material: self.material,
        };
        h.set_normal(r, out);
        Some(h)
    }
}

impl Plane {
    /// Intersect a ray with the horizontal plane y = self.y over the closed
    /// parameter interval [t_min, t_max]; the returned record's normal never
    /// points with the incoming ray.
    pub fn hit(&self, r: &Ray, t_min: i64, t_max: i64) -> (res: Option<HitData>)
        requires
            plane_wf(*self),
            ray_wf(*r),
            -0x200000000000 <= t_min,
            t_max <= 0x200000000000,
        ensures
            res == plane_hit_spec(*self, *r, t_min as int, t_max as int),
            match res {
                Some(h) => {
                    &&& dot3(h.normal, r.direction) <= 0
                    &&& bounded(h.point, 0x10000000)
                    &&& bounded(h.normal, 65536)
                    &&& t_min <= h.t <= t_max
                    &&& h.material == self.material
                },
                None => true,
            },
    {
        let dy: i64 = r.direction.y;
        if dy == 0 {
            return None;
        }
        let num: i128 = ((self.y - r.origin.y) as i128) * 65536;
        let t128: i128 = if dy > 0 {
            div_floor_i128(num, dy as i128)
        } else {
            div_floor_i128(-num, -(dy as i128))
        };
        if !(t_min as i128 <= t128 && t128 <= t_max as i128) {
            return None;
        }
        let t: i64 = t128 as i64;
        let p0: Vec3q = r.at(t);
        let p = Vec3q {
            x: clamp_q(p0.x, -0x10000000, 0x10000000),
            y: clamp_q(p0.y, -0x10000000, 0x10000000),
            z: clamp_q(p0.z, -0x10000000, 0x10000000),
        };
        let out = Vec3q { x: 0, y: 65536, z: 0 };
        let mut h = HitData {
            point: p,
            normal: Vec3q { x: 0, y: 0, z: 0 },
            t,
            front: false,
            material: self.material,
        };
        h.set_normal(r, out);
        Some(h)
    }
}

/// A negative discriminant reports no hit, whatever the interval.
pub proof fn lemma_negative_disc_misses(s: Sphere, r: Ray, t_min: int, t_max: int)
    requires
        sphere_disc(s, r) < 0,
    ensures
        sphere_hit_spec(s, r, t_min, t_max) == None::<HitData>,
{
}

/// A ray whose line passes exactly through a sphere's center — the offset
/// center - origin is a rational multiple p/q of the direction (every pose
/// of this model that runs through the center has that form) — has
/// discriminant exactly a * radius^2 > 0, so both roots are real; the exact
/// root numerators average to p * a / q, so the roots are symmetric about
/// t = p/q, which is |origin - center| / |direction| (their squares relate
/// by q^2 |origin - center|^2 == p^2 a); and with the origin outside the
/// sphere the smaller root numerator is positive, so both roots are
/// positive.
pub proof fn lemma_ray_through_center(s: Sphere, r: Ray, p: int, q: int)
    requires
        sphere_wf(s),
        ray_wf(r),
        sphere_a(r) > 0,
        p >= 1,
        q >= 1,
        q * (s.center.x - r.origin.x) == p * r.direction.x,
        q * (s.center.y - r.origin.y) == p * r.direction.y,
        q * (s.center.z - r.origin.z) == p * r.direction.z,
    ensures
        sphere_disc(s, r) == sphere_a(r) * (s.radius * s.radius),
        sphere_disc(s, r) > 0,
        q * sphere_hb(s, r) == -(p * sphere_a(r)),
        q * q * dot3(vsub(r.origin, s.center), vsub(r.origin, s.center)) == p * p * sphere_a(r),
        q * ((-sphere_hb(s, r) - sphere_sq(s, r)) + (-sphere_hb(s, r) + sphere_sq(s, r))) == 2 * (p
            * sphere_a(r)),
        dot3(vsub(r.origin, s.center), vsub(r.origin, s.center)) > s.radius * s.radius
            ==> -sphere_hb(s, r) - sphere_sq(s, r) > 0,
{
    let oc = vsub(r.origin, s.center);
    let d = r.direction;
    let a = sphere_a(r);
    let hb = sphere_hb(s, r);
    let cc = sphere_c(s, r);
    assert(q * oc.x == -(p * d.x)) by (nonlinear_arith)
        requires
            oc.x == r.origin.x - s.center.x,
            q * (s.center.x - r.origin.x) == p * r.direction.x,
            d == r.direction;
    assert(q * oc.y == -(p * d.y)) by (nonlinear_arith)
        requires
            oc.y == r.origin.y - s.center.y,
            q * (s.center.y - r.origin.y) == p * r.direction.y,
            d == r.direction;
    assert(q * oc.z == -(p * d.z)) by (nonlinear_arith)
        requires
            oc.z == r.origin.z - s.center.z,
            q * (s.center.z - r.origin.z) == p * r.direction.z,
            d == r.direction;
    assert(q * (oc.x * d.x) == -(p * (d.x * d.x))) by (nonlinear_arith)
        requires q * oc.x == -(p * d.x);
    assert(q * (oc.y * d.y) == -(p * (d.y * d.y))) by (nonlinear_arith)
        requires q * oc.y == -(p * d.y);
    assert(q * (oc.z * d.z) == -(p * (d.z * d.z))) by (nonlinear_arith)
        requires q * oc.z == -(p * d.z);
    assert(q * hb == q * (oc.x * d.x) + q * (oc.y * d.y) + q * (oc.z * d.z)) by (nonlinear_arith)
        requires hb == oc.x * d.x + oc.y * d.y + oc.z * d.z;
    assert(p * a == p * (d.x * d.x) + p * (d.y * d.y) + p * (d.z * d.z)) by (nonlinear_arith)
        requires a == d.x * d.x + d.y * d.y + d.z * d.z;
    assert(q * q * (oc.x * oc.x) == p * p * (d.x * d.x)) by (nonlinear_arith)
        requires q * oc.x == -(p * d.x);
    assert(q * q * (oc.y * oc.y) == p * p * (d.y * d.y)) by (nonlinear_arith)
        requires q * oc.y == -(p * d.y);
    assert(q * q * (oc.z * oc.z) == p * p * (d.z * d.z)) by (nonlinear_arith)
        requires q * oc.z == -(p * d.z);
    assert(q * q * dot3(oc, oc) == q * q * (oc.x * oc.x) + q * q * (oc.y * oc.y) + q * q * (oc.z
        * oc.z)) by (nonlinear_arith)
        requires dot3(oc, oc) == oc.x * oc.x + oc.y * oc.y + oc.z * oc.z;
    assert(p * p * a == p * p * (d.x * d.x) + p * p * (d.y * d.y) + p * p * (d.z * d.z))
        by (nonlinear_arith)
        requires a == d.x * d.x + d.y * d.y + d.z * d.z;
    assert(sphere_disc(s, r) == a * (s.radius * s.radius)) by (nonlinear_arith)
        requires
            sphere_disc(s, r) == hb * hb - a * cc,
            cc == dot3(oc, oc) - s.radius * s.radius,
            q * hb == -(p * a),
            q * q * dot3(oc, oc) == p * p * a,
            q >= 1;
    assert(a * (s.radius * s.radius) >= 1 * 1) by (nonlinear_arith)
        requires
            a >= 1,
            s.radius >= 1;
    lemma_sqrt_floor_bounds(sphere_disc(s, r) as nat);
    let sq = sphere_sq(s, r);
    assert(q * ((-hb - sq) + (-hb + sq)) == 2 * (p * a)) by (nonlinear_arith)
        requires q * hb == -(p * a);
    if dot3(oc, oc) > s.radius * s.radius {
        assert(p * a >= 1 && q * (-hb) == p * a && -hb >= 1) by (nonlinear_arith)
            requires
                q * hb == -(p * a),
                p >= 1,
                q >= 1,
                a >= 1;
        assert(p * a * (p * a) > q * q * (a * (s.radius * s.radius))) by (nonlinear_arith)
            requires
                q * q * dot3(oc, oc) == p * p * a,
                dot3(oc, oc) > s.radius * s.radius,
                a >= 1,
                q >= 1,
                p >= 1;
        assert(q * q * (a * (s.radius * s.radius)) >= q * sq * (q * sq)) by (nonlinear_arith)
            requires
                sphere_disc(s, r) == a * (s.radius * s.radius),
                sq * sq <= sphere_disc(s, r),
                sq >= 0,
                q >= 1;
        assert(p * a > q * sq) by (nonlinear_arith)
            requires
                p * a * (p * a) > q * sq * (q * sq),
                p * a >= 1,
                q * sq >= 0;
        assert(q * sq >= 0) by (nonlinear_arith)
            requires
                q >= 1,
                sq >= 0;
        assert(-hb > sq) by (nonlinear_arith)
            requires
                q * (-hb) == p * a,
                p * a > q * sq,
                q >= 1,
                sq >= 0;
    }
}

} // verus!
