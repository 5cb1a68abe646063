//! Three-component vectors of Q16.16 scalars.
//!
//! Positions and centers in a scene stay within 2^12 world units
//! (|component| <= 2^28 raw), ray directions within 2^14 units
//! (|component| <= 2^30 raw); the vector operations state the bounds they
//! need and the exact integer value of what they return.

use vstd::prelude::*;

verus! {

use vstd::arithmetic::div_mod::lemma_div_is_ordered;
use crate::fixed::{
    fxm, qdiv, sclamp, sqrt_floor, fx_mul, div_floor_i128, isqrt_u128, clamp_q, lemma_mul_le,
    lemma_fxm_abs, lemma_div_abs, lemma_sqrt_floor_mono, lemma_sqrt_floor_square, lemma_div_exact,
};

/// A vector of three Q16.16 scalars.
#[derive(Clone, Copy, PartialEq, Eq, Structural, Debug)]
pub struct Vec3q {
    pub x: i64,
    pub y: i64,
    pub z: i64,
}

/// Every component within [-b, b].
pub open spec fn bounded(v: Vec3q, b: int) -> bool {
    &&& -b <= v.x <= b
    &&& -b <= v.y <= b
    &&& -b <= v.z <= b
}

/// Exact dot product of the raw components (a Q32.32 value).
pub open spec fn dot3(a: Vec3q, b: Vec3q) -> int {
    a.x * b.x + a.y * b.y + a.z * b.z
}

pub open spec fn vadd(a: Vec3q, b: Vec3q) -> Vec3q {
    Vec3q { x: (a.x + b.x) as i64, y: (a.y + b.y) as i64, z: (a.z + b.z) as i64 }
}

pub open spec fn vsub(a: Vec3q, b: Vec3q) -> Vec3q {
    Vec3q { x: (a.x - b.x) as i64, y: (a.y - b.y) as i64, z: (a.z - b.z) as i64 }
}

pub open spec fn vneg(v: Vec3q) -> Vec3q {
    Vec3q { x: (-v.x) as i64, y: (-v.y) as i64, z: (-v.z) as i64 }
}

/// Componentwise fixed-point scaling.
pub open spec fn vscale(v: Vec3q, s: int) -> Vec3q {
    Vec3q { x: fxm(v.x as int, s) as i64, y: fxm(v.y as int, s) as i64, z: fxm(v.z as int, s) as i64 }
}

/// Fixed-point cross product.
pub open spec fn vcross(a: Vec3q, b: Vec3q) -> Vec3q {
    Vec3q {
        x: (fxm(a.y as int, b.z as int) - fxm(a.z as int, b.y as int)) as i64,
        y: (fxm(a.z as int, b.x as int) - fxm(a.x as int, b.z as int)) as i64,
        z: (fxm(a.x as int, b.y as int) - fxm(a.y as int, b.x as int)) as i64,
    }
}

/// Scaled to unit length (Q16.16), rounding each component down; the zero
/// vector stays zero.
pub open spec fn vnormalize(v: Vec3q) -> Vec3q {
    let l2 = dot3(v, v);
    if l2 == 0 {
        Vec3q { x: 0, y: 0, z: 0 }
    } else {
        let l = sqrt_floor(l2 as nat) as int;
        Vec3q {
            x: qdiv(v.x * 65536, l) as i64,
            y: qdiv(v.y * 65536, l) as i64,
            z: qdiv(v.z * 65536, l) as i64,
        }
    }
}

impl Vec3q {
    pub fn new(x: i64, y: i64, z: i64) -> (r: Vec3q)
        ensures
            r == (Vec3q { x, y, z }),
    {
        Vec3q { x, y, z }
    }

    pub fn add(self, o: Vec3q) -> (r: Vec3q)
        requires
            -0x4000000000000000 <= self.x + o.x <= 0x4000000000000000,
            -0x4000000000000000 <= self.y + o.y <= 0x4000000000000000,
            -0x4000000000000000 <= self.z + o.z <= 0x4000000000000000,
        ensures
            r == vadd(self, o),
    {
        Vec3q { x: self.x + o.x, y: self.y + o.y, z: self.z + o.z }
    }

    pub fn sub(self, o: Vec3q) -> (r: Vec3q)
        requires
            -0x4000000000000000 <= self.x - o.x <= 0x4000000000000000,
            -0x4000000000000000 <= self.y - o.y <= 0x4000000000000000,
            -0x4000000000000000 <= self.z - o.z <= 0x4000000000000000,
        ensures
            r == vsub(self, o),
    {
        Vec3q { x: self.x - o.x, y: self.y - o.y, z: self.z - o.z }
    }

    pub fn neg(self) -> (r: Vec3q)
        requires
            bounded(self, 0x4000000000000000),
        ensures
            r == vneg(self),
    {
        Vec3q { x: -self.x, y: -self.y, z: -self.z }
    }

    /// Exact dot product; inputs within 2^30 keep the sum within i64.
    pub fn dot(self, o: Vec3q) -> (r: i64)
        requires
            bounded(self, 0x40000000),
            bounded(o, 0x40000000),
        ensures
            r == dot3(self, o),
            -0x3000000000000000 <= r <= 0x3000000000000000,
    {
        proof {
            lemma_mul_le(self.x as int, 0x40000000, o.x as int, 0x40000000);
            lemma_mul_le(self.y as int, 0x40000000, o.y as int, 0x40000000);
            lemma_mul_le(self.z as int, 0x40000000, o.z as int, 0x40000000);
        }
        self.x * o.x + self.y * o.y + self.z * o.z
    }

    /// Componentwise fixed-point scaling.
    pub fn scale(self, s: i64) -> (r: Vec3q)
        requires
            bounded(self, 0x400000000000),
            -0x100000000 <= s <= 0x100000000,
        ensures
            r == vscale(self, s as int),
    {
        Vec3q { x: fx_mul(self.x, s), y: fx_mul(self.y, s), z: fx_mul(self.z, s) }
    }

    /// Fixed-point cross product.
    pub fn cross(self, o: Vec3q) -> (r: Vec3q)
        requires
            bounded(self, 0x100000000),
            bounded(o, 0x100000000),
        ensures
            r == vcross(self, o),
            bounded(r, 0x4000000000000),
    {
        proof {
            lemma_fxm_abs(self.y as int, o.z as int, 0x100000000, 0x100000000);
            lemma_fxm_abs(self.z as int, o.y as int, 0x100000000, 0x100000000);
            lemma_fxm_abs(self.z as int, o.x as int, 0x100000000, 0x100000000);
            lemma_fxm_abs(self.x as int, o.z as int, 0x100000000, 0x100000000);
            lemma_fxm_abs(self.x as int, o.y as int, 0x100000000, 0x100000000);
            lemma_fxm_abs(self.y as int, o.x as int, 0x100000000, 0x100000000);
            assert(0x100000000int * 0x100000000int == 0x1000000000000int * 65536int);
            lemma_div_exact(0x1000000000000, 65536);
        }
        Vec3q {
            x: fx_mul(self.y, o.z) - fx_mul(self.z, o.y),
            y: fx_mul(self.z, o.x) - fx_mul(self.x, o.z),
            z: fx_mul(self.x, o.y) - fx_mul(self.y, o.x),
        }
    }

    /// Mirror reflection about a unit normal, components held within the
    /// direction bound.
    pub fn reflect(self, n: Vec3q) -> (r: Vec3q)
        requires
            bounded(self, 0x40000000),
            bounded(n, 65536),
        ensures
            r == reflect_spec(self, n),
            bounded(r, 0x40000000),
    {
        let dn: i64 = self.dot(n);
        let rx: i64 = reflect_comp(self.x, dn, n.x);
        let ry: i64 = reflect_comp(self.y, dn, n.y);
        let rz: i64 = reflect_comp(self.z, dn, n.z);
        Vec3q { x: rx, y: ry, z: rz }
    }

    /// Scale to unit length in Q16.16 (the zero vector stays zero).  Each
    /// resulting component lies in [-ONE, ONE] because the floor square root
    /// of the squared length is at least the magnitude of each component.
    pub fn normalize(self) -> (r: Vec3q)
        requires
            bounded(self, 0x40000000),
        ensures
            r == vnormalize(self),
            bounded(r, 65536),
    {
        let l2: i64 = self.dot(self);
        proof {
            lemma_dot_self_nonneg(self);
        }
        if l2 == 0 {
            Vec3q { x: 0, y: 0, z: 0 }
        } else {
            let l: u128 = isqrt_u128(l2 as u128);
            proof {
                lemma_sqrt_component(self.x as int, l2 as int);
                lemma_sqrt_component(self.y as int, l2 as int);
                lemma_sqrt_component(self.z as int, l2 as int);
            }
            let nx: i128 = div_floor_i128((self.x as i128) * 65536, l as i128);
            let ny: i128 = div_floor_i128((self.y as i128) * 65536, l as i128);
            let nz: i128 = div_floor_i128((self.z as i128) * 65536, l as i128);
            proof {
                lemma_norm_comp_bounds(self.x as int, l as int);
                lemma_norm_comp_bounds(self.y as int, l as int);
                lemma_norm_comp_bounds(self.z as int, l as int);
            }
            Vec3q { x: nx as i64, y: ny as i64, z: nz as i64 }
        }
    }
}

/// One component of a reflection: d - (2 (d.n) n_c) / 2^32, held to the
/// direction bound.
fn reflect_comp(d: i64, dn: i64, nc: i64) -> (r: i64)
    requires
        -0x40000000 <= d <= 0x40000000,
        -0x3000000000000000 <= dn <= 0x3000000000000000,
        -65536 <= nc <= 65536,
    ensures
        r == sclamp(d - qdiv(2 * (dn as int) * (nc as int), 0x100000000), -0x40000000, 0x40000000),
{
    proof {
        lemma_mul_le(2 * (dn as int), 0x8000000000000000, nc as int, 65536);
        assert(0x8000000000000000int * 65536int == 0x80000000000000000000int);
    }
    let prod: i128 = 2 * (dn as i128) * (nc as i128);
    let q: i128 = div_floor_i128(prod, 0x100000000);
    proof {
        lemma_div_abs(2 * (dn as int) * (nc as int), 0x80000000000000000000, 0x100000000);
        assert(0x80000000000000000000int == 0x800000000000int * 0x100000000int);
        lemma_div_exact(0x800000000000, 0x100000000);
    }
    clamp_q(d - (q as i64), -0x40000000, 0x40000000)
}

/// Every component held to [-b, b].
pub open spec fn clamp_vec3(v: Vec3q, b: int) -> Vec3q {
    Vec3q {
        x: sclamp(v.x as int, -b, b) as i64,
        y: sclamp(v.y as int, -b, b) as i64,
        z: sclamp(v.z as int, -b, b) as i64,
    }
}

/// Mirror reflection of d about a unit normal n:
/// d - 2 (d . n) n, each component held within the direction bound 2^30.
pub open spec fn reflect_spec(d: Vec3q, n: Vec3q) -> Vec3q {
    let dn = dot3(d, n);
    Vec3q {
        x: sclamp(d.x - qdiv(2 * dn * n.x, 0x100000000), -0x40000000, 0x40000000) as i64,
        y: sclamp(d.y - qdiv(2 * dn * n.y, 0x100000000), -0x40000000, 0x40000000) as i64,
        z: sclamp(d.z - qdiv(2 * dn * n.z, 0x100000000), -0x40000000, 0x40000000) as i64,
    }
}

/// Negating one argument negates a dot product.
pub proof fn lemma_dot3_neg(a: Vec3q, n: Vec3q)
    requires
        bounded(a, 0x4000000000000000),
    ensures
        dot3(vneg(a), n) == -dot3(a, n),
{
    let na = vneg(a);
    assert(na.x == -a.x && na.y == -a.y && na.z == -a.z);
    assert((-(a.x as int)) * n.x == -(a.x * n.x)) by (nonlinear_arith);
    assert((-(a.y as int)) * n.y == -(a.y * n.y)) by (nonlinear_arith);
    assert((-(a.z as int)) * n.z == -(a.z * n.z)) by (nonlinear_arith);
}

/// A dot product of a vector with itself is nonnegative and at least each
/// squared component.
pub proof fn lemma_dot_self_nonneg(v: Vec3q)
    ensures
        dot3(v, v) >= v.x * v.x >= 0,
        dot3(v, v) >= v.y * v.y >= 0,
        dot3(v, v) >= v.z * v.z >= 0,
{
    assert(v.x * v.x >= 0 && v.y * v.y >= 0 && v.z * v.z >= 0) by (nonlinear_arith);
}

/// The floor square root of the squared length dominates each component's
/// magnitude.
pub proof fn lemma_sqrt_component(c: int, l2: int)
    requires
        c * c <= l2,
        0 <= c * c,
        0 < l2,
    ensures
        1 <= sqrt_floor(l2 as nat),
        -(sqrt_floor(l2 as nat) as int) <= c <= sqrt_floor(l2 as nat) as int,
{
    let m = if c >= 0 { c } else { -c };
    assert(m * m == c * c) by (nonlinear_arith)
        requires m == c || m == -c;
    lemma_sqrt_floor_mono((m * m) as nat, l2 as nat);
    lemma_sqrt_floor_square(m as nat);
    lemma_sqrt_floor_mono(1nat, l2 as nat);
    lemma_sqrt_floor_square(1nat);
}

/// Floor-dividing c * 2^16 by l keeps the result within [-2^16, 2^16] when
/// |c| <= l.
pub proof fn lemma_norm_comp_bounds(c: int, l: int)
    requires
        1 <= l,
        -l <= c <= l,
    ensures
        -65536 <= qdiv(c * 65536, l) <= 65536,
{
    lemma_div_exact(65536, l);
    lemma_div_exact(-65536, l);
    assert(c * 65536 <= l * 65536 && -(l * 65536) <= c * 65536) by (nonlinear_arith)
        requires -l <= c <= l;
    assert(l * 65536 == 65536 * l) by (nonlinear_arith);
    lemma_div_is_ordered(c * 65536, 65536 * l, l);
    lemma_div_is_ordered((-65536) * l, c * 65536, l);
    assert(-(l * 65536) == (-65536) * l) by (nonlinear_arith);
}

/// The normalization of an in-bounds vector has every component within one.
pub proof fn lemma_vnormalize_bounded(v: Vec3q)
    requires
        bounded(v, 0x40000000),
    ensures
        bounded(vnormalize(v), 65536),
{
    let l2 = dot3(v, v);
    lemma_dot_self_nonneg(v);
    if l2 != 0 {
        let l = sqrt_floor(l2 as nat) as int;
        lemma_sqrt_component(v.x as int, l2);
        lemma_sqrt_component(v.y as int, l2);
        lemma_sqrt_component(v.z as int, l2);
        lemma_norm_comp_bounds(v.x as int, l);
        lemma_norm_comp_bounds(v.y as int, l);
        lemma_norm_comp_bounds(v.z as int, l);
    }
}

} // verus!
