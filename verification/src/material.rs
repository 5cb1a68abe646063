//! The two-lobe material model.
//!
//! A material is a base color (linear light, each channel in [0, 1]), a
//! shininess in [0, 1] that acts as the per-bounce probability of a perfect
//! mirror reflection (the rest of the probability mass scatters diffusely as
//! normal + random unit vector), and a nonnegative emission factor that turns
//! the base color into emitted light.

use vstd::prelude::*;

verus! {

use crate::color::{Color, cin, cscale};
use crate::fixed::lemma_fxm_range;
use crate::vec3::{Vec3q, bounded, vadd, reflect_spec};
use crate::ray::{Ray, HitData};
use crate::rng::{RandomSauce, next_frac, next_state, unit_sphere_spec};

/// Emission factors stay within this raw bound (an intensity of 2^10).
pub const EMIT_B: i64 = 0x4000000;

#[derive(Clone, Copy, PartialEq, Eq, Structural, Debug)]
pub struct Material {
    pub color: Color,
    pub shininess: i64,
    pub emission: i64,
}

/// A material the kernel accepts: color channels in [0, 1], shininess in
/// [0, 1], emission in [0, 2^10].
pub open spec fn mat_wf(m: Material) -> bool {
    &&& cin(m.color, 65536)
    &&& 0 <= m.shininess <= 65536
    &&& 0 <= m.emission <= 0x4000000
}

/// The emitted light of a material: its color scaled by its emission.
pub open spec fn emit_spec(m: Material) -> Color {
    cscale(m.color, m.emission as int)
}

/// The scattered ray, the attenuation, and the generator state after one
/// scatter: one fraction is drawn; below the shininess the new direction is
/// the mirror reflection of the incoming direction about the stored normal,
/// otherwise it is the normal plus a random unit vector.  The new ray starts
/// at the hit point and the attenuation is the base color.
pub open spec fn scatter_spec(m: Material, r: Ray, hit: HitData, s: u32) -> (Ray, Color, u32) {
    let f = next_frac(s);
    let s1 = next_state(s);
    if f < m.shininess {
        (Ray { origin: hit.point, direction: reflect_spec(r.direction, hit.normal) }, m.color, s1)
    } else {
        let (u, s2) = unit_sphere_spec(s1, 32);
        (Ray { origin: hit.point, direction: vadd(hit.normal, u) }, m.color, s2)
    }
}

impl Material {
    /// Scatter the incoming ray at a hit: returns the new ray and the
    /// attenuation (the base color), drawing from the generator as
    /// `scatter_spec` says.
    pub fn scatter(&self, r: &Ray, hit_data: &HitData, rng: &mut RandomSauce) -> (out: (Ray, Color))
        requires
            bounded(r.direction, 0x40000000),
            bounded(hit_data.normal, 65536),
            bounded(hit_data.point, 0x10000000),
        ensures
            (out.0, out.1, final(rng).state) == scatter_spec(*self, *r, *hit_data, old(rng).state),
            out.0.origin == hit_data.point,
            bounded(out.0.direction, 0x40000000),
            out.1 == self.color,
    {
        let f: i64 = rng.rand_f();
        let dir: Vec3q = if f < self.shininess {
            r.direction.reflect(hit_data.normal)
        } else {
            let u: Vec3q = rng.rand_unit_vec3();
            hit_data.normal.add(u)
        };
        (Ray { origin: hit_data.point, direction: dir }, self.color)
    }

    /// Emitted light: the base color scaled by the emission factor.
    pub fn emit(&self) -> (c: Color)
        requires
            mat_wf(*self),
        ensures
            c == emit_spec(*self),
            cin(c, 0x4000000),
    {
        proof {
            lemma_fxm_range(self.color.r as int, self.emission as int, 65536, 0x4000000);
            lemma_fxm_range(self.color.g as int, self.emission as int, 65536, 0x4000000);
            lemma_fxm_range(self.color.b as int, self.emission as int, 65536, 0x4000000);
            crate::fixed::lemma_div_exact(0x4000000, 65536);
            assert(65536int * 0x4000000int == 0x4000000int * 65536int);
        }
        self.color.scale(self.emission)
    }
}

} // verus!
