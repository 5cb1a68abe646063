//! The per-pixel pseudo-random number generator.
//!
//! State is a single `u32`, advanced by the PCG-family hash
//! `state = state * 747796405 + 2891336453` (mod 2^32), output
//! `word = ((state >> ((state >> 28) + 4)) ^ state) * 277803737` (mod 2^32),
//! then `(word >> 22) ^ word` — reproduced bit for bit.
//!
//! Seeding combines pixel coordinates and the frame counter as
//! `(px + py * 2^16) ^ (frame * 1337)` (mod 2^32): distinct pixels of any
//! viewport up to 65536 pixels wide get distinct seeds within a frame, and
//! the frame counter decorrelates successive frames.
//!
//! A uniform fraction in [0, 1) takes the top 16 bits of an output word:
//! `word >> 16` as a Q16.16 scalar.  (The classic float construction —
//! OR the word's top mantissa bits into an exponent for [1, 2) and subtract
//! one — yields exactly (word >> 9) / 2^23; the Q16.16 value here is that
//! same number truncated to 16 fraction bits, since
//! word >> 16 == (word >> 9) >> 7.)

use vstd::prelude::*;

verus! {

use crate::fixed::{fxm, fx_mul, lemma_fxm_le_right};
use crate::vec3::lemma_vnormalize_bounded;
use crate::vec3::{Vec3q, dot3, bounded, vnormalize, vneg, lemma_dot3_neg};

/// The generator: one 32-bit word of state, mutated by every draw.
pub struct RandomSauce {
    pub state: u32,
}

/// One step of the PCG state transition (mod 2^32).
pub open spec fn pcg_state(s: u32) -> u32 {
    (((s as int) * 747796405 + 2891336453) % 0x100000000) as u32
}

/// The output word derived from a state.
pub open spec fn pcg_out(s: u32) -> u32 {
    let x = (s >> (((s >> 28) + 4) as u32)) ^ s;
    let w = (((x as int) * 277803737) % 0x100000000) as u32;
    (w >> 22) ^ w
}

/// The state after one draw.
pub open spec fn next_state(s: u32) -> u32 {
    pcg_state(s)
}

/// The Q16.16 fraction in [0, 1) that one draw from state s yields.
pub open spec fn next_frac(s: u32) -> int {
    (pcg_out(pcg_state(s)) >> 16) as int
}

/// The seed for a pixel and frame.
pub open spec fn seed_mix(px: u32, py: u32, frame: u32) -> u32 {
    ((((px as int) + (py as int) * 65536) % 0x100000000) as u32) ^ (((
    frame as int) * 1337 % 0x100000000) as u32)
}

/// The value of one draw in [min, max].
pub open spec fn rand_range_val(s: u32, min: int, max: int) -> int {
    min + fxm(next_frac(s), max - min)
}

/// A random point on the unit sphere, by bounded rejection: up to `tries`
/// candidate vectors are drawn uniformly from [-1, 1]^3 and the first whose
/// squared length lies in [2^-6, 1] is normalized; if every candidate is
/// rejected (probability below 2^-30 for 32 tries) the +y unit vector is
/// returned.
pub open spec fn unit_sphere_spec(s: u32, tries: nat) -> (Vec3q, u32)
    decreases tries,
{
    if tries == 0 {
        (Vec3q { x: 0, y: 65536, z: 0 }, s)
    } else {
        let v = Vec3q {
            x: rand_range_val(s, -65536, 65536) as i64,
            y: rand_range_val(next_state(s), -65536, 65536) as i64,
            z: rand_range_val(next_state(next_state(s)), -65536, 65536) as i64,
        };
        let s3 = next_state(next_state(next_state(s)));
        let l2 = dot3(v, v);
        if 0x4000000 <= l2 <= 0x100000000 {
            (vnormalize(v), s3)
        } else {
            unit_sphere_spec(s3, (tries - 1) as nat)
        }
    }
}

/// A random direction in the hemisphere around a normal: a unit-sphere
/// point, negated if it points against the normal.
pub open spec fn hemisphere_spec(s: u32, normal: Vec3q) -> (Vec3q, u32) {
    let (on, s1) = unit_sphere_spec(s, 32);
    if dot3(on, normal) > 0 {
        (on, s1)
    } else {
        (vneg(on), s1)
    }
}

/// A drawn fraction lies in [0, 1).
pub proof fn lemma_next_frac_range(s: u32)
    ensures
        0 <= next_frac(s) < 65536,
{
    let w = pcg_out(pcg_state(s));
    assert(w >> 16 < 65536u32) by (bit_vector);
}

/// A ranged draw lies in [min, max].
pub proof fn lemma_rand_range_val_in(s: u32, min: int, max: int)
    requires
        min <= max,
    ensures
        min <= rand_range_val(s, min, max) <= max,
{
    lemma_next_frac_range(s);
    lemma_fxm_le_right(next_frac(s), max - min);
}

/// A unit-sphere point has every component within one.
pub proof fn lemma_unit_sphere_bounded(s: u32, tries: nat)
    ensures
        bounded(unit_sphere_spec(s, tries).0, 65536),
    decreases tries,
{
    if tries > 0 {
        lemma_rand_range_val_in(s, -65536, 65536);
        lemma_rand_range_val_in(next_state(s), -65536, 65536);
        lemma_rand_range_val_in(next_state(next_state(s)), -65536, 65536);
        let v = Vec3q {
            x: rand_range_val(s, -65536, 65536) as i64,
            y: rand_range_val(next_state(s), -65536, 65536) as i64,
            z: rand_range_val(next_state(next_state(s)), -65536, 65536) as i64,
        };
        let l2 = dot3(v, v);
        if 0x4000000 <= l2 <= 0x100000000 {
            lemma_vnormalize_bounded(v);
        } else {
            lemma_unit_sphere_bounded(next_state(next_state(next_state(s))), (tries - 1) as nat);
        }
    }
}

impl RandomSauce {
    /// Seed from a pixel coordinate and the frame counter.
    pub fn new(px: u32, py: u32, frame: u32) -> (rng: RandomSauce)
        ensures
            rng.state == seed_mix(px, py, frame),
    {
        let a: u64 = px as u64 + (py as u64) * 65536;
        let a32: u32 = (a % 0x100000000) as u32;
        let b: u64 = (frame as u64) * 1337;
        let b32: u32 = (b % 0x100000000) as u32;
        RandomSauce { state: a32 ^ b32 }
    }

    /// One draw of the PCG hash: advance the state, return the output word.
    pub fn rand_u(&mut self) -> (r: u32)
        ensures
            final(self).state == pcg_state(old(self).state),
            r == pcg_out(final(self).state),
    {
        let s64: u64 = (self.state as u64) * 747796405 + 2891336453;
        let ns: u32 = (s64 % 0x100000000) as u32;
        self.state = ns;
        proof {
            assert(ns >> 28 < 16u32) by (bit_vector);
        }
        let sh: u32 = (ns >> 28) + 4;
        let x: u32 = (ns >> sh) ^ ns;
        let w64: u64 = (x as u64) * 277803737;
        let w: u32 = (w64 % 0x100000000) as u32;
        (w >> 22) ^ w
    }

    /// A uniform Q16.16 fraction in [0, 1): the top 16 bits of one draw.
    pub fn rand_f(&mut self) -> (r: i64)
        ensures
            final(self).state == next_state(old(self).state),
            r == next_frac(old(self).state),
            0 <= r < 65536,
    {
        let w: u32 = self.rand_u();
        proof {
            assert(w >> 16 < 65536u32) by (bit_vector);
        }
        (w >> 16) as i64
    }

    /// A uniform Q16.16 scalar in [min, max].
    pub fn rand_f_range(&mut self, min: i64, max: i64) -> (r: i64)
        requires
            -0x80000000 <= min <= max <= 0x80000000,
        ensures
            final(self).state == next_state(old(self).state),
            r == rand_range_val(old(self).state, min as int, max as int),
            min <= r <= max,
    {
        let f: i64 = self.rand_f();
        proof {
            lemma_fxm_le_right(f as int, max - min);
        }
        min + fx_mul(f, max - min)
    }

    /// A vector with three fraction components in [0, 1).
    pub fn rand_vec3(&mut self) -> (r: Vec3q)
        ensures
            final(self).state == next_state(next_state(next_state(old(self).state))),
            r.x == next_frac(old(self).state),
            r.y == next_frac(next_state(old(self).state)),
            r.z == next_frac(next_state(next_state(old(self).state))),
            bounded(r, 65536),
    {
        let x: i64 = self.rand_f();
        let y: i64 = self.rand_f();
        let z: i64 = self.rand_f();
        Vec3q { x, y, z }
    }

    /// A vector with three components uniform in [min, max].
    pub fn rand_vec3_range(&mut self, min: i64, max: i64) -> (r: Vec3q)
        requires
            -0x80000000 <= min <= max <= 0x80000000,
        ensures
            final(self).state == next_state(next_state(next_state(old(self).state))),
            r.x == rand_range_val(old(self).state, min as int, max as int),
            r.y == rand_range_val(next_state(old(self).state), min as int, max as int),
            r.z == rand_range_val(next_state(next_state(old(self).state)), min as int, max as int),
            min <= r.x <= max,
            min <= r.y <= max,
            min <= r.z <= max,
    {
        let x: i64 = self.rand_f_range(min, max);
        let y: i64 = self.rand_f_range(min, max);
        let z: i64 = self.rand_f_range(min, max);
        Vec3q { x, y, z }
    }

    /// A random point on the unit sphere (see `unit_sphere_spec`).
    pub fn rand_unit_vec3(&mut self) -> (r: Vec3q)
        ensures
            r == unit_sphere_spec(old(self).state, 32).0,
            final(self).state == unit_sphere_spec(old(self).state, 32).1,
            bounded(r, 65536),
    {
        let mut i: u32 = 0;
        while i < 32
            invariant
                i <= 32,
                unit_sphere_spec(old(self).state, 32) == unit_sphere_spec(
                    self.state,
                    (32 - i) as nat,
                ),
            decreases 32 - i,
        {
            let v: Vec3q = self.rand_vec3_range(-65536, 65536);
            let l2: i64 = v.dot(v);
            if 0x4000000 <= l2 && l2 <= 0x100000000 {
                return v.normalize();
            }
            i = i + 1;
        }
        Vec3q { x: 0, y: 65536, z: 0 }
    }

    /// A random direction in the hemisphere around `normal`: the returned
    /// direction never points against the normal.
    pub fn rand_hemisphere_vec3(&mut self, normal: Vec3q) -> (r: Vec3q)
        requires
            bounded(normal, 0x40000000),
        ensures
            r == hemisphere_spec(old(self).state, normal).0,
            final(self).state == hemisphere_spec(old(self).state, normal).1,
            dot3(r, normal) >= 0,
            bounded(r, 65536),
    {
        let on: Vec3q = self.rand_unit_vec3();
        let d: i64 = on.dot(normal);
        if d > 0 {
            on
        } else {
            proof {
                lemma_dot3_neg(on, normal);
            }
            on.neg()
        }
    }
}

} // verus!
