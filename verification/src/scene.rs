//! The scene: a fixed ordered list of tagged primitives, queried for the
//! nearest hit along a ray.
//!
//! The query walks every primitive once, testing each against a shrinking
//! upper bound (the best parameter found so far), and returns the nearest
//! valid hit or nothing.  `lemma_scene_hit_nearest` states what that fold
//! achieves: the reported hit is one primitive's hit over the full interval,
//! and no primitive hits strictly closer.

use vstd::prelude::*;

verus! {

use vstd::arithmetic::div_mod::lemma_div_is_ordered;
use crate::vec3::{dot3, bounded};
use crate::ray::{Ray, HitData, ray_wf};
use crate::material::mat_wf;
use crate::primitive::{
    Sphere, Plane, sphere_wf, plane_wf, sphere_hit_spec, plane_hit_spec, sphere_sq, sphere_t1,
    sphere_t2, sphere_hb, sphere_a,
};
use crate::fixed::lemma_sqrt_floor_bounds;

/// A tagged scene primitive.
#[derive(Clone, Copy, PartialEq, Eq, Structural, Debug)]
pub enum Primitive {
    Sphere(Sphere),
    Plane(Plane),
}

pub open spec fn prim_wf(p: Primitive) -> bool {
    match p {
        Primitive::Sphere(s) => sphere_wf(s),
        Primitive::Plane(pl) => plane_wf(pl),
    }
}

/// What one primitive's test returns over a closed parameter interval.
pub open spec fn prim_hit_spec(p: Primitive, r: Ray, t_min: int, t_max: int) -> Option<HitData> {
    match p {
        Primitive::Sphere(s) => sphere_hit_spec(s, r, t_min, t_max),
        Primitive::Plane(pl) => plane_hit_spec(pl, r, t_min, t_max),
    }
}

impl Primitive {
    /// Intersect a ray with this primitive.
    pub fn hit(&self, r: &Ray, t_min: i64, t_max: i64) -> (res: Option<HitData>)
        requires
            prim_wf(*self),
            ray_wf(*r),
            -0x200000000000 <= t_min,
            t_max <= 0x200000000000,
        ensures
            res == prim_hit_spec(*self, *r, t_min as int, t_max as int),
            match res {
                Some(h) => {
                    &&& dot3(h.normal, r.direction) <= 0
                    &&& bounded(h.point, 0x10000000)
                    &&& bounded(h.normal, 65536)
                    &&& t_min <= h.t <= t_max
                    &&& mat_wf(h.material)
                },
                None => true,
            },
    {
        match self {
            Primitive::Sphere(s) => s.hit(r, t_min, t_max),
            Primitive::Plane(pl) => pl.hit(r, t_min, t_max),
        }
    }
}

/// The fold the scene query performs, starting at index i with the best
/// record found so far and its parameter as the shrunk upper bound.
pub open spec fn scene_hit_from(
    ps: Seq<Primitive>,
    i: int,
    r: Ray,
    t_min: int,
    closest: int,
    best: Option<HitData>,
) -> Option<HitData>
    decreases ps.len() - i,
{
    if i < 0 || i >= ps.len() {
        best
    } else {
        match prim_hit_spec(ps[i], r, t_min, closest) {
            Some(h) => scene_hit_from(ps, i + 1, r, t_min, h.t as int, Some(h)),
            None => scene_hit_from(ps, i + 1, r, t_min, closest, best),
        }
    }
}

/// The nearest hit of a whole primitive list over [t_min, t_max].
pub open spec fn scene_hit_spec(ps: Seq<Primitive>, r: Ray, t_min: int, t_max: int) -> Option<
    HitData,
> {
    scene_hit_from(ps, 0, r, t_min, t_max, None)
}

pub open spec fn scene_wf_seq(ps: Seq<Primitive>) -> bool {
    forall|i: int| 0 <= i < ps.len() ==> prim_wf(#[trigger] ps[i])
}

/// A scene: the ordered list of primitives a frame renders.
pub struct Scene {
    pub prims: Vec<Primitive>,
}

impl Scene {
    pub open spec fn wf(&self) -> bool {
        scene_wf_seq(self.prims@)
    }

    pub fn new(prims: Vec<Primitive>) -> (s: Scene)
        ensures
            s.prims@ == prims@,
    {
        Scene { prims }
    }

    /// The nearest hit along a ray, or nothing: every primitive is tested
    /// against the best parameter found so far.  The result is one
    /// primitive's hit over the full interval, no primitive hits strictly
    /// closer, and a reported normal never points with the ray.
    pub fn hit(&self, r: &Ray, t_min: i64, t_max: i64) -> (res: Option<HitData>)
        requires
            self.wf(),
            ray_wf(*r),
            -0x200000000000 <= t_min <= t_max <= 0x200000000000,
        ensures
            res == scene_hit_spec(self.prims@, *r, t_min as int, t_max as int),
            match res {
                Some(h) => {
                    &&& dot3(h.normal, r.direction) <= 0
                    &&& bounded(h.point, 0x10000000)
                    &&& bounded(h.normal, 65536)
                    &&& t_min <= h.t <= t_max
                    &&& mat_wf(h.material)
                    &&& exists|j: int|
                        0 <= j < self.prims@.len() && prim_hit_spec(
                            #[trigger] self.prims@[j],
                            *r,
                            t_min as int,
                            t_max as int,
                        ) == Some(h)
                    &&& forall|j: int|
                        0 <= j < self.prims@.len() ==> (match prim_hit_spec(
                            #[trigger] self.prims@[j],
                            *r,
                            t_min as int,
                            t_max as int,
                        ) {
                            Some(h2) => h.t <= h2.t,
                            None => true,
                        })
                },
                None => forall|j: int|
                    0 <= j < self.prims@.len() ==> prim_hit_spec(
                        #[trigger] self.prims@[j],
                        *r,
                        t_min as int,
                        t_max as int,
                    ) == None::<HitData>,
            },
    {
        proof {
            lemma_scene_hit_nearest(self.prims@, *r, t_min as int, t_max as int);
        }
        let ghost ps = self.prims@;
        let mut best: Option<HitData> = None;
        let mut closest: i64 = t_max;
        let n: usize = self.prims.len();
        let mut i: usize = 0;
        while i < n
            invariant
                i <= n,
                n == ps.len(),
                ps == self.prims@,
                self.wf(),
                ray_wf(*r),
                -0x200000000000 <= t_min <= closest <= t_max <= 0x200000000000,
                scene_hit_spec(ps, *r, t_min as int, t_max as int) == scene_hit_from(
                    ps,
                    i as int,
                    *r,
                    t_min as int,
                    closest as int,
                    best,
                ),
                match best {
                    Some(h) => {
                        &&& closest == h.t
                        &&& dot3(h.normal, r.direction) <= 0
                        &&& bounded(h.point, 0x10000000)
                        &&& bounded(h.normal, 65536)
                        &&& t_min <= h.t <= t_max
                        &&& mat_wf(h.material)
                    },
                    None => closest == t_max,
                },
            decreases n - i,
        {
            let p: Primitive = self.prims[i];
            match p.hit(r, t_min, closest) {
                Some(h) => {
                    best = Some(h);
                    closest = h.t;
                },
                None => {},
            }
            i = i + 1;
        }
        best
    }
}

/// Shrinking the upper bound filters a primitive's hit by its parameter:
/// the narrow test returns exactly the full test's hit when that hit is
/// within the narrower bound, and nothing otherwise.
pub proof fn lemma_prim_hit_narrow(p: Primitive, r: Ray, t_min: int, c: int, t_max: int)
    requires
        -0x200000000000 <= t_min,
        c <= t_max <= 0x200000000000,
    ensures
        prim_hit_spec(p, r, t_min, c) == (match prim_hit_spec(p, r, t_min, t_max) {
            Some(h) => if h.t <= c {
                Some(h)
            } else {
                None::<HitData>
            },
            None => None::<HitData>,
        }),
{
    match p {
        Primitive::Sphere(s) => {
            if sphere_a(r) > 0 && sphere_disc_nonneg(s, r) {
                lemma_sphere_roots_ordered(s, r);
            }
        },
        Primitive::Plane(pl) => {},
    }
}

/// Whether the discriminant admits real roots.
pub open spec fn sphere_disc_nonneg(s: Sphere, r: Ray) -> bool {
    crate::primitive::sphere_disc(s, r) >= 0
}

/// The smaller root never exceeds the larger one.
pub proof fn lemma_sphere_roots_ordered(s: Sphere, r: Ray)
    requires
        sphere_a(r) > 0,
        sphere_disc_nonneg(s, r),
    ensures
        sphere_sq(s, r) >= 0,
        sphere_t1(s, r) <= sphere_t2(s, r),
{
    lemma_sqrt_floor_bounds(crate::primitive::sphere_disc(s, r) as nat);
    let hb = sphere_hb(s, r);
    let sq = sphere_sq(s, r);
    let a = sphere_a(r);
    lemma_div_is_ordered((-hb - sq) * 65536, (-hb + sq) * 65536, a);
}

/// Every hit a primitive reports lies within the queried interval.
pub proof fn lemma_prim_hit_t_range(p: Primitive, r: Ray, t_min: int, t_max: int)
    requires
        -0x200000000000 <= t_min,
        t_max <= 0x200000000000,
    ensures
        match prim_hit_spec(p, r, t_min, t_max) {
            Some(h) => t_min <= h.t <= t_max,
            None => true,
        },
{
}

/// What the scene fold achieves from index i on, given what the prefix
/// established: the result is some primitive's hit over the full interval,
/// and no primitive's full-interval hit is strictly closer.
proof fn lemma_scene_from_nearest(
    ps: Seq<Primitive>,
    i: int,
    r: Ray,
    t_min: int,
    closest: int,
    best: Option<HitData>,
    t_max: int,
)
    requires
        0 <= i <= ps.len(),
        -0x200000000000 <= t_min <= closest <= t_max <= 0x200000000000,
        match best {
            Some(h) => {
                &&& closest == h.t
                &&& exists|j: int|
                    0 <= j < i && prim_hit_spec(#[trigger] ps[j], r, t_min, t_max) == Some(h)
                &&& forall|j: int|
                    0 <= j < i ==> (match prim_hit_spec(#[trigger] ps[j], r, t_min, t_max) {
                        Some(h2) => h.t <= h2.t,
                        None => true,
                    })
            },
            None => {
                &&& closest == t_max
                &&& forall|j: int|
                    0 <= j < i ==> prim_hit_spec(#[trigger] ps[j], r, t_min, t_max) == None::<
                    HitData,
                    >
            },
        },
    ensures
        match scene_hit_from(ps, i, r, t_min, closest, best) {
            Some(h) => {
                &&& exists|j: int|
                    0 <= j < ps.len() && prim_hit_spec(#[trigger] ps[j], r, t_min, t_max) == Some(h)
                &&& forall|j: int|
                    0 <= j < ps.len() ==> (match prim_hit_spec(#[trigger] ps[j], r, t_min, t_max) {
                        Some(h2) => h.t <= h2.t,
                        None => true,
                    })
            },
            None => forall|j: int|
                0 <= j < ps.len() ==> prim_hit_spec(#[trigger] ps[j], r, t_min, t_max) == None::<
                HitData,
                >,
        },
    decreases ps.len() - i,
{
    if i < ps.len() {
        lemma_prim_hit_narrow(ps[i], r, t_min, closest, t_max);
        lemma_prim_hit_t_range(ps[i], r, t_min, t_max);
        match prim_hit_spec(ps[i], r, t_min, closest) {
            Some(h) => {
                assert(prim_hit_spec(ps[i], r, t_min, t_max) == Some(h));
                lemma_scene_from_nearest(ps, i + 1, r, t_min, h.t as int, Some(h), t_max);
            },
            None => {
                lemma_scene_from_nearest(ps, i + 1, r, t_min, closest, best, t_max);
            },
        }
    }
}

/// Nearest-hit selection: when the scene query reports a hit, it is the hit
/// of one of the primitives over the full interval, and no primitive's hit
/// over that interval has a smaller parameter; when it reports nothing, no
/// primitive hits at all.
pub proof fn lemma_scene_hit_nearest(ps: Seq<Primitive>, r: Ray, t_min: int, t_max: int)
    requires
        -0x200000000000 <= t_min <= t_max <= 0x200000000000,
    ensures
        match scene_hit_spec(ps, r, t_min, t_max) {
            Some(h) => {
                &&& exists|j: int|
                    0 <= j < ps.len() && prim_hit_spec(#[trigger] ps[j], r, t_min, t_max) == Some(h)
                &&& forall|j: int|
                    0 <= j < ps.len() ==> (match prim_hit_spec(#[trigger] ps[j], r, t_min, t_max) {
                        Some(h2) => h.t <= h2.t,
                        None => true,
                    })
            },
            None => forall|j: int|
                0 <= j < ps.len() ==> prim_hit_spec(#[trigger] ps[j], r, t_min, t_max) == None::<
                HitData,
                >,
        },
{
    lemma_scene_from_nearest(ps, 0, r, t_min, t_max, None, t_max);
}

/// A primitive's material.
pub open spec fn prim_material(p: Primitive) -> crate::material::Material {
    match p {
        Primitive::Sphere(s) => s.material,
        Primitive::Plane(pl) => pl.material,
    }
}

/// Every hit a well-formed primitive reports carries its material, an
/// in-bounds point, a unit-range normal, and a parameter in the interval.
pub proof fn lemma_prim_hit_props(p: Primitive, r: Ray, t_min: int, t_max: int)
    requires
        prim_wf(p),
        -0x200000000000 <= t_min,
        t_max <= 0x200000000000,
    ensures
        match prim_hit_spec(p, r, t_min, t_max) {
            Some(h) => {
                &&& mat_wf(h.material)
                &&& h.material == prim_material(p)
                &&& bounded(h.point, 0x10000000)
                &&& bounded(h.normal, 65536)
                &&& t_min <= h.t <= t_max
            },
            None => true,
        },
{
}

/// Every hit a well-formed scene reports carries a well-formed material, an
/// in-bounds point, a unit-range normal, and a parameter in the interval.
pub proof fn lemma_scene_hit_props(ps: Seq<Primitive>, r: Ray, t_min: int, t_max: int)
    requires
        scene_wf_seq(ps),
        -0x200000000000 <= t_min <= t_max <= 0x200000000000,
    ensures
        match scene_hit_spec(ps, r, t_min, t_max) {
            Some(h) => {
                &&& mat_wf(h.material)
                &&& bounded(h.point, 0x10000000)
                &&& bounded(h.normal, 65536)
                &&& t_min <= h.t <= t_max
            },
            None => true,
        },
{
    lemma_scene_hit_nearest(ps, r, t_min, t_max);
    match scene_hit_spec(ps, r, t_min, t_max) {
        Some(h) => {
            let j = choose|j: int|
                0 <= j < ps.len() && prim_hit_spec(#[trigger] ps[j], r, t_min, t_max) == Some(h);
            lemma_prim_hit_props(ps[j], r, t_min, t_max);
        },
        None => {},
    }
}

} // verus!
