//! The path integrator: the bounded bounce loop.
//!
//! A path keeps a running throughput (initially white) and accumulated light
//! (initially black).  Each of up to `max_depth` iterations intersects the
//! current ray with the scene over [T_MIN_EPS, T_CAP]; on a hit it scatters,
//! adds throughput times the hit material's emission, multiplies the
//! throughput by the attenuation and continues; on a miss it adds throughput
//! times the background and stops — the only early exit.  A path that runs
//! out of bounces contributes whatever light it accumulated.

use vstd::prelude::*;

verus! {

use crate::color::{
    Color, cin, cadd, cmul, cwhite, cblack,
};
use crate::fixed::{lemma_fxm_le_right, lemma_fxm_unit, lemma_fxm_range, lemma_fxm_one, lemma_div_exact};
use crate::vec3::bounded;
use crate::ray::{Ray, ray_wf};
use crate::material::{mat_wf, emit_spec, scatter_spec};
use crate::rng::RandomSauce;
use crate::scene::{
    Primitive, Scene, scene_wf_seq, scene_hit_spec, lemma_scene_hit_props,
};

/// The intersection interval every bounce queries: a small epsilon
/// (7/65536, about 0.0001, so a scattered ray does not re-hit its own
/// surface) up to the crate's parameter cap.
pub const T_MIN_EPS: i64 = 7;

/// The light a path gathers, and the generator state it leaves behind,
/// starting from a throughput and an accumulator.
pub open spec fn trace_spec(
    ps: Seq<Primitive>,
    r: Ray,
    s: u32,
    depth: nat,
    bg: Color,
    thr: Color,
    acc: Color,
) -> (Color, u32)
    decreases depth,
{
    if depth == 0 {
        (acc, s)
    } else {
        match scene_hit_spec(ps, r, 7, 0x200000000000) {
            Some(h) => {
                let (nr, att, s1) = scatter_spec(h.material, r, h, s);
                let acc1 = cadd(acc, cmul(thr, emit_spec(h.material)));
                let thr1 = cmul(thr, att);
                trace_spec(ps, nr, s1, (depth - 1) as nat, bg, thr1, acc1)
            },
            None => (cadd(acc, cmul(thr, bg)), s),
        }
    }
}

/// Trace a path: up to `max_depth` bounces, background on a miss.
pub fn ray_color(
    r: Ray,
    scene: &Scene,
    rng: &mut RandomSauce,
    max_depth: u32,
    background: Color,
) -> (light: Color)
    requires
        scene.wf(),
        ray_wf(r),
        max_depth <= 1024,
        cin(background, 65536),
    ensures
        (light, final(rng).state) == trace_spec(
            scene.prims@,
            r,
            old(rng).state,
            max_depth as nat,
            background,
            cwhite(),
            cblack(),
        ),
        cin(light, 0x2000000000),
{
    let ghost ps = scene.prims@;
    let mut cur: Ray = r;
    let mut thr: Color = Color::white();
    let mut acc: Color = Color::black();
    let mut d: u32 = 0;
    while d < max_depth
        invariant
            d <= max_depth,
            max_depth <= 1024,
            ps == scene.prims@,
            scene.wf(),
            cin(background, 65536),
            ray_wf(cur),
            cin(thr, 65536),
            cin(acc, d * 0x4000000),
            trace_spec(ps, r, old(rng).state, max_depth as nat, background, cwhite(), cblack())
                == trace_spec(ps, cur, rng.state, (max_depth - d) as nat, background, thr, acc),
        decreases max_depth - d,
    {
        match scene.hit(&cur, T_MIN_EPS, crate::ray::T_CAP) {
            Some(h) => {
                let (nr, att) = h.material.scatter(&cur, &h, rng);
                let emitted: Color = h.material.emit();
                proof {
                    lemma_fxm_le_right(thr.r as int, emitted.r as int);
                    lemma_fxm_le_right(thr.g as int, emitted.g as int);
                    lemma_fxm_le_right(thr.b as int, emitted.b as int);
                    lemma_fxm_unit(thr.r as int, att.r as int);
                    lemma_fxm_unit(thr.g as int, att.g as int);
                    lemma_fxm_unit(thr.b as int, att.b as int);
                }
                acc = acc.add(thr.mul(emitted));
                thr = thr.mul(att);
                cur = nr;
            },
            None => {
                proof {
                    lemma_fxm_le_right(thr.r as int, background.r as int);
                    lemma_fxm_le_right(thr.g as int, background.g as int);
                    lemma_fxm_le_right(thr.b as int, background.b as int);
                }
                let out: Color = acc.add(thr.mul(background));
                return out;
            },
        }
        d = d + 1;
    }
    acc
}

/// Energy non-negativity, with bounds both ways: starting from a throughput
/// within one and an accumulator within acc_hi, a path over a well-formed
/// scene with a background within one gathers light with every channel in
/// [0, acc_hi + depth * 2^26 + 2^16] — never negative — and never below the
/// light already accumulated: bounces only add.
pub proof fn lemma_trace_bounds(
    ps: Seq<Primitive>,
    r: Ray,
    s: u32,
    depth: nat,
    bg: Color,
    thr: Color,
    acc: Color,
    acc_hi: int,
)
    requires
        scene_wf_seq(ps),
        cin(bg, 65536),
        cin(thr, 65536),
        cin(acc, acc_hi),
        0 <= acc_hi,
        acc_hi + depth * 0x4000000 + 65536 <= 0x4000000000000000,
    ensures
        cin(trace_spec(ps, r, s, depth, bg, thr, acc).0, acc_hi + depth * 0x4000000 + 65536),
        trace_spec(ps, r, s, depth, bg, thr, acc).0.r >= acc.r,
        trace_spec(ps, r, s, depth, bg, thr, acc).0.g >= acc.g,
        trace_spec(ps, r, s, depth, bg, thr, acc).0.b >= acc.b,
    decreases depth,
{
    if depth == 0 {
    } else {
        lemma_scene_hit_props(ps, r, 7, 0x200000000000);
        match scene_hit_spec(ps, r, 7, 0x200000000000) {
            Some(h) => {
                let (nr, att, s1) = scatter_spec(h.material, r, h, s);
                let em = emit_spec(h.material);
                lemma_fxm_range(h.material.color.r as int, h.material.emission as int, 65536, 0x4000000);
                lemma_fxm_range(h.material.color.g as int, h.material.emission as int, 65536, 0x4000000);
                lemma_fxm_range(h.material.color.b as int, h.material.emission as int, 65536, 0x4000000);
                lemma_div_exact(0x4000000, 65536);
                assert(65536int * 0x4000000int == 0x4000000int * 65536int);
                lemma_fxm_le_right(thr.r as int, em.r as int);
                lemma_fxm_le_right(thr.g as int, em.g as int);
                lemma_fxm_le_right(thr.b as int, em.b as int);
                lemma_fxm_unit(thr.r as int, att.r as int);
                lemma_fxm_unit(thr.g as int, att.g as int);
                lemma_fxm_unit(thr.b as int, att.b as int);
                let acc1 = cadd(acc, cmul(thr, em));
                let thr1 = cmul(thr, att);
                lemma_trace_bounds(ps, nr, s1, (depth - 1) as nat, bg, thr1, acc1, acc_hi + 0x4000000);
            },
            None => {
                lemma_fxm_le_right(thr.r as int, bg.r as int);
                lemma_fxm_le_right(thr.g as int, bg.g as int);
                lemma_fxm_le_right(thr.b as int, bg.b as int);
            },
        }
    }
}

/// Over an empty scene every path terminates at once into the background:
/// the gathered light is exactly the background color (the initial white
/// throughput filters nothing), and one miss consumes no randomness.
pub proof fn lemma_trace_empty(ps: Seq<Primitive>, r: Ray, s: u32, depth: nat, bg: Color)
    requires
        ps.len() == 0,
        depth >= 1,
        cin(bg, 65536),
    ensures
        trace_spec(ps, r, s, depth, bg, cwhite(), cblack()) == (bg, s),
{
    lemma_fxm_one(bg.r as int);
    lemma_fxm_one(bg.g as int);
    lemma_fxm_one(bg.b as int);
    assert(cmul(cwhite(), bg) == bg);
    assert(cadd(cblack(), cmul(cwhite(), bg)) == bg);
}

/// Whatever the bounce limit, a path whose primary ray hits collects at
/// least the hit material's emitted light: the first bounce adds it under
/// the full white throughput, and later bounces only add.
pub proof fn lemma_trace_collects_first_emission(
    ps: Seq<Primitive>,
    r: Ray,
    s: u32,
    depth: nat,
    bg: Color,
    h: crate::ray::HitData,
)
    requires
        scene_wf_seq(ps),
        cin(bg, 65536),
        1 <= depth <= 1024,
        scene_hit_spec(ps, r, 7, 0x200000000000) == Some(h),
    ensures
        trace_spec(ps, r, s, depth, bg, cwhite(), cblack()).0.r >= emit_spec(h.material).r,
        trace_spec(ps, r, s, depth, bg, cwhite(), cblack()).0.g >= emit_spec(h.material).g,
        trace_spec(ps, r, s, depth, bg, cwhite(), cblack()).0.b >= emit_spec(h.material).b,
{
    lemma_scene_hit_props(ps, r, 7, 0x200000000000);
    let em = emit_spec(h.material);
    lemma_fxm_range(h.material.color.r as int, h.material.emission as int, 65536, 0x4000000);
    lemma_fxm_range(h.material.color.g as int, h.material.emission as int, 65536, 0x4000000);
    lemma_fxm_range(h.material.color.b as int, h.material.emission as int, 65536, 0x4000000);
    lemma_div_exact(0x4000000, 65536);
    assert(65536int * 0x4000000int == 0x4000000int * 65536int);
    lemma_fxm_one(em.r as int);
    lemma_fxm_one(em.g as int);
    lemma_fxm_one(em.b as int);
    assert(cmul(cwhite(), em) == em);
    assert(cadd(cblack(), em) == em);
    let tup = scatter_spec(h.material, r, h, s);
    lemma_fxm_unit(65536, h.material.color.r as int);
    lemma_fxm_unit(65536, h.material.color.g as int);
    lemma_fxm_unit(65536, h.material.color.b as int);
    lemma_trace_bounds(
        ps,
        tup.0,
        tup.2,
        (depth - 1) as nat,
        bg,
        cmul(cwhite(), tup.1),
        em,
        0x4000000,
    );
}

/// With a bounce limit of one, a path whose primary ray hits gathers exactly
/// the hit material's emitted light: the loop adds white-filtered emission
/// and then runs out of bounces.
#[verifier::rlimit(60)]
pub proof fn lemma_trace_depth_one_emits(
    ps: Seq<Primitive>,
    r: Ray,
    s: u32,
    bg: Color,
    h: crate::ray::HitData,
)
    requires
        scene_wf_seq(ps),
        scene_hit_spec(ps, r, 7, 0x200000000000) == Some(h),
    ensures
        trace_spec(ps, r, s, 1, bg, cwhite(), cblack()).0 == emit_spec(h.material),
{
    lemma_scene_hit_props(ps, r, 7, 0x200000000000);
    let em = emit_spec(h.material);
    lemma_fxm_range(h.material.color.r as int, h.material.emission as int, 65536, 0x4000000);
    lemma_fxm_range(h.material.color.g as int, h.material.emission as int, 65536, 0x4000000);
    lemma_fxm_range(h.material.color.b as int, h.material.emission as int, 65536, 0x4000000);
    lemma_div_exact(0x4000000, 65536);
    assert(65536int * 0x4000000int == 0x4000000int * 65536int);
    lemma_fxm_one(em.r as int);
    lemma_fxm_one(em.g as int);
    lemma_fxm_one(em.b as int);
    assert(cmul(cwhite(), em) == em);
    assert(cadd(cblack(), em) == em);
    let tup = scatter_spec(h.material, r, h, s);
    assert(trace_spec(ps, r, s, 1, bg, cwhite(), cblack()) == trace_spec(
        ps,
        tup.0,
        tup.2,
        0,
        bg,
        cmul(cwhite(), tup.1),
        em,
    ));
}

} // verus!
