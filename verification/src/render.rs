//! The per-pixel driver: jittered multi-sample accumulation, averaging and
//! gamma encoding, fed by the per-frame configuration snapshot.
//!
//! For each sample the pixel's position is jittered by a uniform sub-pixel
//! offset, the camera maps it to a primary ray, the path integrator gathers
//! that ray's light, and the samples' sum is divided by the sample count;
//! the average is held to [0, 1] and gamma-encoded.  A sample count of zero
//! renders black rather than dividing by zero.

use vstd::prelude::*;

verus! {

use crate::fixed::{lemma_fxm_abs, lemma_div_exact};
use crate::vec3::{Vec3q, bounded, vadd, vsub, vscale, clamp_vec3};
use crate::color::{Color, cin, cadd, cdiv, cwhite, cblack, csrgb};
use crate::ray::{Ray, ray_wf};
use crate::rng::{RandomSauce, next_state, next_frac, seed_mix};
use crate::camera::{Camera, cam_wf, cam_first, cam_pdu, cam_pdv};
use crate::scene::{Primitive, Scene, scene_wf_seq};
use crate::trace::{trace_spec, ray_color, lemma_trace_empty};

/// The configuration snapshot the host pushes once per frame, consumed
/// read-only by every pixel of that frame.
pub struct ShaderConsts {
    /// Bounce limit of the path integrator.
    pub bounce_limit: u32,
    /// Frame counter, a seed ingredient.
    pub time: u32,
    /// Viewport width in pixels.
    pub width: u32,
    /// Viewport height in pixels.
    pub height: u32,
    /// Samples per pixel.
    pub samples: u32,
    /// tan(fov/2) in Q16.16.
    pub tan_half_fov: i64,
    /// Camera position.
    pub pos: Vec3q,
    /// Unit forward vector of the camera pose.
    pub forward: Vec3q,
    /// The color a missing ray resolves to.
    pub background: Color,
}

/// A snapshot the kernel accepts.
pub open spec fn consts_wf(c: ShaderConsts) -> bool {
    &&& 1 <= c.width <= 4096
    &&& 1 <= c.height <= 4096
    &&& c.samples <= 65536
    &&& c.bounce_limit <= 1024
    &&& 0 <= c.tan_half_fov <= 0x40000
    &&& bounded(c.pos, 0x10000000)
    &&& bounded(c.forward, 65536)
    &&& (c.forward.x != 0 || c.forward.z != 0)
    &&& cin(c.background, 65536)
}

/// The camera a snapshot describes.
pub open spec fn camera_of(c: ShaderConsts) -> Camera {
    Camera {
        width: c.width,
        height: c.height,
        samples: c.samples,
        tan_half_fov: c.tan_half_fov,
        pos: c.pos,
        forward: c.forward,
    }
}

/// The jittered horizontal sample coordinate: the pixel index plus a
/// fraction in [0, 1) — the pixel center offset by a uniform value in
/// [-1/2, 1/2).
pub open spec fn sample_sx(px: u32, s: u32) -> int {
    (px as int) * 65536 + next_frac(s)
}

/// The jittered vertical sample coordinate, measured from the bottom of the
/// viewport (the second draw of the sample).
pub open spec fn sample_sy(c: ShaderConsts, py: u32, s: u32) -> int {
    (c.height as int) * 65536 - ((py as int) * 65536 + next_frac(next_state(s)))
}

/// The world position on the near plane that one sample aims at.
pub open spec fn sample_center(c: ShaderConsts, px: u32, py: u32, s: u32) -> Vec3q {
    clamp_vec3(
        vadd(
            vadd(
                cam_first(camera_of(c)),
                vscale(cam_pdu(camera_of(c)), sample_sx(px, s)),
            ),
            vscale(cam_pdv(camera_of(c)), sample_sy(c, py, s)),
        ),
        0x10000000,
    )
}

/// The primary ray of one sample.
pub open spec fn sample_ray(c: ShaderConsts, px: u32, py: u32, s: u32) -> Ray {
    Ray { origin: c.pos, direction: vsub(sample_center(c, px, py, s), c.pos) }
}

/// The sampling loop: n samples from generator state s, each drawing two
/// jitter fractions and then tracing, summed onto `sum`.
pub open spec fn render_samples(
    c: ShaderConsts,
    ps: Seq<Primitive>,
    px: u32,
    py: u32,
    s: u32,
    n: nat,
    sum: Color,
) -> (Color, u32)
    decreases n,
{
    if n == 0 {
        (sum, s)
    } else {
        let ray = sample_ray(c, px, py, s);
        let s2 = next_state(next_state(s));
        let (light, s3) = trace_spec(
            ps,
            ray,
            s2,
            c.bounce_limit as nat,
            c.background,
            cwhite(),
            cblack(),
        );
        render_samples(c, ps, px, py, s3, (n - 1) as nat, cadd(sum, light))
    }
}

/// The averaged linear-light color of a pixel: the sample sum divided by the
/// sample count; black when the count is zero.
pub open spec fn render_linear(c: ShaderConsts, ps: Seq<Primitive>, px: u32, py: u32) -> Color {
    if c.samples == 0 {
        cblack()
    } else {
        cdiv(
            render_samples(c, ps, px, py, seed_mix(px, py, c.time), c.samples as nat, cblack()).0,
            c.samples as int,
        )
    }
}

/// The finished pixel: the averaged linear color, held to [0, 1] and
/// gamma-encoded.
pub open spec fn render_pixel_spec(c: ShaderConsts, ps: Seq<Primitive>, px: u32, py: u32) -> Color {
    csrgb(render_linear(c, ps, px, py))
}

/// Render one pixel of the frame a snapshot describes.
pub fn render_pixel(consts: &ShaderConsts, scene: &Scene, px: u32, py: u32) -> (out: Color)
    requires
        consts_wf(*consts),
        scene.wf(),
        px < consts.width,
        py < consts.height,
    ensures
        out == render_pixel_spec(*consts, scene.prims@, px, py),
        cin(out, 65536),
{
    let ghost ps = scene.prims@;
    let camera = Camera::new(
        consts.width,
        consts.height,
        consts.samples,
        consts.tan_half_fov,
        consts.pos,
        consts.forward,
    );
    if consts.samples == 0 {
        let black: Color = Color::black();
        let enc: Color = black.to_srgb();
        return enc;
    }
    let first: Vec3q = camera.first();
    let pdu: Vec3q = camera.pdu();
    let pdv: Vec3q = camera.pdv();
    let mut rng = RandomSauce::new(px, py, consts.time);
    let ghost s0 = rng.state;
    let mut sum: Color = Color::black();
    let mut k: u32 = 0;
    while k < consts.samples
        invariant
            k <= consts.samples,
            consts_wf(*consts),
            scene.wf(),
            ps == scene.prims@,
            px < consts.width,
            py < consts.height,
            camera == camera_of(*consts),
            first == cam_first(camera_of(*consts)),
            pdu == cam_pdu(camera_of(*consts)),
            pdv == cam_pdv(camera_of(*consts)),
            bounded(first, 0x100000000),
            bounded(pdu, 0x100000000),
            bounded(pdv, 0x100000000),
            cin(sum, k * 0x2000000000),
            render_samples(*consts, ps, px, py, s0, consts.samples as nat, cblack())
                == render_samples(*consts, ps, px, py, rng.state, (consts.samples - k) as nat, sum),
        decreases consts.samples - k,
    {
        let ox: i64 = rng.rand_f();
        let oy: i64 = rng.rand_f();
        let sx: i64 = (px as i64) * 65536 + ox;
        let sy: i64 = (consts.height as i64) * 65536 - ((py as i64) * 65536 + oy);
        proof {
            lemma_fxm_abs(pdu.x as int, sx as int, 0x100000000, 0x20000000);
            lemma_fxm_abs(pdu.y as int, sx as int, 0x100000000, 0x20000000);
            lemma_fxm_abs(pdu.z as int, sx as int, 0x100000000, 0x20000000);
            lemma_fxm_abs(pdv.x as int, sy as int, 0x100000000, 0x20000000);
            lemma_fxm_abs(pdv.y as int, sy as int, 0x100000000, 0x20000000);
            lemma_fxm_abs(pdv.z as int, sy as int, 0x100000000, 0x20000000);
            assert(0x100000000int * 0x20000000int == 0x200000000000int * 65536int);
            lemma_div_exact(0x200000000000, 65536);
        }
        let pc0: Vec3q = first.add(pdu.scale(sx)).add(pdv.scale(sy));
        let pc = Vec3q {
            x: crate::fixed::clamp_q(pc0.x, -0x10000000, 0x10000000),
            y: crate::fixed::clamp_q(pc0.y, -0x10000000, 0x10000000),
            z: crate::fixed::clamp_q(pc0.z, -0x10000000, 0x10000000),
        };
        let dir: Vec3q = pc.sub(consts.pos);
        let ray: Ray = Ray::new(consts.pos, dir);
        let light: Color = ray_color(ray, scene, &mut rng, consts.bounce_limit, consts.background);
        sum = sum.add(light);
        k = k + 1;
    }
    let avg: Color = sum.div(consts.samples as i64);
    avg.to_srgb()
}

/// The sampling loop over an empty scene adds the background exactly once
/// per sample.
#[verifier::rlimit(60)]
proof fn lemma_render_samples_empty(
    c: ShaderConsts,
    ps: Seq<Primitive>,
    px: u32,
    py: u32,
    s: u32,
    n: nat,
    sum: Color,
)
    requires
        ps.len() == 0,
        consts_wf(c),
        c.bounce_limit >= 1,
        n <= 65536,
        0 <= sum.r && sum.r + n * 65536 <= 0x100000000000,
        0 <= sum.g && sum.g + n * 65536 <= 0x100000000000,
        0 <= sum.b && sum.b + n * 65536 <= 0x100000000000,
    ensures
        render_samples(c, ps, px, py, s, n, sum).0 == (Color {
            r: (sum.r + n * c.background.r) as i64,
            g: (sum.g + n * c.background.g) as i64,
            b: (sum.b + n * c.background.b) as i64,
        }),
    decreases n,
{
    let bg = c.background;
    if n == 0 {
        assert(n * bg.r == 0 && n * bg.g == 0 && n * bg.b == 0) by (nonlinear_arith)
            requires n == 0;
    } else {
        let ray = sample_ray(c, px, py, s);
        let s2 = next_state(next_state(s));
        lemma_trace_empty(ps, ray, s2, c.bounce_limit as nat, bg);
        lemma_render_samples_empty(c, ps, px, py, s2, (n - 1) as nat, cadd(sum, bg));
        assert(sum.r + bg.r + (n - 1) * bg.r == sum.r + n * bg.r) by (nonlinear_arith)
            requires n >= 1;
        assert(sum.g + bg.g + (n - 1) * bg.g == sum.g + n * bg.g) by (nonlinear_arith)
            requires n >= 1;
        assert(sum.b + bg.b + (n - 1) * bg.b == sum.b + n * bg.b) by (nonlinear_arith)
            requires n >= 1;
    }
}

/// Over an empty scene, every pixel's averaged linear color is exactly the
/// background: each sample contributes the background once, and the sum of
/// `samples` equal values divided by `samples` is that value.
#[verifier::rlimit(60)]
pub proof fn lemma_render_empty(c: ShaderConsts, ps: Seq<Primitive>, px: u32, py: u32)
    requires
        ps.len() == 0,
        consts_wf(c),
        c.bounce_limit >= 1,
        c.samples >= 1,
    ensures
        render_linear(c, ps, px, py) == c.background,
{
    let bg = c.background;
    let n = c.samples as nat;
    lemma_render_samples_empty(c, ps, px, py, seed_mix(px, py, c.time), n, cblack());
    let sum_n = render_samples(c, ps, px, py, seed_mix(px, py, c.time), n, cblack()).0;
    assert(0 <= n * bg.r <= 0x100000000 && 0 <= n * bg.g <= 0x100000000 && 0 <= n * bg.b
        <= 0x100000000) by (nonlinear_arith)
        requires
            0 <= n <= 65536,
            0 <= bg.r <= 65536,
            0 <= bg.g <= 65536,
            0 <= bg.b <= 65536;
    assert(sum_n.r == n * bg.r && sum_n.g == n * bg.g && sum_n.b == n * bg.b);
    lemma_div_exact(bg.r as int, n as int);
    lemma_div_exact(bg.g as int, n as int);
    lemma_div_exact(bg.b as int, n as int);
    assert(n * bg.r == bg.r * n && n * bg.g == bg.g * n && n * bg.b == bg.b * n)
        by (nonlinear_arith);
    let lin = render_linear(c, ps, px, py);
    assert(lin == cdiv(sum_n, n as int));
    assert(lin.r == bg.r && lin.g == bg.g && lin.b == bg.b);
    assert(c.background == (Color { r: bg.r, g: bg.g, b: bg.b }));
}

} // verus!
