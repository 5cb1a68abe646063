//! Linear-light RGB colors in Q16.16, and the gamma encoding applied to a
//! finished pixel.
//!
//! Radiance is accumulated in linear light.  Before output a channel is held
//! to [0, 1] and gamma-encoded with exponent 1/2.2 = 5/11: the encoded value
//! is the Q16.16 floor of x^(5/11), stated exactly as the largest y with
//! y^11 <= c^5 * 2^96 and computed by binary search over an exact wide
//! comparison.

use vstd::prelude::*;

verus! {

use vstd::arithmetic::div_mod::lemma_fundamental_div_mod;
use crate::fixed::{fxm, sclamp, fx_mul, clamp_q, div_q, le_wide, lemma_mul_le};

/// An RGB color; each channel is a Q16.16 scalar, 65536 meaning full
/// intensity one.
#[derive(Clone, Copy, PartialEq, Eq, Structural, Debug)]
pub struct Color {
    pub r: i64,
    pub g: i64,
    pub b: i64,
}

/// Every channel within [0, hi].
pub open spec fn cin(c: Color, hi: int) -> bool {
    &&& 0 <= c.r <= hi
    &&& 0 <= c.g <= hi
    &&& 0 <= c.b <= hi
}

pub open spec fn cadd(a: Color, b: Color) -> Color {
    Color { r: (a.r + b.r) as i64, g: (a.g + b.g) as i64, b: (a.b + b.b) as i64 }
}

/// Componentwise fixed-point product.
pub open spec fn cmul(a: Color, b: Color) -> Color {
    Color {
        r: fxm(a.r as int, b.r as int) as i64,
        g: fxm(a.g as int, b.g as int) as i64,
        b: fxm(a.b as int, b.b as int) as i64,
    }
}

/// Every channel scaled by the same Q16.16 factor.
pub open spec fn cscale(c: Color, s: int) -> Color {
    Color { r: fxm(c.r as int, s) as i64, g: fxm(c.g as int, s) as i64, b: fxm(c.b as int, s) as i64 }
}

/// Every channel divided by a positive count (used to average samples).
pub open spec fn cdiv(c: Color, n: int) -> Color {
    Color { r: (c.r as int / n) as i64, g: (c.g as int / n) as i64, b: (c.b as int / n) as i64 }
}

/// Full-intensity white: the initial path throughput.
pub open spec fn cwhite() -> Color {
    Color { r: 65536, g: 65536, b: 65536 }
}

/// Black: no light.
pub open spec fn cblack() -> Color {
    Color { r: 0, g: 0, b: 0 }
}

/// Every channel held to [0, one].
pub open spec fn cclamp01(c: Color) -> Color {
    Color {
        r: sclamp(c.r as int, 0, 65536) as i64,
        g: sclamp(c.g as int, 0, 65536) as i64,
        b: sclamp(c.b as int, 0, 65536) as i64,
    }
}

/// The fifth power.
pub open spec fn p5(x: int) -> int {
    x * x * x * x * x
}

/// The eleventh power.
pub open spec fn p11(x: int) -> int {
    x * x * x * x * x * x * x * x * x * x * x
}

/// Integer eleventh root, rounded down.
pub open spec fn root11_floor(n: nat) -> nat
    decreases n,
{
    if n == 0 {
        0
    } else {
        let r = root11_floor((n - 1) as nat);
        if p11((r + 1) as int) <= n {
            r + 1
        } else {
            r
        }
    }
}

/// Gamma encoding of one channel of linear light in [0, 1]: zero at or below
/// zero, else the Q16.16 floor of (c / 2^16)^(5/11) — the display encode
/// pow(linear, 1/2.2).  y = floor(x^(5/11) * 2^16) is exactly the largest y
/// with y^11 <= c^5 * 2^96.
pub open spec fn gamma_of(c: int) -> int {
    if c > 0 {
        root11_floor((p5(c) * 0x1000000000000000000000000) as nat) as int
    } else {
        0
    }
}

/// A whole color held to [0, 1] and gamma-encoded.
pub open spec fn csrgb(c: Color) -> Color {
    Color {
        r: gamma_of(sclamp(c.r as int, 0, 65536)) as i64,
        g: gamma_of(sclamp(c.g as int, 0, 65536)) as i64,
        b: gamma_of(sclamp(c.b as int, 0, 65536)) as i64,
    }
}

/// Gamma encoding of a single linear-light channel in [0, 1]: zero for
/// nonpositive input, else the Q16.16 floor of c^(5/11) (the display encode
/// pow(linear, 1/2.2)), found by binary search on the exact comparison
/// y^11 <= c^5 * 2^96.
pub fn convert_color(c: i64) -> (r: i64)
    requires
        c <= 65536,
    ensures
        r == gamma_of(c as int),
        0 <= r <= 65536,
{
    if c > 0 {
        gamma_root(c)
    } else {
        0
    }
}

/// The largest y with y^11 <= c^5 * 2^96, for a channel in (0, 1].
fn gamma_root(c: i64) -> (y: i64)
    requires
        1 <= c <= 65536,
    ensures
        y == root11_floor((p5(c as int) * 0x1000000000000000000000000) as nat),
        0 <= y <= 65536,
{
    let cu: u128 = c as u128;
    proof {
        lemma_mul_le(cu as int, 0x10000, cu as int, 0x10000);
    }
    let c2: u128 = cu * cu;
    proof {
        lemma_mul_le(c2 as int, 0x100000000, c2 as int, 0x100000000);
    }
    let c4: u128 = c2 * c2;
    proof {
        lemma_mul_le(c4 as int, 0x10000000000000000, cu as int, 0x10000);
    }
    let c5: u128 = c4 * cu;
    let ghost nn: int = p5(c as int) * 0x1000000000000000000000000;
    proof {
        assert(c5 == p5(c as int)) by (nonlinear_arith)
            requires
                c2 == cu * cu,
                c4 == c2 * c2,
                c5 == c4 * cu,
                cu == c;
        assert(p5(c as int) >= 1 * 1) by (nonlinear_arith)
            requires c >= 1;
        lemma_p11_mono(c as int, 65536);
        lemma_p11_pow_split(c as int);
        lemma_p11_pow_split(65536);
        lemma_p11_strict_mono(65536, 65537);
        lemma_root11_bounds(nn as nat);
    }
    let mut lo: u128 = 0;
    let mut hi: u128 = 65537;
    while lo + 1 < hi
        invariant
            lo < hi <= 65537,
            1 <= c <= 65536,
            c5 == p5(c as int),
            c5 <= 0x100000000000000000000,
            nn == p5(c as int) * 0x1000000000000000000000000,
            p11(lo as int) <= nn,
            nn < p11(hi as int),
        decreases hi - lo,
    {
        let half: u128 = (hi - lo) / 2;
        proof {
            lemma_fundamental_div_mod(hi as int - lo as int, 2);
        }
        let mid: u128 = lo + half;
        proof {
            lemma_mul_le(mid as int, 0x10000, mid as int, 0x10000);
        }
        let y2: u128 = mid * mid;
        proof {
            lemma_mul_le(y2 as int, 0x100000000, y2 as int, 0x100000000);
        }
        let y4: u128 = y2 * y2;
        proof {
            lemma_mul_le(y4 as int, 0x10000000000000000, mid as int, 0x10000);
        }
        let y5: u128 = y4 * mid;
        proof {
            lemma_mul_le(y5 as int, 0x100000000000000000000, mid as int, 0x10000);
        }
        let y6: u128 = y5 * mid;
        proof {
            assert(y6 * y5 == p11(mid as int)) by (nonlinear_arith)
                requires
                    y2 == mid * mid,
                    y4 == y2 * y2,
                    y5 == y4 * mid,
                    y6 == y5 * mid;
        }
        if le_wide(y6, y5, c5, 0x1000000000000000000000000) {
            lo = mid;
        } else {
            hi = mid;
        }
    }
    proof {
        assert(p5(c as int) >= 1 * 1) by (nonlinear_arith)
            requires c >= 1;
        lemma_root11_unique(nn as nat, lo as nat);
    }
    lo as i64
}

impl Color {
    pub fn new(r: i64, g: i64, b: i64) -> (c: Color)
        ensures
            c == (Color { r, g, b }),
    {
        Color { r, g, b }
    }

    pub fn black() -> (c: Color)
        ensures
            c == cblack(),
    {
        Color { r: 0, g: 0, b: 0 }
    }

    pub fn white() -> (c: Color)
        ensures
            c == cwhite(),
    {
        Color { r: 65536, g: 65536, b: 65536 }
    }

    pub fn r(&self) -> (v: i64)
        ensures
            v == self.r,
    {
        self.r
    }

    pub fn g(&self) -> (v: i64)
        ensures
            v == self.g,
    {
        self.g
    }

    pub fn b(&self) -> (v: i64)
        ensures
            v == self.b,
    {
        self.b
    }

    pub fn add(self, o: Color) -> (c: Color)
        requires
            -0x4000000000000000 <= self.r + o.r <= 0x4000000000000000,
            -0x4000000000000000 <= self.g + o.g <= 0x4000000000000000,
            -0x4000000000000000 <= self.b + o.b <= 0x4000000000000000,
        ensures
            c == cadd(self, o),
    {
        Color { r: self.r + o.r, g: self.g + o.g, b: self.b + o.b }
    }

    /// Componentwise fixed-point product (attenuation by a filter color).
    pub fn mul(self, o: Color) -> (c: Color)
        requires
            -0x400000000000 <= self.r <= 0x400000000000,
            -0x400000000000 <= self.g <= 0x400000000000,
            -0x400000000000 <= self.b <= 0x400000000000,
            -0x100000000 <= o.r <= 0x100000000,
            -0x100000000 <= o.g <= 0x100000000,
            -0x100000000 <= o.b <= 0x100000000,
        ensures
            c == cmul(self, o),
    {
        Color { r: fx_mul(self.r, o.r), g: fx_mul(self.g, o.g), b: fx_mul(self.b, o.b) }
    }

    /// Every channel scaled by the same Q16.16 factor.
    pub fn scale(self, s: i64) -> (c: Color)
        requires
            -0x400000000000 <= self.r <= 0x400000000000,
            -0x400000000000 <= self.g <= 0x400000000000,
            -0x400000000000 <= self.b <= 0x400000000000,
            -0x100000000 <= s <= 0x100000000,
        ensures
            c == cscale(self, s as int),
    {
        Color { r: fx_mul(self.r, s), g: fx_mul(self.g, s), b: fx_mul(self.b, s) }
    }

    /// Divide every channel by a positive count (averaging samples).
    pub fn div(self, n: i64) -> (c: Color)
        requires
            cin(self, 0x7fffffffffffffff),
            1 <= n,
        ensures
            c == cdiv(self, n as int),
            cin(c, 0x7fffffffffffffff),
    {
        Color { r: div_q(self.r, n), g: div_q(self.g, n), b: div_q(self.b, n) }
    }

    /// Hold every channel to [0, 1].
    pub fn clamp01(self) -> (c: Color)
        ensures
            c == cclamp01(self),
            cin(c, 65536),
    {
        Color {
            r: clamp_q(self.r, 0, 65536),
            g: clamp_q(self.g, 0, 65536),
            b: clamp_q(self.b, 0, 65536),
        }
    }

    /// Hold the color to [0, 1] and gamma-encode it for display.
    pub fn to_srgb(self) -> (c: Color)
        ensures
            c == csrgb(self),
            cin(c, 65536),
    {
        let held: Color = self.clamp01();
        let enc = Color {
            r: convert_color(held.r),
            g: convert_color(held.g),
            b: convert_color(held.b),
        };
        proof {
            lemma_gamma_unit(held.r as int);
            lemma_gamma_unit(held.g as int);
            lemma_gamma_unit(held.b as int);
        }
        enc
    }
}

/// A product of two pairs ordered componentwise (all nonnegative) is ordered.
proof fn lemma_nonneg_mul_mono(x1: int, y1: int, x2: int, y2: int)
    requires
        0 <= x1 <= x2,
        0 <= y1 <= y2,
    ensures
        0 <= x1 * y1 <= x2 * y2,
{
    assert(0 <= x1 * y1 <= x2 * y2) by (nonlinear_arith)
        requires
            0 <= x1 <= x2,
            0 <= y1 <= y2;
}

/// The eleventh power splits as a product of smaller powers.
proof fn lemma_p11_pow_split(x: int)
    ensures
        p11(x) == ((x * x) * (x * x) * x) * ((x * x) * (x * x) * x) * x,
        p5(x) == (x * x) * (x * x) * x,
{
    assert(p11(x) == ((x * x) * (x * x) * x) * ((x * x) * (x * x) * x) * x) by (nonlinear_arith);
    assert(p5(x) == (x * x) * (x * x) * x) by (nonlinear_arith);
}

/// The eleventh power is monotone on nonnegative values.
proof fn lemma_p11_mono(a: int, b: int)
    requires
        0 <= a <= b,
    ensures
        0 <= p11(a) <= p11(b),
        0 <= p5(a) <= p5(b),
{
    let a2 = a * a;
    let b2 = b * b;
    lemma_nonneg_mul_mono(a, a, b, b);
    let a4 = a2 * a2;
    let b4 = b2 * b2;
    lemma_nonneg_mul_mono(a2, a2, b2, b2);
    let a5 = a4 * a;
    let b5 = b4 * b;
    lemma_nonneg_mul_mono(a4, a, b4, b);
    let a10 = a5 * a5;
    let b10 = b5 * b5;
    lemma_nonneg_mul_mono(a5, a5, b5, b5);
    lemma_nonneg_mul_mono(a10, a, b10, b);
    lemma_p11_pow_split(a);
    lemma_p11_pow_split(b);
}

/// And strictly monotone.
proof fn lemma_p11_strict_mono(a: int, b: int)
    requires
        0 <= a < b,
    ensures
        p11(a) < p11(b),
{
    lemma_p11_pow_split(a);
    lemma_p11_pow_split(b);
    if a == 0 {
        assert(p11(0) == 0 && 1 <= p11(b)) by (nonlinear_arith)
            requires
                1 <= b,
                p11(b) == ((b * b) * (b * b) * b) * ((b * b) * (b * b) * b) * b;
    } else {
        let a2 = a * a;
        let b2 = b * b;
        assert(0 < a2 < b2) by (nonlinear_arith)
            requires
                a2 == a * a,
                b2 == b * b,
                0 < a < b;
        let a4 = a2 * a2;
        let b4 = b2 * b2;
        assert(0 < a4 < b4) by (nonlinear_arith)
            requires
                a4 == a2 * a2,
                b4 == b2 * b2,
                0 < a2 < b2;
        let a5 = a4 * a;
        let b5 = b4 * b;
        assert(0 < a5 < b5) by (nonlinear_arith)
            requires
                a5 == a4 * a,
                b5 == b4 * b,
                0 < a4 < b4,
                0 < a < b;
        let a10 = a5 * a5;
        let b10 = b5 * b5;
        assert(0 < a10 < b10) by (nonlinear_arith)
            requires
                a10 == a5 * a5,
                b10 == b5 * b5,
                0 < a5 < b5;
        assert(a10 * a < b10 * b) by (nonlinear_arith)
            requires
                0 < a10 < b10,
                0 < a < b;
    }
}

/// root11_floor(n) is the largest y with p11(y) <= n.
proof fn lemma_root11_bounds(n: nat)
    ensures
        p11(root11_floor(n) as int) <= n,
        n < p11((root11_floor(n) + 1) as int),
    decreases n,
{
    let y = root11_floor(n);
    if n == 0 {
        assert(p11(0) == 0 && p11(1) == 1) by (nonlinear_arith);
    } else {
        lemma_root11_bounds((n - 1) as nat);
        let r = root11_floor((n - 1) as nat);
        if p11((r + 1) as int) <= n {
            assert(y == r + 1);
            lemma_p11_strict_mono((r + 1) as int, (r + 2) as int);
        } else {
            assert(y == r);
        }
    }
}

/// Any y with p11(y) <= n < p11(y + 1) is root11_floor(n).
proof fn lemma_root11_unique(n: nat, y: nat)
    requires
        p11(y as int) <= n,
        n < p11((y + 1) as int),
    ensures
        y == root11_floor(n),
{
    let r = root11_floor(n);
    lemma_root11_bounds(n);
    if r < y {
        lemma_p11_mono((r + 1) as int, y as int);
    }
    if y < r {
        lemma_p11_mono((y + 1) as int, r as int);
    }
}

/// root11_floor is monotone.
proof fn lemma_root11_mono(a: nat, b: nat)
    requires
        a <= b,
    ensures
        root11_floor(a) <= root11_floor(b),
{
    let ra = root11_floor(a);
    let rb = root11_floor(b);
    lemma_root11_bounds(a);
    lemma_root11_bounds(b);
    if ra > rb {
        lemma_p11_mono((rb + 1) as int, ra as int);
    }
}

/// Gamma encoding keeps a channel in [0, 1]: one maps to one exactly, since
/// 65536^11 == 65536^5 * 2^96.
pub proof fn lemma_gamma_unit(c: int)
    requires
        0 <= c <= 65536,
    ensures
        0 <= gamma_of(c) <= 65536,
{
    if c > 0 {
        let n = (p5(c) * 0x1000000000000000000000000) as nat;
        lemma_p11_mono(c, 65536);
        lemma_p11_pow_split(c);
        lemma_p11_pow_split(65536);
        assert(p5(c) * 0x1000000000000000000000000 >= 0) by (nonlinear_arith)
            requires p5(c) >= 0;
        lemma_root11_mono(n, (p5(65536) * 0x1000000000000000000000000) as nat);
        lemma_p11_strict_mono(65536, 65537);
        lemma_root11_unique((p5(65536) * 0x1000000000000000000000000) as nat, 65536);
    }
}

/// The encode fixes the endpoints: zero maps to zero, and full intensity
/// maps to full intensity, since 65536^11 == 65536^5 * 2^96 exactly.
pub proof fn lemma_gamma_endpoints()
    ensures
        gamma_of(0) == 0,
        gamma_of(65536) == 65536,
{
    lemma_p11_strict_mono(65536, 65537);
    lemma_p11_pow_split(65536);
    lemma_root11_unique((p5(65536) * 0x1000000000000000000000000) as nat, 65536);
}

/// Gamma encoding is monotone: more linear light never encodes darker.
pub proof fn lemma_gamma_mono(a: int, b: int)
    requires
        0 <= a <= b <= 65536,
    ensures
        gamma_of(a) <= gamma_of(b),
{
    if a > 0 {
        lemma_p11_mono(a, b);
        assert(p5(a) * 0x1000000000000000000000000 <= p5(b)
            * 0x1000000000000000000000000) by (nonlinear_arith)
            requires 0 <= p5(a) <= p5(b);
        lemma_root11_mono(
            (p5(a) * 0x1000000000000000000000000) as nat,
            (p5(b) * 0x1000000000000000000000000) as nat,
        );
    }
}

} // verus!
