//! Q16.16 fixed-point scalars.
//!
//! A scalar is an `i64` holding a real value scaled by 2^16.  All rounding
//! in the crate is toward minus infinity (floor), stated exactly by the spec
//! functions here, so every kernel result is pinned to an integer formula.

use vstd::prelude::*;

verus! {

use vstd::arithmetic::div_mod::{
    lemma_fundamental_div_mod, lemma_fundamental_div_mod_converse, lemma_div_is_ordered,
};

/// The number one in Q16.16.
pub const ONE: i64 = 65536;

/// Fixed-point product of two Q16.16 scalars: floor of a*b / 2^16.
pub open spec fn fxm(a: int, b: int) -> int {
    (a * b) / 65536
}

/// Floor division for any nonzero divisor.  (Spec `/` is Euclidean division,
/// which rounds down only for positive divisors.)
pub open spec fn qdiv(n: int, d: int) -> int {
    if d > 0 {
        n / d
    } else {
        (-n) / (-d)
    }
}

/// x held to the interval [lo, hi].
pub open spec fn sclamp(x: int, lo: int, hi: int) -> int {
    if x < lo {
        lo
    } else if x > hi {
        hi
    } else {
        x
    }
}

/// Integer square root, rounded down.
pub open spec fn sqrt_floor(n: nat) -> nat
    decreases n,
{
    if n == 0 {
        0
    } else {
        let r = sqrt_floor((n - 1) as nat);
        if (r + 1) * (r + 1) <= n {
            r + 1
        } else {
            r
        }
    }
}

/// sqrt_floor(n) is the largest s with s*s <= n.
pub proof fn lemma_sqrt_floor_bounds(n: nat)
    ensures
        sqrt_floor(n) * sqrt_floor(n) <= n,
        n < (sqrt_floor(n) + 1) * (sqrt_floor(n) + 1),
    decreases n,
{
    let s = sqrt_floor(n);
    if n == 0 {
        assert(s * s <= n && n < (s + 1) * (s + 1)) by (nonlinear_arith)
            requires n == 0 && s == 0;
    } else {
        lemma_sqrt_floor_bounds((n - 1) as nat);
        let r = sqrt_floor((n - 1) as nat);
        if (r + 1) * (r + 1) <= n {
            assert(s == r + 1);
            assert(s * s <= n && n < (s + 1) * (s + 1)) by (nonlinear_arith)
                requires
                    s == r + 1,
                    (r + 1) * (r + 1) <= n,
                    n - 1 < (r + 1) * (r + 1);
        } else {
            assert(s == r);
            assert(s * s <= n && n < (s + 1) * (s + 1)) by (nonlinear_arith)
                requires
                    s == r,
                    r * r <= n - 1,
                    n < (r + 1) * (r + 1);
        }
    }
}

/// Any s with s*s <= n < (s+1)*(s+1) is sqrt_floor(n).
pub proof fn lemma_sqrt_floor_unique(n: nat, s: nat)
    requires
        s * s <= n,
        n < (s + 1) * (s + 1),
    ensures
        s == sqrt_floor(n),
{
    let r = sqrt_floor(n);
    lemma_sqrt_floor_bounds(n);
    if r < s {
        assert((r + 1) * (r + 1) <= s * s) by (nonlinear_arith)
            requires r + 1 <= s && r >= 0;
    }
    if s < r {
        assert((s + 1) * (s + 1) <= r * r) by (nonlinear_arith)
            requires s + 1 <= r && s >= 0;
    }
}

/// Bounds on a product from bounds on its factors.
pub proof fn lemma_mul_le(a: int, ab: int, b: int, bb: int)
    requires
        -ab <= a <= ab,
        -bb <= b <= bb,
    ensures
        -(ab * bb) <= a * b <= ab * bb,
{
    assert(-(ab * bb) <= a * b <= ab * bb) by (nonlinear_arith)
        requires
            -ab <= a <= ab,
            -bb <= b <= bb;
}

/// A quotient of nonnegatives is nonnegative and no larger than the dividend.
pub proof fn lemma_div_nonneg_le(n: int, d: int)
    requires
        0 <= n,
        1 <= d,
    ensures
        0 <= n / d <= n,
{
    lemma_fundamental_div_mod(n, d);
    assert(0 <= n / d <= n) by (nonlinear_arith)
        requires
            n == d * (n / d) + n % d,
            0 <= n % d < d,
            1 <= d,
            0 <= n;
}

/// A fixed-point product of nonnegative factors is nonnegative, and bounded
/// by the fixed-point product of the factors' bounds.
pub proof fn lemma_fxm_range(a: int, b: int, ab: int, bb: int)
    requires
        0 <= a <= ab,
        0 <= b <= bb,
    ensures
        0 <= fxm(a, b) <= (ab * bb) / 65536,
{
    assert(0 <= a * b <= ab * bb) by (nonlinear_arith)
        requires
            0 <= a <= ab,
            0 <= b <= bb;
    lemma_div_nonneg_le(a * b, 65536);
    lemma_div_is_ordered(a * b, ab * bb, 65536);
}

/// With both factors at most one, a fixed-point product is at most either
/// factor (throughput never grows along a path).
pub proof fn lemma_fxm_unit(a: int, b: int)
    requires
        0 <= a <= 65536,
        0 <= b <= 65536,
    ensures
        0 <= fxm(a, b) <= a,
        fxm(a, b) <= b,
{
    assert(0 <= a * b <= a * 65536 && a * b <= b * 65536) by (nonlinear_arith)
        requires
            0 <= a <= 65536,
            0 <= b <= 65536;
    lemma_div_nonneg_le(a * b, 65536);
    lemma_div_is_ordered(a * b, a * 65536, 65536);
    lemma_div_is_ordered(a * b, b * 65536, 65536);
    lemma_div_exact(a, 65536);
    lemma_div_exact(b, 65536);
}

/// Two-sided bound on a fixed-point product from bounds on its factors.
pub proof fn lemma_fxm_abs(a: int, b: int, ab: int, bb: int)
    requires
        -ab <= a <= ab,
        -bb <= b <= bb,
        0 <= ab,
        0 <= bb,
    ensures
        -((ab * bb) / 65536) - 1 <= fxm(a, b) <= (ab * bb) / 65536,
{
    lemma_mul_le(a, ab, b, bb);
    lemma_div_is_ordered(a * b, ab * bb, 65536);
    lemma_div_is_ordered(-(ab * bb), a * b, 65536);
    let p = ab * bb;
    lemma_fundamental_div_mod(p, 65536);
    let q = p / 65536;
    let r = p % 65536;
    if r == 0 {
        assert(-p == (-q) * 65536 + 0) by (nonlinear_arith)
            requires p == 65536 * q + r && r == 0;
        lemma_fundamental_div_mod_converse(-p, 65536, -q, 0);
    } else {
        assert(-p == (-q - 1) * 65536 + (65536 - r)) by (nonlinear_arith)
            requires p == 65536 * q + r;
        lemma_fundamental_div_mod_converse(-p, 65536, -q - 1, 65536 - r);
    }
}

/// sqrt_floor is monotone.
pub proof fn lemma_sqrt_floor_mono(a: nat, b: nat)
    requires
        a <= b,
    ensures
        sqrt_floor(a) <= sqrt_floor(b),
{
    let sa = sqrt_floor(a);
    let sb = sqrt_floor(b);
    lemma_sqrt_floor_bounds(a);
    lemma_sqrt_floor_bounds(b);
    if sa > sb {
        assert((sb + 1) * (sb + 1) <= sa * sa) by (nonlinear_arith)
            requires sb + 1 <= sa;
    }
}

/// The square root of an exact square.
pub proof fn lemma_sqrt_floor_square(k: nat)
    ensures
        sqrt_floor(k * k) == k,
{
    assert(k * k < (k + 1) * (k + 1)) by (nonlinear_arith)
        requires k >= 0;
    lemma_sqrt_floor_unique(k * k, k);
}

/// A fraction at most one scales a nonnegative value down.
pub proof fn lemma_fxm_le_right(f: int, d: int)
    requires
        0 <= f <= 65536,
        0 <= d,
    ensures
        0 <= fxm(f, d) <= d,
{
    assert(0 <= f * d <= d * 65536) by (nonlinear_arith)
        requires
            0 <= f <= 65536,
            0 <= d;
    lemma_div_nonneg_le(f * d, 65536);
    lemma_div_is_ordered(f * d, d * 65536, 65536);
    lemma_div_exact(d, 65536);
}

/// Multiplying by one in Q16.16 is exact.
pub proof fn lemma_fxm_one(a: int)
    ensures
        fxm(a, 65536) == a,
        fxm(65536, a) == a,
{
    lemma_fundamental_div_mod_converse(a * 65536, 65536, a, 0);
    assert(65536 * a == a * 65536) by (nonlinear_arith);
}

/// Dividing an exact multiple is exact.
pub proof fn lemma_div_exact(a: int, d: int)
    requires
        d > 0,
    ensures
        (a * d) / d == a,
{
    lemma_fundamental_div_mod_converse(a * d, d, a, 0);
}

/// Two-sided bound on a quotient from a bound on the dividend.
pub proof fn lemma_div_abs(n: int, nb: int, d: int)
    requires
        1 <= d,
        -nb <= n <= nb,
        0 <= nb,
    ensures
        -(nb / d) - 1 <= n / d <= nb / d,
{
    lemma_div_is_ordered(n, nb, d);
    lemma_div_is_ordered(-nb, n, d);
    lemma_fundamental_div_mod(nb, d);
    let q = nb / d;
    let r = nb % d;
    if r == 0 {
        assert(-nb == (-q) * d + 0) by (nonlinear_arith)
            requires nb == d * q + r && r == 0;
        lemma_fundamental_div_mod_converse(-nb, d, -q, 0);
    } else {
        assert(-nb == (-q - 1) * d + (d - r)) by (nonlinear_arith)
            requires nb == d * q + r;
        lemma_fundamental_div_mod_converse(-nb, d, -q - 1, d - r);
    }
}

/// Floor division of an i128 by a positive divisor.
pub fn div_floor_i128(a: i128, b: i128) -> (q: i128)
    requires
        0 < b < 0x40000000000000000000000000000000,
        -0x40000000000000000000000000000000 < a < 0x40000000000000000000000000000000,
    ensures
        q == a as int / b as int,
{
    if a >= 0 {
        proof {
            lemma_div_nonneg_le(a as int, b as int);
        }
        let q0: u128 = (a as u128) / (b as u128);
        q0 as i128
    } else {
        let m: u128 = (-a) as u128;
        let d: u128 = b as u128;
        let q0: u128 = (m + d - 1) / d;
        proof {
            let mi = m as int;
            let di = d as int;
            lemma_fundamental_div_mod(mi, di);
            let qm = mi / di;
            let rm = mi % di;
            lemma_div_nonneg_le(mi, di);
            if rm == 0 {
                assert(mi + di - 1 == qm * di + (di - 1)) by (nonlinear_arith)
                    requires mi == di * qm + rm && rm == 0;
                lemma_fundamental_div_mod_converse(mi + di - 1, di, qm, di - 1);
                assert(-mi == (-qm) * di + 0) by (nonlinear_arith)
                    requires mi == di * qm + rm && rm == 0;
                lemma_fundamental_div_mod_converse(-mi, di, -qm, 0);
            } else {
                assert(mi + di - 1 == (qm + 1) * di + (rm - 1)) by (nonlinear_arith)
                    requires mi == di * qm + rm;
                lemma_fundamental_div_mod_converse(mi + di - 1, di, qm + 1, rm - 1);
                assert(-mi == (-qm - 1) * di + (di - rm)) by (nonlinear_arith)
                    requires mi == di * qm + rm;
                lemma_fundamental_div_mod_converse(-mi, di, -qm - 1, di - rm);
            }
            lemma_div_nonneg_le(mi + di - 1, di);
        }
        -(q0 as i128)
    }
}

/// Floor division of a nonnegative Q16.16 scalar by a positive one.
pub fn div_q(n: i64, d: i64) -> (q: i64)
    requires
        0 <= n,
        1 <= d,
    ensures
        q == n as int / d as int,
        0 <= q <= n,
{
    proof {
        lemma_div_nonneg_le(n as int, d as int);
    }
    ((n as u64) / (d as u64)) as i64
}

/// Fixed-point multiply: floor(a*b / 2^16), with asymmetric operand bounds
/// wide enough for every use in the crate.
pub fn fx_mul(a: i64, b: i64) -> (r: i64)
    requires
        -0x400000000000 <= a <= 0x400000000000,
        -0x100000000 <= b <= 0x100000000,
    ensures
        r == fxm(a as int, b as int),
        -0x4000000000000000 <= r <= 0x4000000000000000,
{
    proof {
        lemma_mul_le(a as int, 0x400000000000, b as int, 0x100000000);
    }
    let p: i128 = (a as i128) * (b as i128);
    let q: i128 = div_floor_i128(p, 65536);
    proof {
        lemma_div_is_ordered(a as int * b as int, 0x400000000000int * 0x100000000int, 65536);
        lemma_div_is_ordered(-(0x400000000000int * 0x100000000int), a as int * b as int, 65536);
        lemma_div_exact(0x4000000000000000, 65536);
        lemma_div_exact(-0x4000000000000000, 65536);
        assert(0x400000000000int * 0x100000000int == 0x4000000000000000int * 65536int);
    }
    q as i64
}

/// Hold x to [lo, hi].
pub fn clamp_q(x: i64, lo: i64, hi: i64) -> (r: i64)
    requires
        lo <= hi,
    ensures
        r == sclamp(x as int, lo as int, hi as int),
{
    if x < lo {
        lo
    } else if x > hi {
        hi
    } else {
        x
    }
}

/// Integer square root of a u128 below 2^126.
pub fn isqrt_u128(x: u128) -> (r: u128)
    requires
        x < 0x40000000000000000000000000000000,
    ensures
        r == sqrt_floor(x as nat),
        r * r <= x,
        x < (r + 1) * (r + 1),
        r <= 0x8000000000000000,
{
    let mut lo: u128 = 0;
    let mut hi: u128 = 0x8000000000000000;
    while lo + 1 < hi
        invariant
            lo < hi <= 0x8000000000000000,
            lo * lo <= x,
            x < hi * hi,
        decreases hi - lo,
    {
        let half: u128 = (hi - lo) / 2;
        proof {
            lemma_fundamental_div_mod(hi as int - lo as int, 2);
        }
        let mid: u128 = lo + half;
        proof {
            assert(mid * mid <= 0x8000000000000000 * 0x8000000000000000) by (nonlinear_arith)
                requires 0 <= mid <= 0x8000000000000000;
        }
        if mid * mid <= x {
            lo = mid;
        } else {
            hi = mid;
        }
    }
    proof {
        lemma_sqrt_floor_unique(x as nat, lo as nat);
    }
    lo
}

/// The three-limb form (high, mid, low, in base 2^64) of a product of two
/// values below 2^97.
fn wide_parts(a: u128, b: u128) -> (t: (u128, u128, u128))
    requires
        a < 0x2000000000000000000000000,
        b < 0x2000000000000000000000000,
    ensures
        a * b == t.0 * 0x100000000000000000000000000000000 + t.1 * 0x10000000000000000 + t.2,
        t.1 < 0x10000000000000000,
        t.2 < 0x10000000000000000,
{
    let a1: u128 = a / 0x10000000000000000;
    let a0: u128 = a % 0x10000000000000000;
    let b1: u128 = b / 0x10000000000000000;
    let b0: u128 = b % 0x10000000000000000;
    proof {
        lemma_fundamental_div_mod(a as int, 0x10000000000000000);
        lemma_fundamental_div_mod(b as int, 0x10000000000000000);
        lemma_div_is_ordered(a as int, 0x2000000000000000000000000 - 1, 0x10000000000000000);
        lemma_div_is_ordered(b as int, 0x2000000000000000000000000 - 1, 0x10000000000000000);
        lemma_div_nonneg_le(a as int, 0x10000000000000000);
        lemma_div_nonneg_le(b as int, 0x10000000000000000);
        lemma_mul_le(a1 as int, 0x200000000, b1 as int, 0x200000000);
        lemma_mul_le(a1 as int, 0x200000000, b0 as int, 0xffffffffffffffff);
        lemma_mul_le(a0 as int, 0xffffffffffffffff, b1 as int, 0x200000000);
        lemma_mul_le(a0 as int, 0xffffffffffffffff, b0 as int, 0xffffffffffffffff);
    }
    let p2: u128 = a1 * b1;
    let p1: u128 = a1 * b0 + a0 * b1;
    let p0: u128 = a0 * b0;
    proof {
        assert(a * b == p2 * 0x100000000000000000000000000000000 + p1 * 0x10000000000000000
            + p0) by (nonlinear_arith)
            requires
                a == 0x10000000000000000 * a1 + a0,
                b == 0x10000000000000000 * b1 + b0,
                p2 == a1 * b1,
                p1 == a1 * b0 + a0 * b1,
                p0 == a0 * b0;
        lemma_fundamental_div_mod(p0 as int, 0x10000000000000000);
        lemma_div_nonneg_le(p0 as int, 0x10000000000000000);
    }
    let c0: u128 = p0 / 0x10000000000000000;
    let l0: u128 = p0 % 0x10000000000000000;
    let m: u128 = p1 + c0;
    proof {
        lemma_fundamental_div_mod(m as int, 0x10000000000000000);
        lemma_div_nonneg_le(m as int, 0x10000000000000000);
    }
    let c1: u128 = m / 0x10000000000000000;
    let l1: u128 = m % 0x10000000000000000;
    let v: u128 = p2 + c1;
    (v, l1, l0)
}

/// Whether a * b <= d * e, for operands below 2^97 (the comparison value
/// itself may take up to 194 bits).
pub fn le_wide(a: u128, b: u128, d: u128, e: u128) -> (r: bool)
    requires
        a < 0x2000000000000000000000000,
        b < 0x2000000000000000000000000,
        d < 0x2000000000000000000000000,
        e < 0x2000000000000000000000000,
    ensures
        r == (a * b <= d * e),
{
    let x = wide_parts(a, b);
    let y = wide_parts(d, e);
    proof {
        lemma_limbs_ordered(x.0 as int, x.1 as int, x.2 as int, y.0 as int, y.1 as int, y.2 as int);
    }
    if x.0 != y.0 {
        x.0 < y.0
    } else if x.1 != y.1 {
        x.1 < y.1
    } else {
        x.2 <= y.2
    }
}

/// Lexicographic order on three-limb forms is numeric order.
proof fn lemma_limbs_ordered(v1: int, m1: int, l1: int, v2: int, m2: int, l2: int)
    requires
        0 <= v1,
        0 <= v2,
        0 <= m1 < 0x10000000000000000,
        0 <= m2 < 0x10000000000000000,
        0 <= l1 < 0x10000000000000000,
        0 <= l2 < 0x10000000000000000,
    ensures
        (v1 * 0x100000000000000000000000000000000 + m1 * 0x10000000000000000 + l1 <= v2
            * 0x100000000000000000000000000000000 + m2 * 0x10000000000000000 + l2) == (if v1 != v2 {
            v1 < v2
        } else if m1 != m2 {
            m1 < m2
        } else {
            l1 <= l2
        }),
{
}

} // verus!
