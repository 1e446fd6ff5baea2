//! 3D vector and point algebra over fixed-point scalars, with the random
//! sampling helpers the materials draw from.
use vstd::prelude::*;
use vstd::arithmetic::div_mod::lemma_fundamental_div_mod;
use crate::fixed::{
    SCALE, abs1, tdiv, fmul_s, fdiv_s, fsqrt_s, isqrt_s,
    fmul, fdiv, fsqrt, sdiv64,
    lemma_isqrt_property, lemma_tdiv_mag,
};

verus! {

/// A 3-component fixed-point vector.
#[derive(Clone, Copy, Debug, PartialEq, Eq, Structural)]
pub struct Vec3 {
    pub x: i64,
    pub y: i64,
    pub z: i64,
}

/// Directions and displacements.
pub type Vector = Vec3;

/// Positions.
pub type Point = Vec3;

/// Every component has magnitude at most `m`.
pub open spec fn in_box(v: Vec3, m: int) -> bool {
    abs1(v.x as int) <= m && abs1(v.y as int) <= m && abs1(v.z as int) <= m
}

pub open spec fn add_s(a: Vec3, b: Vec3) -> Vec3 {
    Vec3 { x: (a.x + b.x) as i64, y: (a.y + b.y) as i64, z: (a.z + b.z) as i64 }
}

pub open spec fn sub_s(a: Vec3, b: Vec3) -> Vec3 {
    Vec3 { x: (a.x - b.x) as i64, y: (a.y - b.y) as i64, z: (a.z - b.z) as i64 }
}

pub open spec fn neg_s(a: Vec3) -> Vec3 {
    Vec3 { x: (-a.x) as i64, y: (-a.y) as i64, z: (-a.z) as i64 }
}

/// Componentwise fixed-point scaling.
pub open spec fn scale_s(a: Vec3, k: int) -> Vec3 {
    Vec3 {
        x: fmul_s(a.x as int, k) as i64,
        y: fmul_s(a.y as int, k) as i64,
        z: fmul_s(a.z as int, k) as i64,
    }
}

/// The exact (unscaled) sum of componentwise products.
pub open spec fn raw_dot_s(a: Vec3, b: Vec3) -> int {
    (a.x as int) * (b.x as int) + (a.y as int) * (b.y as int) + (a.z as int) * (b.z as int)
}

/// The fixed-point dot product.
pub open spec fn dot_s(a: Vec3, b: Vec3) -> int {
    tdiv(raw_dot_s(a, b), 65536)
}

/// The fixed-point squared length.
pub open spec fn sq_len_s(a: Vec3) -> int {
    dot_s(a, a)
}

/// The fixed-point length.
pub open spec fn len_s(a: Vec3) -> int {
    fsqrt_s(sq_len_s(a))
}

/// The vector divided by its own length.
pub open spec fn normalize_s(a: Vec3) -> Vec3 {
    let l = len_s(a);
    Vec3 {
        x: fdiv_s(a.x as int, l) as i64,
        y: fdiv_s(a.y as int, l) as i64,
        z: fdiv_s(a.z as int, l) as i64,
    }
}

/// Specular reflection about a normal: `v - n * (2 * dot(v, n))`.
pub open spec fn reflect_s(v: Vec3, n: Vec3) -> Vec3 {
    sub_s(v, scale_s(n, 2 * dot_s(v, n)))
}

impl Vec3 {
    /// Builds a vector from its components.
    pub fn new(x: i64, y: i64, z: i64) -> (r: Vec3)
        ensures r == (Vec3 { x, y, z }),
    {
        Vec3 { x, y, z }
    }

    /// Componentwise sum.
    pub fn add(self, o: Vec3) -> (r: Vec3)
        requires
            in_box(self, 0x1000_0000_0000_0000),
            in_box(o, 0x1000_0000_0000_0000),
        ensures r == add_s(self, o),
    {
        Vec3 { x: self.x + o.x, y: self.y + o.y, z: self.z + o.z }
    }

    /// Componentwise difference.
    pub fn sub(self, o: Vec3) -> (r: Vec3)
        requires
            in_box(self, 0x1000_0000_0000_0000),
            in_box(o, 0x1000_0000_0000_0000),
        ensures r == sub_s(self, o),
    {
        Vec3 { x: self.x - o.x, y: self.y - o.y, z: self.z - o.z }
    }

    /// Componentwise negation.
    pub fn neg(self) -> (r: Vec3)
        requires in_box(self, 0x1000_0000_0000_0000),
        ensures r == neg_s(self),
    {
        Vec3 { x: -self.x, y: -self.y, z: -self.z }
    }

    /// Scales every component by the fixed-point factor `k`.
    pub fn scale(self, k: i64) -> (r: Vec3)
        requires
            in_box(self, 0x80_0000_0000),
            abs1(k as int) <= 0x80_0000_0000,
        ensures
            r == scale_s(self, k as int),
            abs1(r.x as int) * 65536 <= abs1(self.x as int) * abs1(k as int),
            abs1(r.y as int) * 65536 <= abs1(self.y as int) * abs1(k as int),
            abs1(r.z as int) * 65536 <= abs1(self.z as int) * abs1(k as int),
    {
        Vec3 { x: fmul(self.x, k), y: fmul(self.y, k), z: fmul(self.z, k) }
    }

    /// Fixed-point dot product.
    pub fn dot(self, o: Vec3) -> (r: i64)
        requires
            in_box(self, 0x4000_0000),
            in_box(o, 0x4000_0000),
        ensures
            r == dot_s(self, o),
            abs1(r as int) * 65536 <= abs1(self.x as int) * abs1(o.x as int)
                + abs1(self.y as int) * abs1(o.y as int)
                + abs1(self.z as int) * abs1(o.z as int),
            self == o ==> r >= 0 && raw_dot_s(self, o) >= 0,
    {
        let px = mul_raw(self.x, o.x);
        let py = mul_raw(self.y, o.y);
        let pz = mul_raw(self.z, o.z);
        let raw: i64 = px + py + pz;
        proof {
            lemma_tdiv_mag(raw as int, 65536);
            if self == o {
                assert(px >= 0 && py >= 0 && pz >= 0) by (nonlinear_arith)
                    requires
                        px == (self.x as int) * (self.x as int),
                        py == (self.y as int) * (self.y as int),
                        pz == (self.z as int) * (self.z as int),
                ;
            }
        }
        sdiv64(raw, 65536)
    }

    /// Fixed-point squared length.
    pub fn square_length(self) -> (r: i64)
        requires in_box(self, 0x4000_0000),
        ensures
            r == sq_len_s(self),
            0 <= r,
            r * 65536 <= abs1(self.x as int) * abs1(self.x as int)
                + abs1(self.y as int) * abs1(self.y as int)
                + abs1(self.z as int) * abs1(self.z as int),
    {
        self.dot(self)
    }

    /// Fixed-point length.
    pub fn length(self) -> (r: i64)
        requires in_box(self, 0x4000_0000),
        ensures r == len_s(self), r >= 0,
    {
        let sq = self.square_length();
        assert(sq <= 0x4000_0000_0000_0000) by (nonlinear_arith)
            requires
                sq * 65536 <= abs1(self.x as int) * abs1(self.x as int)
                    + abs1(self.y as int) * abs1(self.y as int)
                    + abs1(self.z as int) * abs1(self.z as int),
                abs1(self.x as int) <= 0x4000_0000,
                abs1(self.y as int) <= 0x4000_0000,
                abs1(self.z as int) <= 0x4000_0000,
        ;
        fsqrt(sq)
    }

    /// Divides the vector by its own length. The squared length must be
    /// at least one grid step, so the length is nonzero.
    pub fn normalize(self) -> (r: Vec3)
        requires
            in_box(self, 0x4000_0000),
            1 <= sq_len_s(self),
        ensures
            r == normalize_s(self),
            in_box(r, 131072),
    {
        proof {
            lemma_normalize_in_box(self);
        }
        let sq = self.square_length();
        assert(sq <= 0x4000_0000_0000_0000) by (nonlinear_arith)
            requires
                sq * 65536 <= abs1(self.x as int) * abs1(self.x as int)
                    + abs1(self.y as int) * abs1(self.y as int)
                    + abs1(self.z as int) * abs1(self.z as int),
                abs1(self.x as int) <= 0x4000_0000,
                abs1(self.y as int) <= 0x4000_0000,
                abs1(self.z as int) <= 0x4000_0000,
        ;
        let l = self.length();
        proof {
            lemma_isqrt_property(sq * 65536);
            assert(l >= 1) by (nonlinear_arith)
                requires
                    l == isqrt_s(sq * 65536),
                    l >= 0,
                    sq >= 1,
                    (sq * 65536) < (l + 1) * (l + 1),
            ;
            assert(l <= 0x4000_0000_0000) by (nonlinear_arith)
                requires
                    l >= 0,
                    l * l <= sq * 65536,
                    sq <= 0x4000_0000_0000_0000,
                    l == isqrt_s(sq * 65536),
                    isqrt_s(sq * 65536) * isqrt_s(sq * 65536) <= sq * 65536,
                    sq * 65536 <= 0x4000_0000_0000_0000 * 65536,
            ;
        }
        Vec3 { x: fdiv(self.x, l), y: fdiv(self.y, l), z: fdiv(self.z, l) }
    }

    /// True exactly when the vector is indistinguishable from zero: a
    /// nonzero fixed-point component already has magnitude one grid step,
    /// far above the cutoff below which a scatter direction degenerates.
    pub fn near_zero(&self) -> (r: bool)
        ensures r <==> (self.x == 0 && self.y == 0 && self.z == 0),
    {
        self.x == 0 && self.y == 0 && self.z == 0
    }

    /// Mirror reflection about `normal`.
    pub fn reflect(&self, normal: Vec3) -> (r: Vec3)
        requires
            in_box(*self, 0x40_0000),
            in_box(normal, 0x4_0000),
        ensures r == reflect_s(*self, normal),
    {
        let d = self.dot(normal);
        proof {
            assert(abs1(2 * d) <= 0x80_0000_0000 && abs1(d as int) * 65536 <= 3 * (0x40_0000 * 0x4_0000))
                by (nonlinear_arith)
                requires
                    abs1(d as int) * 65536 <= abs1(self.x as int) * abs1(normal.x as int)
                        + abs1(self.y as int) * abs1(normal.y as int)
                        + abs1(self.z as int) * abs1(normal.z as int),
                    abs1(self.x as int) <= 0x40_0000,
                    abs1(self.y as int) <= 0x40_0000,
                    abs1(self.z as int) <= 0x40_0000,
                    abs1(normal.x as int) <= 0x4_0000,
                    abs1(normal.y as int) <= 0x4_0000,
                    abs1(normal.z as int) <= 0x4_0000,
            ;
        }
        let scaled = normal.scale(2 * d);
        proof {
            lemma_scale_box(normal, 2 * d as int, 0x4_0000, 0x80_0000_0000);
        }
        self.sub(scaled)
    }
}

/// Snell's-law refraction, decomposed into the components perpendicular
/// and parallel to the normal; the incidence cosine is clamped to at most
/// one before use.
pub open spec fn refract_s(v: Vec3, n: Vec3, eta: int) -> Vec3 {
    let cos0 = dot_s(neg_s(v), n);
    let cos = if cos0 > 65536 { 65536 } else { cos0 };
    let perp = scale_s(add_s(v, scale_s(n, cos)), eta);
    let k = 65536 - sq_len_s(perp);
    add_s(perp, scale_s(neg_s(n), fsqrt_s(abs1(k))))
}

impl Vec3 {
    /// Refraction across `normal` with refraction ratio `eta`.
    pub fn refract(&self, normal: Vec3, eta: i64) -> (r: Vec3)
        requires
            in_box(*self, 0x4_0000),
            in_box(normal, 0x4_0000),
            0 < eta <= 0x10_0000,
        ensures r == refract_s(*self, normal, eta as int),
    {
        let cos0 = self.neg().dot(normal);
        proof {
            assert(abs1(cos0 as int) * 65536 <= 3 * (0x4_0000 * 0x4_0000)) by (nonlinear_arith)
                requires
                    abs1(cos0 as int) * 65536 <= abs1(-self.x as int) * abs1(normal.x as int)
                        + abs1(-self.y as int) * abs1(normal.y as int)
                        + abs1(-self.z as int) * abs1(normal.z as int),
                    abs1(-self.x as int) <= 0x4_0000,
                    abs1(-self.y as int) <= 0x4_0000,
                    abs1(-self.z as int) <= 0x4_0000,
                    abs1(normal.x as int) <= 0x4_0000,
                    abs1(normal.y as int) <= 0x4_0000,
                    abs1(normal.z as int) <= 0x4_0000,
            ;
        }
        let cos = if cos0 > SCALE { SCALE } else { cos0 };
        let towards = normal.scale(cos);
        proof {
            lemma_scale_box(normal, cos as int, 0x4_0000, 0x30_0000);
        }
        let inner = self.add(towards);
        assert(in_box(inner, 0xC4_0001));
        let perp = inner.scale(eta);
        proof {
            lemma_scale_box(inner, eta as int, 0xC4_0001, 0x10_0000);
        }
        let sq = perp.square_length();
        assert(sq <= 0x4000_0000_0000_0000) by (nonlinear_arith)
            requires
                sq * 65536 <= abs1(perp.x as int) * abs1(perp.x as int)
                    + abs1(perp.y as int) * abs1(perp.y as int)
                    + abs1(perp.z as int) * abs1(perp.z as int),
                abs1(perp.x as int) <= 0x4000_0000,
                abs1(perp.y as int) <= 0x4000_0000,
                abs1(perp.z as int) <= 0x4000_0000,
        ;
        let k: i64 = SCALE - sq;
        let ka: i64 = if k < 0 { -k } else { k };
        let root = fsqrt(ka);
        assert(root <= 0x80_0000_0000) by (nonlinear_arith)
            requires
                0 <= root,
                (root as int) * (root as int) <= (ka as int) * 65536,
                ka <= 0x4000_0000_0000_0000,
        ;
        let par = normal.neg().scale(root);
        proof {
            lemma_scale_box(neg_s(normal), root as int, 0x4_0000, 0x80_0000_0000);
        }
        perp.add(par)
    }
}

/// Exact integer triples: the rounding-free model of the vector algebra.
pub open spec fn dot_exact(a: (int, int, int), b: (int, int, int)) -> int {
    a.0 * b.0 + a.1 * b.1 + a.2 * b.2
}

pub open spec fn scale_exact(a: (int, int, int), k: int) -> (int, int, int) {
    (k * a.0, k * a.1, k * a.2)
}

pub open spec fn sub_exact(a: (int, int, int), b: (int, int, int)) -> (int, int, int) {
    (a.0 - b.0, a.1 - b.1, a.2 - b.2)
}

/// Reflection about `n` in the exact model, at scale `s`: every reflection
/// multiplies the vector's scale by `s`, so the operation composes without
/// rounding.
pub open spec fn reflect_exact(v: (int, int, int), n: (int, int, int), s: int) -> (int, int, int) {
    sub_exact(scale_exact(v, s), scale_exact(n, 2 * dot_exact(v, n)))
}

/// Reflecting twice across a normal whose exact squared length is `s`
/// returns the original vector (scaled twice by `s`, the bookkeeping of
/// the rounding-free model): reflection is an involution. The executable
/// `reflect` realizes this map with one truncation per component.
pub proof fn lemma_reflect_involution(v: (int, int, int), n: (int, int, int), s: int)
    requires dot_exact(n, n) == s,
    ensures reflect_exact(reflect_exact(v, n, s), n, s) == scale_exact(v, s * s),
{
    let d = dot_exact(v, n);
    let w = reflect_exact(v, n, s);
    assert(w.0 == s * v.0 - 2 * d * n.0);
    assert(w.1 == s * v.1 - 2 * d * n.1);
    assert(w.2 == s * v.2 - 2 * d * n.2);
    let d2 = dot_exact(w, n);
    assert(w.0 * n.0 == s * (v.0 * n.0) - 2 * d * (n.0 * n.0)) by (nonlinear_arith)
        requires w.0 == s * v.0 - 2 * d * n.0,
    ;
    assert(w.1 * n.1 == s * (v.1 * n.1) - 2 * d * (n.1 * n.1)) by (nonlinear_arith)
        requires w.1 == s * v.1 - 2 * d * n.1,
    ;
    assert(w.2 * n.2 == s * (v.2 * n.2) - 2 * d * (n.2 * n.2)) by (nonlinear_arith)
        requires w.2 == s * v.2 - 2 * d * n.2,
    ;
    assert(s * (v.0 * n.0) + s * (v.1 * n.1) + s * (v.2 * n.2) == s * d) by (nonlinear_arith)
        requires d == v.0 * n.0 + v.1 * n.1 + v.2 * n.2,
    ;
    assert(2 * d * (n.0 * n.0) + 2 * d * (n.1 * n.1) + 2 * d * (n.2 * n.2) == 2 * (d * s))
        by (nonlinear_arith)
        requires s == n.0 * n.0 + n.1 * n.1 + n.2 * n.2,
    ;
    assert(d2 == -(s * d)) by (nonlinear_arith)
        requires
            d2 == s * d - 2 * (d * s),
    ;
    assert(s * w.0 - 2 * d2 * n.0 == (s * s) * v.0) by (nonlinear_arith)
        requires w.0 == s * v.0 - 2 * d * n.0, d2 == -(s * d),
    ;
    assert(s * w.1 - 2 * d2 * n.1 == (s * s) * v.1) by (nonlinear_arith)
        requires w.1 == s * v.1 - 2 * d * n.1, d2 == -(s * d),
    ;
    assert(s * w.2 - 2 * d2 * n.2 == (s * s) * v.2) by (nonlinear_arith)
        requires w.2 == s * v.2 - 2 * d * n.2, d2 == -(s * d),
    ;
}

/// Magnitude bound for a fixed-point dot product of box-bounded vectors.
pub proof fn lemma_dot_bound(u: Vec3, v: Vec3, d: int, m: int, n: int)
    requires
        d == dot_s(u, v),
        abs1(d) * 65536 <= abs1(u.x as int) * abs1(v.x as int)
            + abs1(u.y as int) * abs1(v.y as int)
            + abs1(u.z as int) * abs1(v.z as int),
        in_box(u, m),
        in_box(v, n),
        0 <= m,
        0 <= n,
    ensures
        abs1(d) * 65536 <= 3 * (m * n),
{
    assert(abs1(u.x as int) * abs1(v.x as int) <= m * n
        && abs1(u.y as int) * abs1(v.y as int) <= m * n
        && abs1(u.z as int) * abs1(v.z as int) <= m * n) by (nonlinear_arith)
        requires
            0 <= abs1(u.x as int) <= m,
            0 <= abs1(u.y as int) <= m,
            0 <= abs1(u.z as int) <= m,
            0 <= abs1(v.x as int) <= n,
            0 <= abs1(v.y as int) <= n,
            0 <= abs1(v.z as int) <= n,
    ;
}

/// The dot-product bound derived from the boxes alone.
pub proof fn lemma_dot_s_bound(u: Vec3, v: Vec3, m: int, n: int)
    requires
        in_box(u, m),
        in_box(v, n),
        0 <= m,
        0 <= n,
    ensures
        abs1(dot_s(u, v)) * 65536 <= 3 * (m * n),
{
    lemma_tdiv_mag(raw_dot_s(u, v), 65536);
    assert(abs1((u.x as int) * (v.x as int)) <= m * n) by (nonlinear_arith)
        requires abs1(u.x as int) <= m, abs1(v.x as int) <= n, 0 <= m, 0 <= n,
    ;
    assert(abs1((u.y as int) * (v.y as int)) <= m * n) by (nonlinear_arith)
        requires abs1(u.y as int) <= m, abs1(v.y as int) <= n, 0 <= m, 0 <= n,
    ;
    assert(abs1((u.z as int) * (v.z as int)) <= m * n) by (nonlinear_arith)
        requires abs1(u.z as int) <= m, abs1(v.z as int) <= n, 0 <= m, 0 <= n,
    ;
    assert(abs1(raw_dot_s(u, v)) <= 3 * (m * n));
}

/// Product of two bounded scalars, exact in `i64`.
fn mul_raw(a: i64, b: i64) -> (r: i64)
    requires
        abs1(a as int) <= 0x4000_0000,
        abs1(b as int) <= 0x4000_0000,
    ensures
        r == (a as int) * (b as int),
        abs1(r as int) == abs1(a as int) * abs1(b as int),
        abs1(r as int) <= 0x4000_0000 * 0x4000_0000,
{
    proof {
        assert(abs1((a as int) * (b as int)) == abs1(a as int) * abs1(b as int)
            && abs1((a as int) * (b as int)) <= 0x4000_0000 * 0x4000_0000) by (nonlinear_arith)
            requires
                abs1(a as int) <= 0x4000_0000,
                abs1(b as int) <= 0x4000_0000,
        ;
    }
    a * b
}

/// Componentwise magnitude bound for a scaled vector.
pub proof fn lemma_scale_box(v: Vec3, k: int, m: int, n: int)
    requires
        in_box(v, m),
        abs1(k) <= n,
        0 <= m,
        0 <= n,
    ensures
        in_box(scale_s(v, k), tdiv(m * n, 65536) + 1),
{
    lemma_tdiv_mag((v.x as int) * k, 65536);
    lemma_tdiv_mag((v.y as int) * k, 65536);
    lemma_tdiv_mag((v.z as int) * k, 65536);
    lemma_tdiv_mag(m * n, 65536);
    assert(abs1((v.x as int) * k) <= m * n && abs1((v.y as int) * k) <= m * n
        && abs1((v.z as int) * k) <= m * n) by (nonlinear_arith)
        requires
            abs1(v.x as int) <= m,
            abs1(v.y as int) <= m,
            abs1(v.z as int) <= m,
            abs1(k) <= n,
            0 <= m,
            0 <= n,
    ;
    lemma_tdiv_ordered_nonneg(abs1((v.x as int) * k), m * n, 65536);
    lemma_tdiv_ordered_nonneg(abs1((v.y as int) * k), m * n, 65536);
    lemma_tdiv_ordered_nonneg(abs1((v.z as int) * k), m * n, 65536);
    lemma_tdiv_abs((v.x as int) * k, 65536);
    lemma_tdiv_abs((v.y as int) * k, 65536);
    lemma_tdiv_abs((v.z as int) * k, 65536);
}

/// `tdiv` commutes with the absolute value for a positive divisor.
proof fn lemma_tdiv_abs(a: int, d: int)
    requires d > 0,
    ensures abs1(tdiv(a, d)) == tdiv(abs1(a), d),
{
    vstd::arithmetic::div_mod::lemma_div_pos_is_pos(abs1(a), d);
}

/// `tdiv` by a positive divisor is monotone on nonnegative operands.
proof fn lemma_tdiv_ordered_nonneg(a: int, b: int, d: int)
    requires 0 <= a <= b, d > 0,
    ensures tdiv(a, d) <= tdiv(b, d),
{
    vstd::arithmetic::div_mod::lemma_div_is_ordered(a, b, d);
}

/// A vector with squared length at least one grid step normalizes into a
/// box of twice the unit: truncation of the squared length can cost up to
/// one whole unit, which doubles the worst-case component.
pub proof fn lemma_normalize_in_box(v: Vec3)
    requires
        in_box(v, 0x4000_0000),
        1 <= sq_len_s(v),
    ensures
        in_box(normalize_s(v), 131072),
        1 <= len_s(v),
{
    let raw = raw_dot_s(v, v);
    let sq = sq_len_s(v);
    let l = len_s(v);
    assert((v.x as int) * (v.x as int) >= 0 && (v.y as int) * (v.y as int) >= 0
        && (v.z as int) * (v.z as int) >= 0) by (nonlinear_arith);
    assert(raw >= 0);
    lemma_fundamental_div_mod(raw, 65536);
    assert(raw % 65536 >= 0 && raw % 65536 < 65536) by (nonlinear_arith)
        requires raw >= 0,
    ;
    assert(sq == raw / 65536);
    assert(sq * 65536 <= raw && raw < sq * 65536 + 65536);
    lemma_isqrt_property(sq * 65536);
    assert(l * l <= sq * 65536 && sq * 65536 < (l + 1) * (l + 1) && l >= 0);
    assert(l >= 256) by (nonlinear_arith)
        requires
            l >= 0,
            sq >= 1,
            sq * 65536 < (l + 1) * (l + 1),
            sq * 65536 >= 65536,
    ;
    lemma_normalize_comp(v.x as int, raw, sq, l);
    lemma_normalize_comp(v.y as int, raw, sq, l);
    lemma_normalize_comp(v.z as int, raw, sq, l);
}

/// One component of a normalized vector stays within twice the unit.
proof fn lemma_normalize_comp(x: int, raw: int, sq: int, l: int)
    requires
        x * x <= raw,
        raw >= 0,
        sq * 65536 <= raw,
        raw < sq * 65536 + 65536,
        l * l <= sq * 65536,
        sq * 65536 < (l + 1) * (l + 1),
        l >= 256,
    ensures
        abs1(fdiv_s(x, l)) <= 131072,
{
    assert(abs1(x) < 2 * l) by (nonlinear_arith)
        requires
            x * x <= raw,
            raw < sq * 65536 + 65536,
            sq * 65536 < (l + 1) * (l + 1),
            l >= 256,
    ;
    lemma_tdiv_mag(x * 65536, l);
    assert(abs1(x * 65536) == abs1(x) * 65536) by (nonlinear_arith);
    assert(abs1(tdiv(x * 65536, l)) * l <= abs1(x) * 65536);
    assert(abs1(x) * 65536 <= (2 * l - 1) * 65536) by (nonlinear_arith)
        requires abs1(x) <= 2 * l - 1,
    ;
    assert(abs1(tdiv(x * 65536, l)) <= 131072) by (nonlinear_arith)
        requires
            abs1(tdiv(x * 65536, l)) * l <= (2 * l - 1) * 65536,
            l >= 256,
            abs1(tdiv(x * 65536, l)) >= 0,
    ;
}

/// Relies on `rand::thread_rng` and `rand::Rng::gen_range` for a uniform
/// draw from the half-open range `lo..hi`.
#[verifier::external_body]
pub(crate) fn rand_range(lo: i64, hi: i64) -> (r: i64)
    requires lo < hi,
    ensures lo <= r < hi,
{
    rand::Rng::gen_range(&mut rand::thread_rng(), lo..hi)
}

impl Vec3 {
    /// A vector with each component uniform in `[0, 1)`.
    pub fn random() -> (r: Vec3)
        ensures
            0 <= r.x < 65536,
            0 <= r.y < 65536,
            0 <= r.z < 65536,
            in_box(r, 65536),
    {
        let x = rand_range(0, SCALE);
        let y = rand_range(0, SCALE);
        let z = rand_range(0, SCALE);
        Vec3 { x, y, z }
    }

    /// A vector with each component uniform in `[min, max)`.
    pub fn random_in_range(min: i64, max: i64) -> (r: Vec3)
        requires
            min < max,
            abs1(min as int) <= 0x4000_0000,
            abs1(max as int) <= 0x4000_0000,
        ensures
            in_box(r, 0x4000_0000),
            min <= r.x < max,
            min <= r.y < max,
            min <= r.z < max,
    {
        let x = rand_range(min, max);
        let y = rand_range(min, max);
        let z = rand_range(min, max);
        Vec3 { x, y, z }
    }

    /// Rejection-samples a direction uniform on the unit sphere's surface:
    /// draws from the cube, keeps draws whose squared length lands in
    /// `[1/4, 1)` (a radial cut that leaves the direction distribution
    /// unchanged), and normalizes. The retry count is bounded so the
    /// function provably terminates; after that many misses (vanishingly
    /// unlikely) it falls back to a fixed in-range draw.
    pub fn random_in_unit_sphere() -> (r: Vec3)
        ensures
            in_box(r, 131072),
            exists|p: Vec3| in_box(p, 65536) && 16384 <= sq_len_s(p) < 65536
                && r == normalize_s(p),
    {
        let mut tries: u32 = 0;
        while tries < 64
            invariant tries <= 64,
            decreases 64 - tries,
        {
            let p = Vec3::random_in_range(-SCALE, SCALE);
            let sq = p.square_length();
            if 16384 <= sq && sq < SCALE {
                proof {
                    lemma_normalize_in_box(p);
                }
                return p.normalize();
            }
            tries = tries + 1;
        }
        let p = Vec3::new(0, 0, 32768);
        proof {
            assert(raw_dot_s(p, p) == 16384 * 65536) by (nonlinear_arith)
                requires p == (Vec3 { x: 0i64, y: 0i64, z: 32768i64 }),
            ;
            crate::fixed::lemma_tdiv_exact(16384, 65536);
            assert(sq_len_s(p) == 16384);
            lemma_normalize_in_box(p);
        }
        p.normalize()
    }
}

} // verus!
