//! Radiance accumulation: blending, averaging, gamma correction and the
//! conversion to an 8-bit display color.
use vstd::prelude::*;
use crate::fixed::{
    SCALE, abs1, tdiv, fmul_s, fsqrt_s,
    fmul, fsqrt, sdiv64,
    lemma_tdiv_mag, lemma_tdiv_monotone, lemma_tdiv_exact, lemma_isqrt_monotone,
};

verus! {

/// Three fixed-point channels; nonnegative until clamped for display.
#[derive(Clone, Copy, Debug, PartialEq, Eq, Structural)]
pub struct Color {
    pub red: i64,
    pub green: i64,
    pub blue: i64,
}

/// One blended channel: a convex combination at proportion `p`.
pub open spec fn mix_ch(x: int, y: int, p: int) -> int {
    fmul_s(x, 65536 - p) + fmul_s(y, p)
}

/// Linear interpolation between two colors at proportion `p` of the unit.
pub open spec fn mix_s(a: Color, b: Color, p: int) -> Color {
    Color {
        red: mix_ch(a.red as int, b.red as int, p) as i64,
        green: mix_ch(a.green as int, b.green as int, p) as i64,
        blue: mix_ch(a.blue as int, b.blue as int, p) as i64,
    }
}

/// The average over `n` samples: each channel divided by `n`.
pub open spec fn desample_s(c: Color, n: int) -> Color {
    Color {
        red: tdiv(c.red as int, n) as i64,
        green: tdiv(c.green as int, n) as i64,
        blue: tdiv(c.blue as int, n) as i64,
    }
}

/// Square-root gamma correction per channel.
pub open spec fn gamma_s(c: Color) -> Color {
    Color {
        red: fsqrt_s(c.red as int) as i64,
        green: fsqrt_s(c.green as int) as i64,
        blue: fsqrt_s(c.blue as int) as i64,
    }
}

/// Componentwise product of two colors.
pub open spec fn mul_color_s(a: Color, b: Color) -> Color {
    Color {
        red: fmul_s(a.red as int, b.red as int) as i64,
        green: fmul_s(a.green as int, b.green as int) as i64,
        blue: fmul_s(a.blue as int, b.blue as int) as i64,
    }
}

/// Componentwise sum.
pub open spec fn add_color_s(a: Color, b: Color) -> Color {
    Color {
        red: (a.red + b.red) as i64,
        green: (a.green + b.green) as i64,
        blue: (a.blue + b.blue) as i64,
    }
}

/// The channelwise sum of a sequence of colors.
pub open spec fn sum_colors(cs: Seq<Color>) -> Color
    decreases cs.len(),
{
    if cs.len() == 0 {
        Color { red: 0, green: 0, blue: 0 }
    } else {
        add_color_s(sum_colors(cs.drop_last()), cs.last())
    }
}

/// A channel clamped to the unit interval, then spread over 0..=255.
pub open spec fn display_ch(x: int) -> int {
    let c = if x < 0 { 0 } else if x > 65536 { 65536 } else { x };
    tdiv(c * 255, 65536)
}

/// Channels all within `[0, m]`.
pub open spec fn chans_in(c: Color, m: int) -> bool {
    0 <= c.red <= m && 0 <= c.green <= m && 0 <= c.blue <= m
}

impl Color {
    pub fn new(red: i64, green: i64, blue: i64) -> (r: Color)
        ensures r == (Color { red, green, blue }),
    {
        Color { red, green, blue }
    }

    /// Blends `self` toward `other` by `proportion` of the unit, which
    /// must lie in `[0, 1]`.
    pub fn mix(&self, other: &Color, proportion: i64) -> (r: Color)
        requires
            0 <= proportion <= 65536,
            abs1(self.red as int) <= 0x80_0000_0000,
            abs1(self.green as int) <= 0x80_0000_0000,
            abs1(self.blue as int) <= 0x80_0000_0000,
            abs1(other.red as int) <= 0x80_0000_0000,
            abs1(other.green as int) <= 0x80_0000_0000,
            abs1(other.blue as int) <= 0x80_0000_0000,
        ensures r == mix_s(*self, *other, proportion as int),
    {
        Color {
            red: blend_ch(self.red, other.red, proportion),
            green: blend_ch(self.green, other.green, proportion),
            blue: blend_ch(self.blue, other.blue, proportion),
        }
    }

    /// Divides every channel by the sample count.
    pub fn desample(&self, samples: u32) -> (r: Color)
        requires
            samples >= 1,
            abs1(self.red as int) <= 0x4000_0000_0000_0000,
            abs1(self.green as int) <= 0x4000_0000_0000_0000,
            abs1(self.blue as int) <= 0x4000_0000_0000_0000,
        ensures r == desample_s(*self, samples as int),
    {
        let n = samples as i64;
        Color {
            red: sdiv64(self.red, n),
            green: sdiv64(self.green, n),
            blue: sdiv64(self.blue, n),
        }
    }

    /// Square-root gamma correction; channels must be nonnegative.
    pub fn gamma_correct(&self) -> (r: Color)
        requires
            0 <= self.red <= 0x4000_0000_0000_0000,
            0 <= self.green <= 0x4000_0000_0000_0000,
            0 <= self.blue <= 0x4000_0000_0000_0000,
        ensures r == gamma_s(*self),
    {
        Color {
            red: fsqrt(self.red),
            green: fsqrt(self.green),
            blue: fsqrt(self.blue),
        }
    }

    /// Clamps each channel to the unit interval and spreads it over one
    /// display byte, truncating.
    pub fn as_image_color(&self) -> (r: (u8, u8, u8))
        ensures
            r.0 == display_ch(self.red as int),
            r.1 == display_ch(self.green as int),
            r.2 == display_ch(self.blue as int),
    {
        (display_byte(self.red), display_byte(self.green), display_byte(self.blue))
    }

    /// Adds `other` into the accumulator channelwise.
    pub fn add_assign(&mut self, other: Color)
        requires
            abs1(old(self).red as int) <= 0x1000_0000_0000_0000,
            abs1(old(self).green as int) <= 0x1000_0000_0000_0000,
            abs1(old(self).blue as int) <= 0x1000_0000_0000_0000,
            abs1(other.red as int) <= 0x1000_0000_0000_0000,
            abs1(other.green as int) <= 0x1000_0000_0000_0000,
            abs1(other.blue as int) <= 0x1000_0000_0000_0000,
        ensures *final(self) == add_color_s(*old(self), other),
    {
        self.red = self.red + other.red;
        self.green = self.green + other.green;
        self.blue = self.blue + other.blue;
    }

    /// Scales every channel by the fixed-point factor.
    pub fn mul_scalar(self, k: i64) -> (r: Color)
        requires
            abs1(self.red as int) <= 0x80_0000_0000,
            abs1(self.green as int) <= 0x80_0000_0000,
            abs1(self.blue as int) <= 0x80_0000_0000,
            abs1(k as int) <= 0x80_0000_0000,
        ensures
            r == (Color {
                red: fmul_s(self.red as int, k as int) as i64,
                green: fmul_s(self.green as int, k as int) as i64,
                blue: fmul_s(self.blue as int, k as int) as i64,
            }),
    {
        Color { red: fmul(self.red, k), green: fmul(self.green, k), blue: fmul(self.blue, k) }
    }

    /// Componentwise (filter) product with another color.
    pub fn mul_color(self, other: Color) -> (r: Color)
        requires
            abs1(self.red as int) <= 0x80_0000_0000,
            abs1(self.green as int) <= 0x80_0000_0000,
            abs1(self.blue as int) <= 0x80_0000_0000,
            abs1(other.red as int) <= 0x80_0000_0000,
            abs1(other.green as int) <= 0x80_0000_0000,
            abs1(other.blue as int) <= 0x80_0000_0000,
        ensures r == mul_color_s(self, other),
    {
        Color {
            red: fmul(self.red, other.red),
            green: fmul(self.green, other.green),
            blue: fmul(self.blue, other.blue),
        }
    }
}

impl Default for Color {
    /// Black: every channel zero.
    fn default() -> (r: Color)
        ensures r == (Color { red: 0, green: 0, blue: 0 }),
    {
        Color { red: 0, green: 0, blue: 0 }
    }
}

/// One blended channel: the two parts each shrink below their operand's
/// magnitude, so their sum stays well inside the representable range.
fn blend_ch(x: i64, y: i64, p: i64) -> (r: i64)
    requires
        0 <= p <= 65536,
        abs1(x as int) <= 0x80_0000_0000,
        abs1(y as int) <= 0x80_0000_0000,
    ensures
        r == mix_ch(x as int, y as int, p as int),
        abs1(r as int) <= abs1(x as int) + abs1(y as int),
{
    let f1 = fmul(x, SCALE - p);
    let f2 = fmul(y, p);
    proof {
        assert(abs1(x as int) * abs1((65536 - p) as int) <= abs1(x as int) * 65536
            && abs1(y as int) * abs1(p as int) <= abs1(y as int) * 65536) by (nonlinear_arith)
            requires
                0 <= abs1((65536 - p) as int) <= 65536,
                0 <= abs1(p as int) <= 65536,
                0 <= abs1(x as int),
                0 <= abs1(y as int),
        ;
    }
    f1 + f2
}

/// One channel clamped and spread over a display byte.
fn display_byte(x: i64) -> (r: u8)
    ensures r == display_ch(x as int),
{
    let c: i64 = if x < 0 { 0 } else if x > SCALE { SCALE } else { x };
    proof {
        lemma_tdiv_monotone((c as int) * 255, (65536 as int) * 255, 65536 as int);
        lemma_tdiv_exact(255, 65536);
        lemma_tdiv_mag(c as int * 255, 65536);
    }
    let v = sdiv64(c * 255, SCALE);
    v as u8
}

/// Blending at proportion zero returns the first color unchanged, and at
/// the full unit the second: the endpoints of `mix` are exact.
pub proof fn lemma_mix_edges(a: Color, b: Color)
    ensures
        mix_s(a, b, 0) == a,
        mix_s(a, b, 65536) == b,
{
    lemma_tdiv_exact(a.red as int, 65536);
    lemma_tdiv_exact(a.green as int, 65536);
    lemma_tdiv_exact(a.blue as int, 65536);
    lemma_tdiv_exact(b.red as int, 65536);
    lemma_tdiv_exact(b.green as int, 65536);
    lemma_tdiv_exact(b.blue as int, 65536);
    assert(fmul_s(a.red as int, 0) == 0 && fmul_s(a.green as int, 0) == 0
        && fmul_s(a.blue as int, 0) == 0 && fmul_s(b.red as int, 0) == 0
        && fmul_s(b.green as int, 0) == 0 && fmul_s(b.blue as int, 0) == 0) by (nonlinear_arith);
}

/// Blending two colors whose channels lie in the unit interval stays in
/// the unit interval.
pub proof fn lemma_mix_range(a: Color, b: Color, p: int)
    requires
        chans_in(a, 65536),
        chans_in(b, 65536),
        0 <= p <= 65536,
    ensures chans_in(mix_s(a, b, p), 65536),
{
    lemma_mix_ch_range(a.red as int, b.red as int, p);
    lemma_mix_ch_range(a.green as int, b.green as int, p);
    lemma_mix_ch_range(a.blue as int, b.blue as int, p);
}

proof fn lemma_mix_ch_range(x: int, y: int, p: int)
    requires
        0 <= x <= 65536,
        0 <= y <= 65536,
        0 <= p <= 65536,
    ensures 0 <= mix_ch(x, y, p) <= 65536,
{
    lemma_tdiv_mag(x * (65536 - p), 65536);
    lemma_tdiv_mag(y * p, 65536);
    assert(0 <= x * (65536 - p) && 0 <= y * p
        && x * (65536 - p) + y * p <= 65536 * 65536) by (nonlinear_arith)
        requires 0 <= x <= 65536, 0 <= y <= 65536, 0 <= p <= 65536,
    ;
    assert(fmul_s(x, 65536 - p) * 65536 + fmul_s(y, p) * 65536 <= 65536 * 65536);
    assert(mix_ch(x, y, p) * 65536 <= 65536 * 65536) by (nonlinear_arith)
        requires
            mix_ch(x, y, p) == fmul_s(x, 65536 - p) + fmul_s(y, p),
            fmul_s(x, 65536 - p) * 65536 + fmul_s(y, p) * 65536 <= 65536 * 65536,
    ;
    assert(mix_ch(x, y, p) <= 65536) by (nonlinear_arith)
        requires mix_ch(x, y, p) * 65536 <= 65536 * 65536,
    ;
}

/// The filter product of two unit-interval colors stays in the unit
/// interval.
pub proof fn lemma_mul_color_range(a: Color, b: Color)
    requires
        chans_in(a, 65536),
        chans_in(b, 65536),
    ensures chans_in(mul_color_s(a, b), 65536),
{
    lemma_mul_ch_range(a.red as int, b.red as int);
    lemma_mul_ch_range(a.green as int, b.green as int);
    lemma_mul_ch_range(a.blue as int, b.blue as int);
}

proof fn lemma_mul_ch_range(x: int, y: int)
    requires
        0 <= x <= 65536,
        0 <= y <= 65536,
    ensures 0 <= fmul_s(x, y) <= 65536,
{
    lemma_tdiv_mag(x * y, 65536);
    assert(0 <= x * y <= 65536 * 65536) by (nonlinear_arith)
        requires 0 <= x <= 65536, 0 <= y <= 65536,
    ;
    assert(fmul_s(x, y) <= 65536) by (nonlinear_arith)
        requires fmul_s(x, y) * 65536 <= 65536 * 65536,
    ;
}

/// Averaging then gamma-correcting is monotone: raising a channel of the
/// accumulated color never lowers the corresponding display channel, for
/// a fixed sample count.
pub proof fn lemma_display_monotone(c1: Color, c2: Color, n: int)
    requires
        n >= 1,
        0 <= c1.red <= c2.red,
        0 <= c1.green <= c2.green,
        0 <= c1.blue <= c2.blue,
    ensures
        fsqrt_s(tdiv(c1.red as int, n)) <= fsqrt_s(tdiv(c2.red as int, n)),
        fsqrt_s(tdiv(c1.green as int, n)) <= fsqrt_s(tdiv(c2.green as int, n)),
        fsqrt_s(tdiv(c1.blue as int, n)) <= fsqrt_s(tdiv(c2.blue as int, n)),
{
    lemma_display_ch_monotone(c1.red as int, c2.red as int, n);
    lemma_display_ch_monotone(c1.green as int, c2.green as int, n);
    lemma_display_ch_monotone(c1.blue as int, c2.blue as int, n);
}

proof fn lemma_display_ch_monotone(x: int, y: int, n: int)
    requires
        0 <= x <= y,
        n >= 1,
    ensures fsqrt_s(tdiv(x, n)) <= fsqrt_s(tdiv(y, n)),
{
    lemma_tdiv_monotone(x, y, n);
    lemma_isqrt_monotone(tdiv(x, n) * 65536, tdiv(y, n) * 65536);
}

} // verus!
