use vstd::prelude::*;
use crate::vector::SCALE;

verus! {

/// Bound on a fixed-point factor that scales a colour.
pub const FACTOR_LIMIT: i64 = 1000000000;

/// An RGB colour with one byte per channel.
#[derive(Clone, Copy, Debug, PartialEq, Eq, Structural)]
pub struct Color {
    pub r: u8,
    pub g: u8,
    pub b: u8,
}

/// Sum of two channel values, saturated at 255.
pub open spec fn sat_add(a: int, b: int) -> int {
    if a + b > 255 { 255 } else { a + b }
}

/// A channel value times the fixed-point factor `f`, rounded down and
/// saturated at 255.
pub open spec fn sat_scale(c: int, f: int) -> int {
    if c * f / SCALE as int > 255 { 255 } else { c * f / SCALE as int }
}

/// The channel value `(1 - f) * a + f * b` for a fixed-point `f` in `[0, 1]`, rounded down.
pub open spec fn lerp(a: int, b: int, f: int) -> int {
    (a * (SCALE - f) + b * f) / SCALE as int
}

pub open spec fn black_spec() -> Color {
    Color { r: 0, g: 0, b: 0 }
}

pub open spec fn add_spec(a: Color, b: Color) -> Color {
    Color {
        r: sat_add(a.r as int, b.r as int) as u8,
        g: sat_add(a.g as int, b.g as int) as u8,
        b: sat_add(a.b as int, b.b as int) as u8,
    }
}

pub open spec fn scale_spec(c: Color, f: int) -> Color {
    Color {
        r: sat_scale(c.r as int, f) as u8,
        g: sat_scale(c.g as int, f) as u8,
        b: sat_scale(c.b as int, f) as u8,
    }
}

pub open spec fn interpolate_spec(c1: Color, c2: Color, f: int) -> Color {
    Color {
        r: lerp(c1.r as int, c2.r as int, f) as u8,
        g: lerp(c1.g as int, c2.g as int, f) as u8,
        b: lerp(c1.b as int, c2.b as int, f) as u8,
    }
}

/// `0xRRGGBB`.
pub open spec fn hex_spec(c: Color) -> int {
    c.r as int * 65536 + c.g as int * 256 + c.b as int
}

fn add_channel(a: u8, b: u8) -> (r: u8)
    ensures
        r == sat_add(a as int, b as int),
{
    if a as u16 + b as u16 > 255 {
        255
    } else {
        a + b
    }
}

fn scale_channel(c: u8, f: i64) -> (r: u8)
    requires
        0 <= f <= FACTOR_LIMIT,
    ensures
        r == sat_scale(c as int, f as int),
{
    assert(0 <= c * f <= 255 * FACTOR_LIMIT) by (nonlinear_arith)
        requires 0 <= f <= FACTOR_LIMIT, 0 <= c <= 255;
    let v: i64 = (c as i64) * f / SCALE;
    if v > 255 {
        255
    } else {
        v as u8
    }
}

/// Channel between `a` and `b`; `f` is a fixed-point fraction in `[0, 1]`.
pub proof fn lemma_lerp_between(a: int, b: int, f: int)
    requires
        0 <= a <= 255,
        0 <= b <= 255,
        0 <= f <= SCALE,
    ensures
        a <= b ==> a <= lerp(a, b, f) <= b,
        b <= a ==> b <= lerp(a, b, f) <= a,
        lerp(a, b, 0) == a,
        lerp(a, b, SCALE as int) == b,
{
    let s = SCALE as int;
    let n = a * (s - f) + b * f;
    if a <= b {
        assert(a * s <= n <= b * s) by (nonlinear_arith)
            requires n == a * (s - f) + b * f, a <= b, 0 <= f <= s;
        vstd::arithmetic::div_mod::lemma_div_is_ordered(a * s, n, s);
        vstd::arithmetic::div_mod::lemma_div_is_ordered(n, b * s, s);
        vstd::arithmetic::div_mod::lemma_div_by_multiple(a, s);
        vstd::arithmetic::div_mod::lemma_div_by_multiple(b, s);
    }
    if b <= a {
        assert(b * s <= n <= a * s) by (nonlinear_arith)
            requires n == a * (s - f) + b * f, b <= a, 0 <= f <= s;
        vstd::arithmetic::div_mod::lemma_div_is_ordered(b * s, n, s);
        vstd::arithmetic::div_mod::lemma_div_is_ordered(n, a * s, s);
        vstd::arithmetic::div_mod::lemma_div_by_multiple(a, s);
        vstd::arithmetic::div_mod::lemma_div_by_multiple(b, s);
    }
    vstd::arithmetic::div_mod::lemma_div_by_multiple(a, s);
    vstd::arithmetic::div_mod::lemma_div_by_multiple(b, s);
    assert(a * (s - 0) + b * 0 == a * s) by (nonlinear_arith);
    assert(a * (s - s) + b * s == b * s) by (nonlinear_arith);
}

fn lerp_channel(a: u8, b: u8, f: i64) -> (r: u8)
    requires
        0 <= f <= SCALE,
    ensures
        r == lerp(a as int, b as int, f as int),
{
    proof {
        lemma_lerp_between(a as int, b as int, f as int);
        assert(0 <= a * (SCALE - f) <= 255 * SCALE) by (nonlinear_arith)
            requires 0 <= f <= SCALE, 0 <= a <= 255;
        assert(0 <= b * f <= 255 * SCALE) by (nonlinear_arith)
            requires 0 <= f <= SCALE, 0 <= b <= 255;
    }
    ((a as i64 * (SCALE - f) + b as i64 * f) / SCALE) as u8
}

/// The colour that is `factor` of the way from `color1` to `color2`;
/// `factor` is fixed-point, `0` giving `color1` and `SCALE` giving `color2`.
pub fn interpolate_color(color1: Color, color2: Color, factor: i64) -> (c: Color)
    requires
        0 <= factor <= SCALE,
    ensures
        c == interpolate_spec(color1, color2, factor as int),
{
    Color {
        r: lerp_channel(color1.r, color2.r, factor),
        g: lerp_channel(color1.g, color2.g, factor),
        b: lerp_channel(color1.b, color2.b, factor),
    }
}

impl Color {
    pub fn new(r: u8, g: u8, b: u8) -> (c: Color)
        ensures
            c == (Color { r, g, b }),
    {
        Color { r, g, b }
    }

    pub fn black() -> (c: Color)
        ensures
            c == black_spec(),
    {
        Color { r: 0, g: 0, b: 0 }
    }

    pub fn red(&self) -> (v: u8)
        ensures
            v == self.r,
    {
        self.r
    }

    pub fn green(&self) -> (v: u8)
        ensures
            v == self.g,
    {
        self.g
    }

    pub fn blue(&self) -> (v: u8)
        ensures
            v == self.b,
    {
        self.b
    }

    /// The colour packed as `0xRRGGBB`.
    pub fn to_hex(&self) -> (h: u32)
        ensures
            h == hex_spec(*self),
    {
        (self.r as u32) * 65536 + (self.g as u32) * 256 + (self.b as u32)
    }

    /// Channel-wise sum, saturated at 255.
    pub fn add(&self, o: &Color) -> (c: Color)
        ensures
            c == add_spec(*self, *o),
    {
        Color {
            r: add_channel(self.r, o.r),
            g: add_channel(self.g, o.g),
            b: add_channel(self.b, o.b),
        }
    }

    /// Each channel times the fixed-point factor `f`, rounded down and saturated at 255.
    pub fn scale(&self, f: i64) -> (c: Color)
        requires
            0 <= f <= FACTOR_LIMIT,
        ensures
            c == scale_spec(*self, f as int),
    {
        Color {
            r: scale_channel(self.r, f),
            g: scale_channel(self.g, f),
            b: scale_channel(self.b, f),
        }
    }
}

} // verus!
