//! RGBA colors and the HSL conversion used when painting creatures.
//!
//! The HSL conversion is the classic piecewise-linear hue ramp.  It is
//! computed here in exact integer arithmetic: hues live on a circle of
//! 1080 parts, saturation and lightness are percentages, and every channel
//! is pinned down by a spec function, including the final doubled 255 scale
//! and the saturating rounding of the channel values.

use vstd::prelude::*;
use crate::fixed::FX_ONE;
use crate::fixed::fdiv;
use crate::fixed::floor_div_i128;
use crate::fixed::lemma_mul_i64_fits;
use crate::fixed::lemma_mul_bounds_abs;

verus! {

#[derive(Clone, Copy, Debug, PartialEq, Eq, Structural)]
pub struct Color {
    pub r: u8,
    pub g: u8,
    pub b: u8,
    pub a: u8,
}

/// Round a quotient `n / d` (with `d > 0`) to the nearest integer,
/// halves away from zero.
pub open spec fn round_half_away(n: int, d: int) -> int
    recommends
        d > 0,
{
    if n >= 0 {
        fdiv(2 * n + d, 2 * d)
    } else {
        -fdiv(2 * (-n) + d, 2 * d)
    }
}

/// Clamp an integer into a single color channel.
pub open spec fn clamp255(x: int) -> int {
    if x < 0 {
        0
    } else if x > 255 {
        255
    } else {
        x
    }
}

/// Hue positions are carried as numerators over a denominator of 1080
/// (three points per degree), wrapped onto `[0, 1080)`.
pub open spec fn hue_wrap(t: int) -> int {
    ((t % 1080) + 1080) % 1080
}

/// Numerator (over 10000) of the upper interpolation bound `m2`.
pub open spec fn hsl_m2(s: int, l: int) -> int {
    if l <= 50 {
        l * (100 + s)
    } else {
        100 * l + 100 * s - l * s
    }
}

/// Numerator (over 10000) of the lower interpolation bound `m1`.
pub open spec fn hsl_m1(s: int, l: int) -> int {
    200 * l - hsl_m2(s, l)
}

/// The hue ramp: numerator over `10000 * 1080` of the channel intensity at
/// wrapped hue position `w`, interpolating between `m1` and `m2`.
pub open spec fn hsl_ramp(m1: int, m2: int, w: int) -> int {
    if w < 180 {
        m1 * 1080 + (m2 - m1) * 6 * w
    } else if w < 540 {
        m2 * 1080
    } else if w < 720 {
        m1 * 1080 + (m2 - m1) * 6 * (720 - w)
    } else {
        m1 * 1080
    }
}

/// A finished channel value: the ramp value scaled by 255 twice over its
/// denominator, rounded, and clamped into the channel range.
pub open spec fn hsl_channel(num: int) -> int {
    clamp255(round_half_away(65025 * num, 10800000))
}

/// The full conversion; zero saturation short-circuits to white.
pub open spec fn hsl_spec(hue: int, sat: int, light: int) -> Color {
    if sat == 0 {
        Color { r: 255, g: 255, b: 255, a: 255 }
    } else {
        let m2 = hsl_m2(sat, light);
        let m1 = hsl_m1(sat, light);
        Color {
            r: hsl_channel(hsl_ramp(m1, m2, hue_wrap(3 * hue + 360))) as u8,
            g: hsl_channel(hsl_ramp(m1, m2, hue_wrap(3 * hue))) as u8,
            b: hsl_channel(hsl_ramp(m1, m2, hue_wrap(3 * hue - 360))) as u8,
            a: 255,
        }
    }
}

/// One channel of a linear color mix: `a + f * (b - a)` with the blend
/// factor `f` in 16.16 fixed point, rounded to the nearest value.
pub open spec fn mix_channel(a: int, b: int, f: int) -> int {
    a + round_half_away(f * (b - a), FX_ONE as int)
}

/// Round `n / d` to the nearest integer, halves away from zero.
fn round_half_away_i128(n: i128, d: i128) -> (r: i128)
    requires
        0 < d <= 0x80000000,
        -0x1000000000000000000000000 <= n <= 0x1000000000000000000000000,
    ensures
        r as int == round_half_away(n as int, d as int),
{
    if n >= 0 {
        floor_div_i128(2 * n + d, 2 * d)
    } else {
        -floor_div_i128(2 * (-n) + d, 2 * d)
    }
}

/// Wrap a hue numerator onto `[0, 1080)`.
fn hue_wrap_exec(t: i64) -> (w: i64)
    requires
        -0x200000000 <= t <= 0x200000000,
    ensures
        w as int == hue_wrap(t as int),
        0 <= w < 1080,
{
    let shifted: i64 = t + 1080 * 0x4000000;
    let w: i64 = (shifted as u64 % 1080) as i64;
    proof {
        vstd::arithmetic::div_mod::lemma_mod_sub_multiples_vanish(
            shifted as int,
            1080,
        );
        vstd::arithmetic::div_mod::lemma_mod_twice(t as int, 1080);
        vstd::arithmetic::div_mod::lemma_mod_bound(t as int, 1080);
        vstd::arithmetic::div_mod::lemma_mod_adds(t as int % 1080, 1080, 1080);
    }
    w
}

impl Color {
    pub fn rgb(r: u8, g: u8, b: u8) -> (c: Self)
        ensures
            c == (Color { r, g, b, a: 255 }),
    {
        Color { r, g, b, a: 255 }
    }

    pub fn rgba(r: u8, g: u8, b: u8, a: u8) -> (c: Self)
        ensures
            c == (Color { r, g, b, a }),
    {
        Color { r, g, b, a }
    }

    pub fn black() -> (c: Self)
        ensures
            c == (Color { r: 0, g: 0, b: 0, a: 255 }),
    {
        Color::rgb(0, 0, 0)
    }

    pub fn white() -> (c: Self)
        ensures
            c == (Color { r: 255, g: 255, b: 255, a: 255 }),
    {
        Color::rgb(255, 255, 255)
    }

    /// Darken every color channel by `d`, stopping at black.
    pub fn darken(&self, d: u8) -> (c: Self)
        ensures
            c.r as int == if self.r >= d { self.r - d } else { 0int },
            c.g as int == if self.g >= d { self.g - d } else { 0int },
            c.b as int == if self.b >= d { self.b - d } else { 0int },
            c.a == self.a,
    {
        let r = if d <= self.r { self.r - d } else { 0 };
        let g = if d <= self.g { self.g - d } else { 0 };
        let b = if d <= self.b { self.b - d } else { 0 };
        Color::rgba(r, g, b, self.a)
    }

    /// Lighten every color channel by `d`, stopping at white.
    pub fn lighten(&self, d: u8) -> (c: Self)
        ensures
            c.r as int == if self.r + d <= 255 { self.r + d } else { 255int },
            c.g as int == if self.g + d <= 255 { self.g + d } else { 255int },
            c.b as int == if self.b + d <= 255 { self.b + d } else { 255int },
            c.a == self.a,
    {
        let r = if d <= 255 - self.r { self.r + d } else { 255 };
        let g = if d <= 255 - self.g { self.g + d } else { 255 };
        let b = if d <= 255 - self.b { self.b + d } else { 255 };
        Color::rgba(r, g, b, self.a)
    }

    /// Convert a hue (degrees), saturation and lightness (percent) triple.
    pub fn hsl(hue: i32, saturation: i32, lightness: i32) -> (c: Self)
        ensures
            c == hsl_spec(hue as int, saturation as int, lightness as int),
    {
        if saturation == 0 {
            return Color::rgb(255, 255, 255);
        }
        let s: i64 = saturation as i64;
        let l: i64 = lightness as i64;
        proof {
            lemma_mul_i64_fits(l as int, 100 + s as int);
            lemma_mul_i64_fits(l as int, s as int);
        }
        let m2: i128 = if l <= 50 {
            l as i128 * (100 + s as i128)
        } else {
            100 * l as i128 + 100 * s as i128 - l as i128 * s as i128
        };
        proof {
            assert(-0x10000000000000000 <= m2 as int <= 0x10000000000000000)
                by (nonlinear_arith)
                requires
                    m2 as int == hsl_m2(s as int, l as int),
                    -0x80000000 <= s as int <= 0x80000000,
                    -0x80000000 <= l as int <= 0x80000000,
            ;
        }
        let m1: i128 = 200 * l as i128 - m2;
        let r = Self::hsl_channel_exec(m1, m2, hue_wrap_exec(3 * hue as i64 + 360));
        let g = Self::hsl_channel_exec(m1, m2, hue_wrap_exec(3 * hue as i64));
        let b = Self::hsl_channel_exec(m1, m2, hue_wrap_exec(3 * hue as i64 - 360));
        Color::rgba(r, g, b, 255)
    }

    /// Evaluate the hue ramp and finish one channel.
    fn hsl_channel_exec(m1: i128, m2: i128, w: i64) -> (c: u8)
        requires
            0 <= w < 1080,
            -0x40000000000000000 <= m1 <= 0x40000000000000000,
            -0x40000000000000000 <= m2 <= 0x40000000000000000,
        ensures
            c as int == hsl_channel(hsl_ramp(m1 as int, m2 as int, w as int)),
    {
        proof {
            lemma_mul_bounds_abs(
                (m2 - m1) * 6,
                w as int,
                0x1800000000000000000,
                1080,
            );
            lemma_mul_bounds_abs(
                (m2 - m1) * 6,
                720 - w as int,
                0x1800000000000000000,
                1080,
            );
        }
        let num: i128 = if w < 180 {
            m1 * 1080 + (m2 - m1) * 6 * w as i128
        } else if w < 540 {
            m2 * 1080
        } else if w < 720 {
            m1 * 1080 + (m2 - m1) * 6 * (720 - w as i128)
        } else {
            m1 * 1080
        };
        proof {
            assert(-0x100000000000000000000 <= num <= 0x100000000000000000000)
                by (nonlinear_arith)
                requires
                    -0x40000000000000000 <= m1 as int <= 0x40000000000000000,
                    -0x40000000000000000 <= m2 as int <= 0x40000000000000000,
                    num as int == hsl_ramp(m1 as int, m2 as int, w as int),
                    0 <= w < 1080,
            ;
        }
        let rounded: i128 = round_half_away_i128(65025 * num, 10800000);
        if rounded < 0 {
            0
        } else if rounded > 255 {
            255
        } else {
            rounded as u8
        }
    }

    /// Linear mix of two colors: each channel moves from `self`'s value
    /// toward `other`'s by the fixed-point fraction `f`.
    pub fn mix(&self, other: Color, f: i64) -> (c: Color)
        requires
            0 <= f <= FX_ONE,
        ensures
            c.r as int == mix_channel(self.r as int, other.r as int, f as int),
            c.g as int == mix_channel(self.g as int, other.g as int, f as int),
            c.b as int == mix_channel(self.b as int, other.b as int, f as int),
            c.a == 255,
    {
        let r = Self::mix_channel_exec(self.r, other.r, f);
        let g = Self::mix_channel_exec(self.g, other.g, f);
        let b = Self::mix_channel_exec(self.b, other.b, f);
        Color::rgb(r, g, b)
    }

    /// One channel of `mix`; the result always lies between the endpoints.
    fn mix_channel_exec(a: u8, b: u8, f: i64) -> (c: u8)
        requires
            0 <= f <= FX_ONE,
        ensures
            c as int == mix_channel(a as int, b as int, f as int),
    {
        let delta: i128 = b as i128 - a as i128;
        proof {
            lemma_mul_i64_fits(f as int, delta as int);
            assert(-0x1000000000000000000000000 <= (f as int) * (delta as int)
                <= 0x1000000000000000000000000) by (nonlinear_arith)
                requires
                    0 <= f <= 65536,
                    -255 <= delta as int <= 255,
            ;
        }
        let scaled: i128 = round_half_away_i128(f as i128 * delta, FX_ONE as i128);
        proof {
            lemma_mix_channel_in_range(a as int, b as int, f as int);
        }
        (a as i128 + scaled) as u8
    }
}

/// The mixed channel value stays within the `u8` range: the rounded step
/// `round(f * (b - a) / 65536)` never overshoots the far endpoint.
proof fn lemma_mix_channel_in_range(a: int, b: int, f: int)
    requires
        0 <= a <= 255,
        0 <= b <= 255,
        0 <= f <= FX_ONE,
    ensures
        0 <= mix_channel(a, b, f) <= 255,
{
    let d = b - a;
    let n = f * d;
    if d >= 0 {
        assert(0 <= n <= 65536int * d) by (nonlinear_arith)
            requires
                0 <= f <= 65536int,
                d >= 0,
                n == f * d,
        ;
        assert(fdiv(2 * n + 65536int, 131072int) >= 0) by {
            vstd::arithmetic::div_mod::lemma_div_is_ordered(0, 2 * n + 65536int, 131072int);
        }
        assert(fdiv(2 * n + 65536int, 131072int) <= d) by {
            assert(2 * n + 65536int <= 131072int * d + 65536int);
            vstd::arithmetic::div_mod::lemma_div_is_ordered(
                2 * n + 65536int,
                131072int * d + 65536int,
                131072int,
            );
            assert(fdiv(131072int * d + 65536int, 131072int) == d) by (nonlinear_arith);
        }
    } else if n >= 0 {
        // `f * d >= 0` with `d < 0` forces `f == 0`, so the step is zero.
        assert(n == 0) by (nonlinear_arith)
            requires
                0 <= f,
                d < 0,
                n == f * d,
                n >= 0,
        ;
        assert(fdiv(65536int, 131072int) == 0) by {
            vstd::arithmetic::div_mod::lemma_basic_div(65536int, 131072int);
        }
    } else {
        let m = -n;
        assert(0 <= m <= 65536int * (-d)) by (nonlinear_arith)
            requires
                0 <= f <= 65536int,
                d < 0,
                m == -(f * d),
        ;
        assert(fdiv(2 * m + 65536int, 131072int) >= 0) by {
            vstd::arithmetic::div_mod::lemma_div_is_ordered(0, 2 * m + 65536int, 131072int);
        }
        assert(fdiv(2 * m + 65536int, 131072int) <= -d) by {
            assert(2 * m + 65536int <= 131072int * (-d) + 65536int);
            vstd::arithmetic::div_mod::lemma_div_is_ordered(
                2 * m + 65536int,
                131072int * (-d) + 65536int,
                131072int,
            );
            assert(fdiv(131072int * (-d) + 65536int, 131072int) == -d) by (nonlinear_arith);
        }
    }
}

} // verus!
