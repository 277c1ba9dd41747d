//! Colors with three 8-bit channels, blended and attenuated in integer
//! arithmetic.

use crate::double::{scale_channel, Double};
use vstd::prelude::*;

verus! {

/// The square of the largest norm that a color can have: `3 * 255 * 255`.
pub const MAX_ABS_SQUARED: u64 = 195075;

/// A color with red, green and blue channels, each in `0..=255`.
#[derive(Clone, Copy, Debug, PartialEq, Eq, Structural)]
pub struct Color {
    pub r: u8,
    pub g: u8,
    pub b: u8,
}

/// The squared Euclidean norm of a triple.
pub open spec fn norm_squared(r: int, g: int, b: int) -> int {
    r * r + g * g + b * b
}

/// Whether `k` is the blended value of a channel whose sum is `s`, in a
/// triple of sums whose squared norm is `n`: the largest integer not above
/// `s * sqrt(n) / sqrt(MAX_ABS_SQUARED)`, or `255` where that is larger.
///
/// Both sides of the comparison are squared, which keeps it in the integers.
pub open spec fn is_blend(k: int, s: int, n: int) -> bool {
    &&& 0 <= k <= 255
    &&& MAX_ABS_SQUARED * (k * k) <= s * s * n
    &&& (k < 255 ==> s * s * n < MAX_ABS_SQUARED * ((k + 1) * (k + 1)))
}

/// The blended value of a channel: the one `k` with `is_blend(k, s, n)`.
pub open spec fn blend_channel(s: int, n: int) -> int {
    choose|k: int| is_blend(k, s, n)
}

/// The color that `mix` leaves in its receiver `a` when it is given `b`.
pub open spec fn mixed(a: Color, b: Color) -> Color {
    let n = norm_squared(a.r + b.r, a.g + b.g, a.b + b.b);
    Color {
        r: blend_channel(a.r + b.r, n) as u8,
        g: blend_channel(a.g + b.g, n) as u8,
        b: blend_channel(a.b + b.b, n) as u8,
    }
}

/// The color that `scale` makes of `color` when it is given `scalar`.
pub open spec fn scaled_by(color: Color, scalar: Double) -> Color {
    Color {
        r: scale_channel(color.r as int, scalar.units()) as u8,
        g: scale_channel(color.g as int, scalar.units()) as u8,
        b: scale_channel(color.b as int, scalar.units()) as u8,
    }
}

proof fn lemma_square_monotonic(a: int, b: int)
    by (nonlinear_arith)
    requires
        0 <= a <= b,
    ensures
        a * a <= b * b,
{
}

/// At most one value is the blend of given sums.
pub proof fn lemma_blend_unique(k1: int, k2: int, s: int, n: int)
    requires
        is_blend(k1, s, n),
        is_blend(k2, s, n),
    ensures
        k1 == k2,
{
    if k1 < k2 {
        lemma_square_monotonic(k1 + 1, k2);
    } else if k2 < k1 {
        lemma_square_monotonic(k2 + 1, k1);
    }
}

proof fn lemma_blend_search(k: int, s: int, n: int)
    requires
        0 <= k <= 255,
        0 <= s * s * n,
        k < 255 ==> s * s * n < MAX_ABS_SQUARED * ((k + 1) * (k + 1)),
    ensures
        exists|j: int| is_blend(j, s, n),
    decreases k,
{
    if MAX_ABS_SQUARED * (k * k) <= s * s * n {
        assert(is_blend(k, s, n));
    } else {
        assert(k != 0);
        lemma_blend_search(k - 1, s, n);
    }
}

/// Sums that are not negative have a blend, which lies in `0..=255` and is
/// the only value that `is_blend` accepts.
pub proof fn lemma_blend_channel(s: int, n: int)
    requires
        0 <= s,
        0 <= n,
    ensures
        is_blend(blend_channel(s, n), s, n),
        0 <= blend_channel(s, n) <= 255,
        forall|k: int| is_blend(k, s, n) ==> k == blend_channel(s, n),
{
    assert(0 <= s * s * n) by (nonlinear_arith)
        requires
            0 <= s,
            0 <= n,
    ;
    lemma_blend_search(255, s, n);
    assert forall|k: int| is_blend(k, s, n) implies k == blend_channel(s, n) by {
        lemma_blend_unique(k, blend_channel(s, n), s, n);
    }
}

/// Every channel that `mix` produces lies in `0..=255` before it is stored.
pub proof fn lemma_mixed_in_range(a: Color, b: Color)
    ensures
        ({
            let n = norm_squared(a.r + b.r, a.g + b.g, a.b + b.b);
            &&& mixed(a, b).r == blend_channel(a.r + b.r, n)
            &&& mixed(a, b).g == blend_channel(a.g + b.g, n)
            &&& mixed(a, b).b == blend_channel(a.b + b.b, n)
            &&& 0 <= blend_channel(a.r + b.r, n) <= 255
            &&& 0 <= blend_channel(a.g + b.g, n) <= 255
            &&& 0 <= blend_channel(a.b + b.b, n) <= 255
        }),
{
    let n = norm_squared(a.r + b.r, a.g + b.g, a.b + b.b);
    assert(0 <= n) by (nonlinear_arith)
        requires
            n == (a.r + b.r) * (a.r + b.r) + (a.g + b.g) * (a.g + b.g) + (a.b + b.b) * (a.b
                + b.b),
    ;
    lemma_blend_channel(a.r + b.r, n);
    lemma_blend_channel(a.g + b.g, n);
    lemma_blend_channel(a.b + b.b, n);
}

/// Every channel that `scale` produces lies in `0..=255` before it is
/// stored.
pub proof fn lemma_scaled_in_range(color: Color, scalar: Double)
    ensures
        scaled_by(color, scalar).r == scale_channel(color.r as int, scalar.units()),
        scaled_by(color, scalar).g == scale_channel(color.g as int, scalar.units()),
        scaled_by(color, scalar).b == scale_channel(color.b as int, scalar.units()),
        0 <= scale_channel(color.r as int, scalar.units()) <= 255,
        0 <= scale_channel(color.g as int, scalar.units()) <= 255,
        0 <= scale_channel(color.b as int, scalar.units()) <= 255,
{
}

/// Blends one channel: bisects `0..=255` for the largest `k` whose square,
/// times `MAX_ABS_SQUARED`, does not exceed `s * s * n`.
fn blend(s: u64, n: u64) -> (k: u8)
    requires
        s <= 510,
        n <= 780300,
    ensures
        k == blend_channel(s as int, n as int),
{
    assert(s * s <= 260100 && s * s * n <= 202956030000) by (nonlinear_arith)
        requires
            s <= 510,
            n <= 780300,
    ;
    let target: u64 = s * s * n;
    let mut low: u64 = 0;
    let mut high: u64 = 256;
    while high - low > 1
        invariant
            0 <= low < high <= 256,
            target == s * s * n,
            MAX_ABS_SQUARED * (low * low) <= target,
            high <= 255 ==> target < MAX_ABS_SQUARED * (high * high),
        decreases high - low,
    {
        let mid: u64 = low + (high - low) / 2;
        assert(mid * mid <= 255 * 255) by (nonlinear_arith)
            requires
                mid <= 255,
        ;
        if MAX_ABS_SQUARED * (mid * mid) <= target {
            low = mid;
        } else {
            high = mid;
        }
    }
    proof {
        assert(is_blend(low as int, s as int, n as int));
        lemma_blend_channel(s as int, n as int);
    }
    low as u8
}

impl Color {
    /// Builds a color from its three channels.
    pub fn new(r: u8, g: u8, b: u8) -> (color: Color)
        ensures
            color == (Color { r, g, b }),
    {
        Color { r, g, b }
    }

    /// Blends `color` into `self`. The channels are summed, and each sum is
    /// rescaled by the norm of the summed triple relative to the largest
    /// norm a color can have, rounded down and capped at `255`.
    pub fn mix(&mut self, color: &Color)
        ensures
            *final(self) == mixed(*old(self), *color),
    {
        let r: u64 = self.r as u64 + color.r as u64;
        let g: u64 = self.g as u64 + color.g as u64;
        let b: u64 = self.b as u64 + color.b as u64;
        assert(r * r + g * g + b * b <= 3 * 510 * 510) by (nonlinear_arith)
            requires
                r <= 510,
                g <= 510,
                b <= 510,
        ;
        let n: u64 = r * r + g * g + b * b;
        self.r = blend(r, n);
        self.g = blend(g, n);
        self.b = blend(b, n);
    }

    /// Attenuates a color: each channel is multiplied by `scalar` in double
    /// precision, rounded down and held to `0..=255`.
    pub fn scale(&self, scalar: &Double) -> (color: Color)
        ensures
            color == scaled_by(*self, *scalar),
    {
        Color {
            r: scalar.scale_channel(self.r),
            g: scalar.scale_channel(self.g),
            b: scalar.scale_channel(self.b),
        }
    }
}

impl From<(u8, u8, u8)> for Color {
    /// Builds a color from its three channels, red first.
    fn from(color: (u8, u8, u8)) -> (made: Color) {
        Color::new(color.0, color.1, color.2)
    }
}

impl vstd::std_specs::convert::FromSpecImpl<(u8, u8, u8)> for Color {
    open spec fn obeys_from_spec() -> bool {
        true
    }

    open spec fn from_spec(color: (u8, u8, u8)) -> Color {
        Color { r: color.0, g: color.1, b: color.2 }
    }
}

} // verus!
