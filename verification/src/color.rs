//! Colours, the alpha-blending rule and the per-pixel error metric.

use vstd::prelude::*;

verus! {

/// Four 8-bit channels: red, green, blue and alpha.
#[derive(Clone, Copy, Debug, PartialEq, Eq, Structural)]
pub struct Color {
    pub r: u8,
    pub g: u8,
    pub b: u8,
    pub a: u8,
}

/// Opaque white, the background every render starts from.
pub open spec fn white() -> Color {
    Color { r: 255, g: 255, b: 255, a: 255 }
}

/// One channel of `base` under one channel of `over` at opacity `alpha / 255`:
/// the interpolation `base * (1 - alpha/255) + over * alpha/255`, truncated.
pub open spec fn blend_channel(base: u8, over: u8, alpha: u8) -> int {
    (base * (255 - alpha) + over * alpha) / 255
}

/// `over` composited onto `base`. The overlay's own alpha weights the three
/// colour channels; the result is always fully opaque.
pub open spec fn blend(base: Color, over: Color) -> Color {
    Color {
        r: blend_channel(base.r, over.r, over.a) as u8,
        g: blend_channel(base.g, over.g, over.a) as u8,
        b: blend_channel(base.b, over.b, over.a) as u8,
        a: 255,
    }
}

/// A blended channel lies between its two inputs, so it is again a byte.
pub proof fn lemma_blend_channel_between(base: u8, over: u8, alpha: u8)
    ensures
        base <= over ==> base <= blend_channel(base, over, alpha) <= over,
        over <= base ==> over <= blend_channel(base, over, alpha) <= base,
        0 <= blend_channel(base, over, alpha) <= 255,
{
    let b = base as int;
    let o = over as int;
    let a = alpha as int;
    let n = b * (255 - a) + o * a;
    if b <= o {
        assert(255 * b <= n <= 255 * o) by (nonlinear_arith)
            requires
                n == b * (255 - a) + o * a,
                0 <= a <= 255,
                b <= o,
        ;
    } else {
        assert(255 * o <= n <= 255 * b) by (nonlinear_arith)
            requires
                n == b * (255 - a) + o * a,
                0 <= a <= 255,
                o <= b,
        ;
    }
}

fn blend_one(base: u8, over: u8, alpha: u8) -> (out: u8)
    ensures
        out == blend_channel(base, over, alpha),
{
    proof {
        lemma_blend_channel_between(base, over, alpha);
    }
    let keep: u32 = 255 - alpha as u32;
    let lhs: u32 = base as u32 * keep;
    let rhs: u32 = over as u32 * alpha as u32;
    ((lhs + rhs) / 255) as u8
}

/// Composites `c2` onto `c1`: each of red, green and blue becomes
/// `c1 * (1 - a) + c2 * a` with `a` the alpha of `c2` over 255, truncated
/// to a whole number, and alpha becomes 255.
pub fn blend_color(c1: &Color, c2: &Color) -> (out: Color)
    ensures
        out == blend(*c1, *c2),
        c2.a == 0 ==> out.r == c1.r && out.g == c1.g && out.b == c1.b,
        c2.a == 255 ==> out.r == c2.r && out.g == c2.g && out.b == c2.b,
        out.a == 255,
{
    proof {
        lemma_blend_identity(*c1, *c2);
    }
    Color {
        r: blend_one(c1.r, c2.r, c2.a),
        g: blend_one(c1.g, c2.g, c2.a),
        b: blend_one(c1.b, c2.b, c2.a),
        a: 255,
    }
}

/// A fully transparent overlay leaves the base's red, green and blue as they
/// were; a fully opaque overlay replaces them with its own.
pub proof fn lemma_blend_identity(base: Color, over: Color)
    ensures
        over.a == 0 ==> blend(base, over) == (Color { a: 255, ..base }),
        over.a == 255 ==> blend(base, over) == over,
{
}

/// The two colours agree on red, green and blue. Alpha plays no part.
pub open spec fn same_rgb(c1: Color, c2: Color) -> bool {
    c1.r == c2.r && c1.g == c2.g && c1.b == c2.b
}

/// The squared Euclidean distance of two colours over red, green and blue.
/// Alpha plays no part.
pub open spec fn squared_distance(c1: Color, c2: Color) -> int {
    (c1.r - c2.r) * (c1.r - c2.r) + (c1.g - c2.g) * (c1.g - c2.g) + (c1.b - c2.b) * (c1.b - c2.b)
}

/// `d` is the whole part of the square root of `squared` divided by 2.55:
/// `2.55 * d <= sqrt(squared) < 2.55 * (d + 1)`, written without fractions.
pub open spec fn is_scaled_root(squared: int, d: int) -> bool {
    &&& 0 <= d
    &&& (255 * d) * (255 * d) <= 10000 * squared
    &&& 10000 * squared < (255 * (d + 1)) * (255 * (d + 1))
}

/// The whole part of the square root of `squared` divided by 2.55.
pub open spec fn scaled_root(squared: int) -> int {
    choose|d: int| is_scaled_root(squared, d)
}

/// The error of one pixel, on a scale on which one channel at its two ends
/// is 100: the Euclidean distance of the two colours over red, green and
/// blue, divided by 2.55. It is a whole number: the whole part of the
/// quotient, but 1 where the quotient is below 1 and the colours differ. So
/// it is 0 for colours that agree on red, green and blue and for no others,
/// and it is 173 between black and white.
pub open spec fn distance(c1: Color, c2: Color) -> int {
    let squared = squared_distance(c1, c2);
    if squared > 0 && scaled_root(squared) == 0 {
        1
    } else {
        scaled_root(squared)
    }
}

/// At most one number is the scaled root of a given square.
pub proof fn lemma_scaled_root_unique(squared: int, d1: int, d2: int)
    requires
        is_scaled_root(squared, d1),
        is_scaled_root(squared, d2),
    ensures
        d1 == d2,
{
    if d1 < d2 {
        assert((255 * (d1 + 1)) * (255 * (d1 + 1)) <= (255 * d2) * (255 * d2)) by (nonlinear_arith)
            requires
                0 <= d1 + 1 <= d2,
        ;
    } else if d2 < d1 {
        assert((255 * (d2 + 1)) * (255 * (d2 + 1)) <= (255 * d1) * (255 * d1)) by (nonlinear_arith)
            requires
                0 <= d2 + 1 <= d1,
        ;
    }
}

proof fn scaled_root_from(squared: int, d: int) -> (r: int)
    requires
        0 <= d,
        (255 * d) * (255 * d) <= 10000 * squared,
    ensures
        is_scaled_root(squared, r),
    decreases 10000 * squared - d,
{
    if (255 * (d + 1)) * (255 * (d + 1)) <= 10000 * squared {
        assert(d + 1 <= (255 * (d + 1)) * (255 * (d + 1))) by (nonlinear_arith)
            requires
                0 <= d,
        ;
        scaled_root_from(squared, d + 1)
    } else {
        d
    }
}

/// Every square has its scaled root, and `scaled_root` is it.
pub proof fn lemma_scaled_root(squared: int)
    requires
        0 <= squared,
    ensures
        is_scaled_root(squared, scaled_root(squared)),
        forall|d: int| is_scaled_root(squared, d) ==> d == scaled_root(squared),
{
    assert((255 * 0) * (255 * 0) == 0) by (nonlinear_arith);
    let r = scaled_root_from(squared, 0);
    assert forall|d: int| is_scaled_root(squared, d) implies d == scaled_root(squared) by {
        lemma_scaled_root_unique(squared, d, scaled_root(squared));
    }
}

/// The squared distance is 0 for colours that agree on red, green and blue
/// and for no others, and it is at most three times the square of 255.
pub proof fn lemma_squared_distance(c1: Color, c2: Color)
    ensures
        0 <= squared_distance(c1, c2) <= 195075,
        squared_distance(c1, c2) == 0 <==> same_rgb(c1, c2),
{
    let (dr, dg, db) = (c1.r - c2.r, c1.g - c2.g, c1.b - c2.b);
    assert(0 <= dr * dr <= 65025 && (dr * dr == 0 <==> dr == 0)) by (nonlinear_arith)
        requires
            -255 <= dr <= 255,
    ;
    assert(0 <= dg * dg <= 65025 && (dg * dg == 0 <==> dg == 0)) by (nonlinear_arith)
        requires
            -255 <= dg <= 255,
    ;
    assert(0 <= db * db <= 65025 && (db * db == 0 <==> db == 0)) by (nonlinear_arith)
        requires
            -255 <= db <= 255,
    ;
}

/// The distance is 0 for colours that agree on red, green and blue and for
/// no others. It is never above 173, and it is within 1 of the quotient: it
/// is the quotient's whole part, or 1 where that is 0 and the colours
/// differ.
pub proof fn lemma_distance(c1: Color, c2: Color)
    ensures
        distance(c1, c2) == 0 <==> same_rgb(c1, c2),
        0 <= distance(c1, c2) <= 173,
        is_scaled_root(squared_distance(c1, c2), distance(c1, c2)) || (distance(c1, c2) == 1
            && is_scaled_root(squared_distance(c1, c2), 0)),
{
    let squared = squared_distance(c1, c2);
    let whole = scaled_root(squared);
    lemma_squared_distance(c1, c2);
    lemma_scaled_root(squared);
    if whole >= 174 {
        assert((255 * whole) * (255 * whole) >= 1968696900) by (nonlinear_arith)
            requires
                whole >= 174,
        ;
    }
    if squared == 0 {
        assert(is_scaled_root(0, 0)) by (nonlinear_arith);
    }
}

fn squared_difference(p: u8, q: u8) -> (s: u64)
    ensures
        s == (p - q) * (p - q),
        s <= 65025,
{
    let d: u64 = if p >= q { (p - q) as u64 } else { (q - p) as u64 };
    assert(d * d <= 65025 && d * d == (p - q) * (p - q)) by (nonlinear_arith)
        requires
            0 <= d <= 255,
            d == p - q || d == q - p,
    ;
    d * d
}

/// The error of one pixel: how far `color_1` is from `color_2`. It is 0
/// exactly when the two agree on red, green and blue.
pub fn color_distance(color_1: &Color, color_2: &Color) -> (d: u32)
    ensures
        d == distance(*color_1, *color_2),
        d == 0 <==> color_1.r == color_2.r && color_1.g == color_2.g && color_1.b == color_2.b,
        d <= 173,
        is_scaled_root(squared_distance(*color_1, *color_2), d as int) || (d == 1
            && is_scaled_root(squared_distance(*color_1, *color_2), 0)),
{
    let squared: u64 = squared_difference(color_1.r, color_2.r) + squared_difference(
        color_1.g,
        color_2.g,
    ) + squared_difference(color_1.b, color_2.b);
    let scaled: u64 = 10000 * squared;
    let mut lo: u64 = 0;
    let mut hi: u64 = 174;
    assert((255 * lo) * (255 * lo) == 0 && (255 * hi) * (255 * hi) == 1968696900)
        by (nonlinear_arith)
        requires
            lo == 0,
            hi == 174,
    ;
    while hi - lo > 1
        invariant
            lo < hi <= 174,
            scaled == 10000 * squared,
            (255 * lo) * (255 * lo) <= scaled,
            scaled < (255 * hi) * (255 * hi),
        decreases hi - lo,
    {
        let mid: u64 = lo + (hi - lo) / 2;
        let side: u64 = 255 * mid;
        assert(side * side <= 44370 * 44370) by (nonlinear_arith)
            requires
                0 <= side <= 44370,
        ;
        if side * side <= scaled {
            lo = mid;
        } else {
            hi = mid;
        }
    }
    proof {
        lemma_distance(*color_1, *color_2);
        lemma_scaled_root(squared_distance(*color_1, *color_2));
        assert(is_scaled_root(squared_distance(*color_1, *color_2), lo as int));
    }
    if squared > 0 && lo == 0 {
        1
    } else {
        lo as u32
    }
}

} // verus!
