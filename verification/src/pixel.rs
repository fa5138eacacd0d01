//! Colours and the per-channel arithmetic of blending and filtering.

use vstd::prelude::*;

verus! {

/// An RGBA8 colour as the contracts see it.
pub struct Rgba {
    pub r: u8,
    pub g: u8,
    pub b: u8,
    pub a: u8,
}

/// Opaque white, the colour of everything outside a loaded image.
pub open spec fn white() -> Rgba {
    Rgba { r: 255, g: 255, b: 255, a: 255 }
}

/// Fully transparent black, the colour of an untouched drawing-layer pixel.
pub open spec fn transparent() -> Rgba {
    Rgba { r: 0, g: 0, b: 0, a: 0 }
}

/// The colour that a four-byte array stands for.
pub open spec fn rgba(c: [u8; 4]) -> Rgba {
    Rgba { r: c[0], g: c[1], b: c[2], a: c[3] }
}

/// Channel `k` (0 = red .. 3 = alpha) of a colour.
pub open spec fn channel(c: Rgba, k: int) -> u8 {
    if k == 0 {
        c.r
    } else if k == 1 {
        c.g
    } else if k == 2 {
        c.b
    } else {
        c.a
    }
}

/// `src * a + dst * (1 - a)` for `a = alpha / 255`, rounded to the nearest
/// integer. The sum is a whole number of 255ths and 255 is odd, so no tie
/// can occur.
pub open spec fn blend_channel_spec(src: u8, dst: u8, alpha: u8) -> u8 {
    ((2 * (src * alpha + dst * (255 - alpha)) + 255) / 510) as u8
}

/// `fg * a + bg * (1 - a)` for `a = alpha / 255`, rounded down.
pub open spec fn over_channel_spec(fg: u8, bg: u8, alpha: u8) -> u8 {
    ((fg * alpha + bg * (255 - alpha)) / 255) as u8
}

/// The rounding blend of `color` into `dst`, on all four channels, weighted
/// by the alpha of `color`.
pub open spec fn blend(color: Rgba, dst: Rgba) -> Rgba {
    Rgba {
        r: blend_channel_spec(color.r, dst.r, color.a),
        g: blend_channel_spec(color.g, dst.g, color.a),
        b: blend_channel_spec(color.b, dst.b, color.a),
        a: blend_channel_spec(color.a, dst.a, color.a),
    }
}

/// A drawing-layer pixel laid over a background pixel: untouched where the
/// layer is transparent, else the truncating blend on red, green and blue.
/// The alpha of the background is kept.
pub open spec fn over(fg: Rgba, bg: Rgba) -> Rgba {
    if fg.a == 0 {
        bg
    } else {
        Rgba {
            r: over_channel_spec(fg.r, bg.r, fg.a),
            g: over_channel_spec(fg.g, bg.g, fg.a),
            b: over_channel_spec(fg.b, bg.b, fg.a),
            a: bg.a,
        }
    }
}

/// A layer pixel flattened onto a pixel below it: the truncating blend on
/// red, green and blue, and an opaque result.
pub open spec fn flatten(src: Rgba, dst: Rgba) -> Rgba {
    Rgba {
        r: over_channel_spec(src.r, dst.r, src.a),
        g: over_channel_spec(src.g, dst.g, src.a),
        b: over_channel_spec(src.b, dst.b, src.a),
        a: 255,
    }
}

/// Luminosity `0.299 R + 0.587 G + 0.114 B`, rounded down.
pub open spec fn luminosity_spec(r: u8, g: u8, b: u8) -> u8 {
    ((299 * r + 587 * g + 114 * b) / 1000) as u8
}

/// `floor(a / b)` for any `b` other than zero.
pub open spec fn floor_div(a: int, b: int) -> int {
    if b > 0 {
        a / b
    } else {
        (-a) / (-b)
    }
}

/// Numerator of the contrast factor `259 (c + 255) / (255 (259 - c))`.
pub open spec fn contrast_num(contrast: int) -> int {
    259 * (contrast + 255)
}

/// Denominator of the contrast factor.
pub open spec fn contrast_den(contrast: int) -> int {
    255 * (259 - contrast)
}

pub open spec fn clamp_u8(v: int) -> u8 {
    if v < 0 {
        0u8
    } else if v > 255 {
        255u8
    } else {
        v as u8
    }
}

/// `clamp(factor * (c - 128) + 128 + brightness, 0, 255)`, rounded down,
/// with `factor = 259 (contrast + 255) / (255 (259 - contrast))`.
/// At `contrast == 259` the factor is infinite: channels above 128 saturate
/// to 255 and all others fall to 0.
pub open spec fn adjust_channel_spec(c: u8, brightness: int, contrast: int) -> u8 {
    if contrast == 259 {
        if c > 128 {
            255u8
        } else {
            0u8
        }
    } else {
        clamp_u8(
            floor_div(contrast_num(contrast) * (c - 128), contrast_den(contrast)) + 128
                + brightness,
        )
    }
}

pub open spec fn invert(c: Rgba) -> Rgba {
    Rgba { r: (255 - c.r) as u8, g: (255 - c.g) as u8, b: (255 - c.b) as u8, a: c.a }
}

pub open spec fn grayscale(c: Rgba) -> Rgba {
    let gray = luminosity_spec(c.r, c.g, c.b);
    Rgba { r: gray, g: gray, b: gray, a: c.a }
}

pub open spec fn adjust(c: Rgba, brightness: int, contrast: int) -> Rgba {
    Rgba {
        r: adjust_channel_spec(c.r, brightness, contrast),
        g: adjust_channel_spec(c.g, brightness, contrast),
        b: adjust_channel_spec(c.b, brightness, contrast),
        a: c.a,
    }
}

/// A weighted sum of two channels, in 255ths, stays within `255 * 255`.
pub proof fn lemma_mix_bound(x: u8, y: u8, alpha: u8)
    ensures
        0 <= x * alpha + y * (255 - alpha) <= 255 * 255,
{
    assert(0 <= x * alpha <= 255 * alpha) by (nonlinear_arith)
        requires
            0 <= x <= 255,
            0 <= alpha,
    ;
    assert(0 <= y * (255 - alpha) <= 255 * (255 - alpha)) by (nonlinear_arith)
        requires
            0 <= y <= 255,
            0 <= 255 - alpha,
    ;
}

/// At full weight the sum is the first channel, at no weight the second.
pub proof fn lemma_mix_ends(x: u8, y: u8, alpha: u8)
    ensures
        alpha == 255 ==> x * alpha + y * (255 - alpha) == 255 * x,
        alpha == 0 ==> x * alpha + y * (255 - alpha) == 255 * y,
{
    if alpha == 255 {
        assert(x * 255 + y * 0 == 255 * x);
    }
    if alpha == 0 {
        assert(x * 0 + y * 255 == 255 * y);
    }
}

/// Rounding blend of one channel.
pub fn blend_channel(src: u8, dst: u8, alpha: u8) -> (out: u8)
    ensures
        out == blend_channel_spec(src, dst, alpha),
        alpha == 255 ==> out == src,
        alpha == 0 ==> out == dst,
{
    proof {
        lemma_mix_bound(src, dst, alpha);
    }
    let n: u32 = src as u32 * alpha as u32 + dst as u32 * (255 - alpha as u32);
    proof {
        lemma_mix_ends(src, dst, alpha);
    }
    ((2 * n + 255) / 510) as u8
}

/// Truncating blend of one channel.
pub fn over_channel(fg: u8, bg: u8, alpha: u8) -> (out: u8)
    ensures
        out == over_channel_spec(fg, bg, alpha),
        alpha == 255 ==> out == fg,
        alpha == 0 ==> out == bg,
{
    proof {
        lemma_mix_bound(fg, bg, alpha);
    }
    let n: u32 = fg as u32 * alpha as u32 + bg as u32 * (255 - alpha as u32);
    proof {
        lemma_mix_ends(fg, bg, alpha);
    }
    (n / 255) as u8
}

/// Luminosity of a colour, rounded down.
pub fn luminosity(r: u8, g: u8, b: u8) -> (gray: u8)
    ensures
        gray == luminosity_spec(r, g, b),
        r == g && g == b ==> gray == r,
{
    ((299 * (r as u32) + 587 * (g as u32) + 114 * (b as u32)) / 1000) as u8
}

/// Brightness and contrast adjustment of one channel.
pub fn adjust_channel(c: u8, brightness: i32, contrast: i32) -> (out: u8)
    ensures
        out == adjust_channel_spec(c, brightness as int, contrast as int),
{
    if contrast == 259 {
        return if c > 128 { 255 } else { 0 };
    }
    let num: i64 = 259 * (contrast as i64 + 255);
    let den: i64 = 255 * (259 - contrast as i64);
    let delta: i64 = c as i64 - 128;
    assert(-0x1_0000_0000_0000 <= num * delta <= 0x1_0000_0000_0000) by (nonlinear_arith)
        requires
            -0x100_0000_0000 <= num <= 0x100_0000_0000,
            -128 <= delta <= 127,
    ;
    let scaled: i64 = num * delta;
    let quotient: i64 = if den > 0 {
        floor_quotient(scaled, den)
    } else {
        floor_quotient(-scaled, -den)
    };
    assert(quotient == floor_div(scaled as int, den as int));
    let v: i64 = quotient + 128 + brightness as i64;
    if v < 0 {
        0
    } else if v > 255 {
        255
    } else {
        v as u8
    }
}

/// `floor(a / b)` for a positive `b`.
pub fn floor_quotient(a: i64, b: i64) -> (q: i64)
    requires
        b > 0,
        a > i64::MIN,
    ensures
        q == a as int / b as int,
        a >= 0 ==> 0 <= q <= a,
        a < 0 ==> a <= q <= 0,
{
    proof {
        lemma_floor_magnitude(a as int, b as int);
    }
    if a >= 0 {
        a / b
    } else {
        // Rust's division truncates toward zero; take the floor by hand.
        let up: i64 = (-a) / b;
        let exact: bool = (-a) % b == 0;
        proof {
            lemma_floor_of_negative(a as int, b as int);
        }
        if exact {
            -up
        } else {
            -up - 1
        }
    }
}

/// The floor of a negative quotient, from the quotient of the magnitudes.
pub proof fn lemma_floor_of_negative(a: int, b: int)
    requires
        a < 0,
        b > 0,
    ensures
        (-a) % b == 0 ==> a / b == -((-a) / b),
        (-a) % b != 0 ==> a / b == -((-a) / b) - 1,
{
    let q = (-a) / b;
    let r = (-a) % b;
    vstd::arithmetic::div_mod::lemma_fundamental_div_mod(-a, b);
    assert(b * q == q * b) by (nonlinear_arith);
    if r == 0 {
        assert(a == (-q) * b + 0) by (nonlinear_arith)
            requires
                -a == q * b,
        ;
        vstd::arithmetic::div_mod::lemma_fundamental_div_mod_converse(a, b, -q, 0);
    } else {
        assert(a == (-q - 1) * b + (b - r)) by (nonlinear_arith)
            requires
                -a == q * b + r,
        ;
        vstd::arithmetic::div_mod::lemma_fundamental_div_mod_converse(a, b, -q - 1, b - r);
    }
}

/// A floor quotient by a positive divisor is no larger in magnitude than
/// the dividend, up to one.
pub proof fn lemma_floor_magnitude(a: int, b: int)
    requires
        b > 0,
    ensures
        a >= 0 ==> 0 <= a / b <= a,
        a < 0 ==> a <= a / b <= 0,
{
    vstd::arithmetic::div_mod::lemma_fundamental_div_mod(a, b);
    let q = a / b;
    let r = a % b;
    assert(b * q == q * b) by (nonlinear_arith);
    if a >= 0 {
        assert(0 <= q <= a) by (nonlinear_arith)
            requires
                a == q * b + r,
                0 <= r < b,
                a >= 0,
                b > 0,
        ;
    } else {
        assert(a <= q <= 0) by (nonlinear_arith)
            requires
                a == q * b + r,
                0 <= r < b,
                a < 0,
                b > 0,
        ;
    }
}

/// Whether two colours are the same on all four channels.
pub fn same_color(a: &[u8; 4], b: &[u8; 4]) -> (same: bool)
    ensures
        same == (rgba(*a) == rgba(*b)),
{
    a[0] == b[0] && a[1] == b[1] && a[2] == b[2] && a[3] == b[3]
}

} // verus!
