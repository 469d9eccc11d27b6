use vstd::prelude::*;
use vstd::arithmetic::div_mod::{
    lemma_fundamental_div_mod_converse_div,
    lemma_fundamental_div_mod_converse_mod,
};

verus! {

// Colours are packed as 0xAARRGGBB.

pub open spec fn alpha_of(c: u32) -> int {
    c as int / 0x100_0000
}

pub open spec fn red_of(c: u32) -> int {
    (c as int / 0x1_0000) % 0x100
}

pub open spec fn green_of(c: u32) -> int {
    (c as int / 0x100) % 0x100
}

pub open spec fn blue_of(c: u32) -> int {
    c as int % 0x100
}

/// One 8-bit channel moved from `d` towards `s` by `a / 255`, truncated:
/// `d + a * (s - d) / 255`, rounded down.
pub open spec fn mix(d: int, s: int, a: int) -> int {
    (d * (255 - a) + s * a) / 255
}

/// The red, green and blue of `a` moved towards those of `b` by `alpha / 255`;
/// the top byte of the result is zero.
pub open spec fn lerp_spec(a: u32, b: u32, alpha: int) -> int {
    mix(red_of(a), red_of(b), alpha) * 0x1_0000 + mix(green_of(a), green_of(b), alpha) * 0x100
        + mix(blue_of(a), blue_of(b), alpha)
}

/// The pixel that results from painting `src` over `dst`: an opaque colour
/// replaces the pixel; any other is blended channel by channel, and the pixel
/// keeps its own top byte.
pub open spec fn blend(dst: u32, src: u32) -> u32 {
    if alpha_of(src) == 255 {
        src
    } else {
        (alpha_of(dst) * 0x100_0000 + lerp_spec(dst, src, alpha_of(src))) as u32
    }
}

proof fn lemma_mix_bounds(d: int, s: int, a: int)
    requires
        0 <= d < 256,
        0 <= s < 256,
        0 <= a < 256,
    ensures
        0 <= mix(d, s, a) < 256,
        a == 0 ==> mix(d, s, a) == d,
        a == 255 ==> mix(d, s, a) == s,
{
    assert(0 <= d * (255 - a)) by (nonlinear_arith)
        requires
            0 <= d < 256,
            0 <= a < 256,
    ;
    assert(0 <= s * a) by (nonlinear_arith)
        requires
            0 <= s < 256,
            0 <= a < 256,
    ;
    assert(d * (255 - a) + s * a <= 255 * 255) by (nonlinear_arith)
        requires
            0 <= d < 256,
            0 <= s < 256,
            0 <= a < 256,
    ;
    if a == 0 {
        assert(d * (255 - a) + s * a == d * 255) by (nonlinear_arith)
            requires
                a == 0,
        ;
    }
    if a == 255 {
        assert(d * (255 - a) + s * a == s * 255) by (nonlinear_arith)
            requires
                a == 255,
        ;
    }
}

proof fn lemma_compose(a: int, r: int, g: int, b: int)
    requires
        0 <= a < 256,
        0 <= r < 256,
        0 <= g < 256,
        0 <= b < 256,
    ensures
        ({
            let v = a * 0x100_0000 + r * 0x1_0000 + g * 0x100 + b;
            &&& v / 0x100_0000 == a
            &&& (v / 0x1_0000) % 0x100 == r
            &&& (v / 0x100) % 0x100 == g
            &&& v % 0x100 == b
        }),
{
    let v = a * 0x100_0000 + r * 0x1_0000 + g * 0x100 + b;
    lemma_fundamental_div_mod_converse_div(v, 0x100_0000, a, r * 0x1_0000 + g * 0x100 + b);
    lemma_fundamental_div_mod_converse_div(v, 0x1_0000, a * 0x100 + r, g * 0x100 + b);
    lemma_fundamental_div_mod_converse_mod(a * 0x100 + r, 0x100, a, r);
    lemma_fundamental_div_mod_converse_div(v, 0x100, a * 0x1_0000 + r * 0x100 + g, b);
    lemma_fundamental_div_mod_converse_mod(a * 0x1_0000 + r * 0x100 + g, 0x100, a * 0x100 + r, g);
    lemma_fundamental_div_mod_converse_mod(v, 0x100, a * 0x1_0000 + r * 0x100 + g, b);
}

proof fn lemma_channels(c: u32)
    ensures
        0 <= alpha_of(c) < 256,
        0 <= red_of(c) < 256,
        0 <= green_of(c) < 256,
        0 <= blue_of(c) < 256,
        c as int == alpha_of(c) * 0x100_0000 + red_of(c) * 0x1_0000 + green_of(c) * 0x100
            + blue_of(c),
{
}

/// The alpha byte of a packed colour, 0 to 255.
pub fn get_alpha(color: u32) -> (r: u32)
    ensures
        r as int == alpha_of(color),
        r < 256,
{
    color / 0x100_0000
}

fn mix_channel(d: u32, s: u32, a: u32) -> (r: u32)
    requires
        d < 256,
        s < 256,
        a < 256,
    ensures
        r as int == mix(d as int, s as int, a as int),
        r < 256,
{
    proof {
        lemma_mix_bounds(d as int, s as int, a as int);
    }
    assert(d * (255 - a) <= 255 * 255) by (nonlinear_arith)
        requires
            d < 256,
            a < 256,
    ;
    assert(s * a <= 255 * 255) by (nonlinear_arith)
        requires
            s < 256,
            a < 256,
    ;
    (d * (255 - a) + s * a) / 255
}

/// Moves the red, green and blue of `a` towards those of `b` by `alpha / 255`,
/// each channel on its own and rounded down; the top byte of the result is zero.
pub fn lerp_color(a: u32, b: u32, alpha: u32) -> (r: u32)
    requires
        alpha < 256,
    ensures
        r as int == lerp_spec(a, b, alpha as int),
        r < 0x100_0000,
{
    proof {
        lemma_channels(a);
        lemma_channels(b);
        lemma_mix_bounds(red_of(a), red_of(b), alpha as int);
        lemma_mix_bounds(green_of(a), green_of(b), alpha as int);
        lemma_mix_bounds(blue_of(a), blue_of(b), alpha as int);
    }
    let red = mix_channel((a / 0x1_0000) % 0x100, (b / 0x1_0000) % 0x100, alpha);
    let green = mix_channel((a / 0x100) % 0x100, (b / 0x100) % 0x100, alpha);
    let blue = mix_channel(a % 0x100, b % 0x100, alpha);
    red * 0x1_0000 + green * 0x100 + blue
}

/// The value of a pixel that held `dst` after `src` is painted over it.
pub fn blend_pixel(dst: u32, src: u32) -> (r: u32)
    ensures
        r == blend(dst, src),
{
    let alpha = get_alpha(src);
    if alpha == 255 {
        src
    } else {
        let rgb = lerp_color(dst, src, alpha);
        let top = get_alpha(dst);
        top * 0x100_0000 + rgb
    }
}

/// Painting an opaque colour replaces the pixel; painting a colour whose alpha
/// is zero leaves the pixel as it was; otherwise each of red, green and blue is
/// `dst + alpha * (src - dst) / 255`, rounded down.
pub proof fn lemma_blend_extremes(dst: u32, src: u32)
    ensures
        alpha_of(src) == 255 ==> blend(dst, src) == src,
        alpha_of(src) == 0 ==> blend(dst, src) == dst,
        alpha_of(src) < 255 ==> {
            &&& alpha_of(blend(dst, src)) == alpha_of(dst)
            &&& red_of(blend(dst, src)) == mix(red_of(dst), red_of(src), alpha_of(src))
            &&& green_of(blend(dst, src)) == mix(green_of(dst), green_of(src), alpha_of(src))
            &&& blue_of(blend(dst, src)) == mix(blue_of(dst), blue_of(src), alpha_of(src))
        },
{
    lemma_channels(dst);
    lemma_channels(src);
    let a = alpha_of(src);
    lemma_mix_bounds(red_of(dst), red_of(src), a);
    lemma_mix_bounds(green_of(dst), green_of(src), a);
    lemma_mix_bounds(blue_of(dst), blue_of(src), a);
    if a < 255 {
        lemma_compose(
            alpha_of(dst),
            mix(red_of(dst), red_of(src), a),
            mix(green_of(dst), green_of(src), a),
            mix(blue_of(dst), blue_of(src), a),
        );
    }
}

} // verus!
