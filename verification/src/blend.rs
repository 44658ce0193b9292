//! Channel arithmetic used when a glyph or a translucent cell is composited
//! onto an RGBA8 canvas.
use vstd::prelude::*;

verus! {

/// Effective opacity of a glyph pixel: coverage scaled by the colour's alpha.
pub open spec fn coverage_alpha(coverage: u8, alpha: u8) -> int {
    (coverage as int * alpha as int) / 255
}

/// Linear mix of a colour channel over a destination channel with opacity `alpha` (0..=255).
pub open spec fn mix_channel(src: u8, dst: u8, alpha: int) -> int {
    (src as int * alpha + dst as int * (255 - alpha)) / 255
}

/// Alpha channel after compositing with opacity `alpha` ("over" rule on alpha).
pub open spec fn accumulate_alpha(dst: u8, alpha: int) -> int {
    dst as int + alpha - (dst as int * alpha) / 255
}

proof fn lemma_mix_bounds(src: u8, dst: u8, alpha: int)
    requires
        0 <= alpha <= 255,
    ensures
        0 <= src as int * alpha + dst as int * (255 - alpha) <= 65025,
        0 <= mix_channel(src, dst, alpha) <= 255,
{
    let s = src as int;
    let d = dst as int;
    assert(0 <= s * alpha <= 255 * alpha) by (nonlinear_arith)
        requires 0 <= s <= 255, 0 <= alpha <= 255;
    assert(0 <= d * (255 - alpha) <= 255 * (255 - alpha)) by (nonlinear_arith)
        requires 0 <= d <= 255, 0 <= alpha <= 255;
    let n = s * alpha + d * (255 - alpha);
    assert(0 <= n / 255 <= 255) by (nonlinear_arith)
        requires 0 <= n <= 65025;
}

proof fn lemma_accumulate_bounds(dst: u8, alpha: int)
    requires
        0 <= alpha <= 255,
    ensures
        0 <= dst as int * alpha <= 65025,
        (dst as int * alpha) / 255 <= dst as int,
        (dst as int * alpha) / 255 <= alpha,
        0 <= accumulate_alpha(dst, alpha) <= 255,
{
    let d = dst as int;
    assert(0 <= d * alpha <= 65025) by (nonlinear_arith)
        requires 0 <= d <= 255, 0 <= alpha <= 255;
    let q = (d * alpha) / 255;
    assert(q <= d && q <= alpha) by (nonlinear_arith)
        requires 0 <= d <= 255, 0 <= alpha <= 255, q == (d * alpha) / 255;
    assert(q >= d + alpha - 255) by (nonlinear_arith)
        requires 0 <= d <= 255, 0 <= alpha <= 255, q == (d * alpha) / 255;
}

/// Opacity of a glyph pixel with the given coverage under a colour of alpha `alpha`.
pub fn glyph_pixel_alpha(coverage: u8, alpha: u8) -> (a: u16)
    ensures
        a as int == coverage_alpha(coverage, alpha),
        a <= 255,
{
    let c = coverage as u16;
    let al = alpha as u16;
    assert(c * al <= 65025 && (c * al) / 255 <= 255) by (nonlinear_arith)
        requires c <= 255, al <= 255;
    (c * al) / 255
}

/// Mixes colour channel `src` over destination channel `dst` with opacity `alpha`.
pub fn mix(src: u8, dst: u8, alpha: u16) -> (r: u8)
    requires
        alpha <= 255,
    ensures
        r as int == mix_channel(src, dst, alpha as int),
{
    proof {
        lemma_mix_bounds(src, dst, alpha as int);
    }
    let inv: u16 = 255 - alpha;
    let s = src as u16;
    let d = dst as u16;
    assert(s * alpha <= 65025 && d * inv <= 65025 && s * alpha + d * inv <= 65025) by (nonlinear_arith)
        requires s <= 255, d <= 255, alpha <= 255, inv == 255 - alpha;
    ((s * alpha + d * inv) / 255) as u8
}

/// Alpha channel of a destination pixel after compositing with opacity `alpha`.
pub fn accumulate(dst: u8, alpha: u16) -> (r: u8)
    requires
        alpha <= 255,
    ensures
        r as int == accumulate_alpha(dst, alpha as int),
{
    proof {
        lemma_accumulate_bounds(dst, alpha as int);
    }
    let d = dst as u16;
    (d + alpha - (d * alpha) / 255) as u8
}

/// Mixing never leaves the range spanned by the two inputs: a composite is
/// always between the colour and what was underneath.
pub proof fn law_mix_between(src: u8, dst: u8, alpha: int)
    requires
        0 <= alpha <= 255,
    ensures
        src <= dst ==> src <= mix_channel(src, dst, alpha) <= dst,
        dst <= src ==> dst <= mix_channel(src, dst, alpha) <= src,
{
    let s = src as int;
    let d = dst as int;
    let n = s * alpha + d * (255 - alpha);
    assert(s <= d ==> 255 * s <= n <= 255 * d) by (nonlinear_arith)
        requires 0 <= alpha <= 255, n == s * alpha + d * (255 - alpha);
    assert(d <= s ==> 255 * d <= n <= 255 * s) by (nonlinear_arith)
        requires 0 <= alpha <= 255, n == s * alpha + d * (255 - alpha);
    assert(s <= d ==> s <= n / 255 <= d) by (nonlinear_arith)
        requires s <= d ==> 255 * s <= n <= 255 * d;
    assert(d <= s ==> d <= n / 255 <= s) by (nonlinear_arith)
        requires d <= s ==> 255 * d <= n <= 255 * s;
}

/// A fully transparent composite leaves the destination as it was; a fully
/// opaque one replaces it by the colour.
pub proof fn law_mix_extremes(src: u8, dst: u8)
    ensures
        mix_channel(src, dst, 0) == dst,
        mix_channel(src, dst, 255) == src,
{
}

/// Compositing never makes a pixel more transparent: the resulting alpha is
/// at least the old alpha and at least the opacity laid over it, and stays a byte.
pub proof fn law_accumulate_monotone(dst: u8, alpha: int)
    requires
        0 <= alpha <= 255,
    ensures
        dst <= accumulate_alpha(dst, alpha) <= 255,
        alpha <= accumulate_alpha(dst, alpha),
        accumulate_alpha(dst, 0) == dst,
        accumulate_alpha(dst, 255) == 255,
{
    lemma_accumulate_bounds(dst, alpha);
    let d = dst as int;
    assert((d * 255) / 255 == d) by (nonlinear_arith);
}

/// Glyph opacity never exceeds either the coverage or the colour's alpha, and
/// full coverage passes the colour's alpha through unchanged.
pub proof fn law_coverage_alpha(coverage: u8, alpha: u8)
    ensures
        0 <= coverage_alpha(coverage, alpha) <= coverage,
        coverage_alpha(coverage, alpha) <= alpha,
        coverage_alpha(255, alpha) == alpha,
        coverage_alpha(coverage, 0) == 0,
{
    let c = coverage as int;
    let a = alpha as int;
    assert(0 <= (c * a) / 255 <= c && (c * a) / 255 <= a) by (nonlinear_arith)
        requires 0 <= c <= 255, 0 <= a <= 255;
    assert((255 * a) / 255 == a) by (nonlinear_arith);
}

} // verus!
