//! The colour vocabulary, and the copy of a finished frame into a window's
//! back buffer.
use vstd::prelude::*;

verus! {

/// Opaque sRGB colour. Alpha composites within a frame; the window itself is
/// opaque.
#[derive(Debug, Clone, Copy, PartialEq, Eq, Structural)]
pub struct Color {
    pub r: u8,
    pub g: u8,
    pub b: u8,
    pub a: u8,
}

impl Color {
    pub fn rgb(r: u8, g: u8, b: u8) -> (c: Color)
        ensures
            c == (Color { r, g, b, a: 255 }),
    {
        Color { r, g, b, a: 255 }
    }

    pub fn rgba(r: u8, g: u8, b: u8, a: u8) -> (c: Color)
        ensures
            c == (Color { r, g, b, a }),
    {
        Color { r, g, b, a }
    }

    /// From `0xRRGGBB`, the form skin tables are written in. Bits above the
    /// low 24 are ignored.
    pub fn hex(v: u32) -> (c: Color)
        ensures
            c.r == (v / 0x10000) % 0x100,
            c.g == (v / 0x100) % 0x100,
            c.b == v % 0x100,
            c.a == 255,
    {
        proof {
            assert(((v >> 16u32) as u8) == (v / 0x10000) % 0x100) by (bit_vector);
            assert(((v >> 8u32) as u8) == (v / 0x100) % 0x100) by (bit_vector);
            assert((v as u8) == v % 0x100) by (bit_vector);
        }
        Color::rgb((v >> 16u32) as u8, (v >> 8u32) as u8, v as u8)
    }
}

/// A premultiplied RGBA8 pixel, as a raster stores it.
#[derive(Debug, Clone, Copy, PartialEq, Eq, Structural)]
pub struct Premultiplied {
    pub r: u8,
    pub g: u8,
    pub b: u8,
    pub a: u8,
}

impl Premultiplied {
    /// No colour channel exceeds the alpha it was multiplied by.
    pub open spec fn valid(self) -> bool {
        self.r <= self.a && self.g <= self.a && self.b <= self.a
    }
}

/// One channel of source-over: the source at coverage `a`, over the
/// destination attenuated by what the source leaves, rounded down.
pub open spec fn over(s: u8, d: u8, a: u8) -> int {
    (s as int * a as int + d as int * (255 - a as int)) / 255
}

pub open spec fn at_most(x: int, cap: int) -> int {
    if x < cap {
        x
    } else {
        cap
    }
}

/// What source-over of `color` at coverage `alpha` makes of `dst`.
pub open spec fn composed(dst: Premultiplied, color: Color, alpha: u8) -> Premultiplied {
    let out_a = alpha as int + dst.a as int * (255 - alpha as int) / 255;
    Premultiplied {
        r: at_most(over(color.r, dst.r, alpha), out_a) as u8,
        g: at_most(over(color.g, dst.g, alpha), out_a) as u8,
        b: at_most(over(color.b, dst.b, alpha), out_a) as u8,
        a: out_a as u8,
    }
}

proof fn lemma_over_bounded(s: u8, d: u8, a: u8)
    ensures
        0 <= over(s, d, a) <= 255,
{
    let (si, di, ai) = (s as int, d as int, a as int);
    assert(0 <= si * ai + di * (255 - ai) <= 255 * 255) by (nonlinear_arith)
        requires
            0 <= si <= 255,
            0 <= di <= 255,
            0 <= ai <= 255,
    ;
}

proof fn lemma_alpha_bounded(da: u8, a: u8)
    ensures
        a as int <= a as int + da as int * (255 - a as int) / 255 <= 255,
{
    let (di, ai) = (da as int, a as int);
    assert(0 <= di * (255 - ai) <= 255 * (255 - ai)) by (nonlinear_arith)
        requires
            0 <= di <= 255,
            0 <= ai <= 255,
    ;
    assert(di * (255 - ai) / 255 <= 255 - ai) by (nonlinear_arith)
        requires
            0 <= di * (255 - ai) <= 255 * (255 - ai),
            0 <= ai <= 255,
    ;
}

/// Source-over one coverage sample of `color` onto a premultiplied pixel:
/// the colour is premultiplied by its coverage and added to the attenuated
/// destination. Rounding can push a channel a step past the new alpha, so
/// each channel is clamped to it: the result is always a valid premultiplied
/// pixel.
pub fn source_over(dst: Premultiplied, color: Color, alpha: u8) -> (p: Premultiplied)
    ensures
        p == composed(dst, color, alpha),
        p.valid(),
{
    proof {
        lemma_over_bounded(color.r, dst.r, alpha);
        lemma_over_bounded(color.g, dst.g, alpha);
        lemma_over_bounded(color.b, dst.b, alpha);
        lemma_alpha_bounded(dst.a, alpha);
    }
    let a = alpha as u32;
    let inv = 255 - a;
    let r = ((color.r as u32) * a + (dst.r as u32) * inv) / 255;
    let g = ((color.g as u32) * a + (dst.g as u32) * inv) / 255;
    let b = ((color.b as u32) * a + (dst.b as u32) * inv) / 255;
    let out_a = a + (dst.a as u32) * inv / 255;
    let r = if r < out_a { r } else { out_a };
    let g = if g < out_a { g } else { out_a };
    let b = if b < out_a { b } else { out_a };
    Premultiplied { r: r as u8, g: g as u8, b: b as u8, a: out_a as u8 }
}

/// Nothing covered, nothing changed: a sample of zero coverage leaves a valid
/// pixel exactly as it was.
pub proof fn lemma_zero_coverage_changes_nothing(dst: Premultiplied, color: Color)
    requires
        dst.valid(),
    ensures
        composed(dst, color, 0) == dst,
{
    assert(dst.a as int * 255 / 255 == dst.a as int);
    assert(over(color.r, dst.r, 0) == dst.r as int);
    assert(over(color.g, dst.g, 0) == dst.g as int);
    assert(over(color.b, dst.b, 0) == dst.b as int);
}

/// Full coverage replaces: a sample covering the whole pixel leaves the
/// colour itself, fully opaque, whatever was beneath.
pub proof fn lemma_full_coverage_replaces(dst: Premultiplied, color: Color)
    ensures
        composed(dst, color, 255) == (Premultiplied { r: color.r, g: color.g, b: color.b, a: 255 }),
{
    assert(over(color.r, dst.r, 255) == color.r as int);
    assert(over(color.g, dst.g, 255) == color.g as int);
    assert(over(color.b, dst.b, 255) == color.b as int);
}

/// Layering adds opacity: what stays transparent after compositing is the
/// product of what the coverage leaves and what the pixel beneath left,
/// rounded up — `255 - out.a` is the least whole number `n` with
/// `255 * n >= (255 - alpha) * (255 - dst.a)`. So the result is at least as
/// opaque as either layer, and a translucent sample over a translucent pixel
/// gives something more opaque than both.
pub proof fn lemma_transparencies_multiply(dst: Premultiplied, color: Color, alpha: u8)
    ensures
        ({
            let out = composed(dst, color, alpha);
            let left = (255 - alpha as int) * (255 - dst.a as int);
            &&& 255 * (255 - out.a as int) >= left
            &&& 255 * (255 - out.a as int - 1) < left
            &&& out.a >= alpha
            &&& out.a >= dst.a
        }),
{
    let a = alpha as int;
    let da = dst.a as int;
    lemma_alpha_bounded(dst.a, alpha);
    let q = da * (255 - a) / 255;
    let rem = da * (255 - a) % 255;
    assert(da * (255 - a) == 255 * q + rem && 0 <= rem < 255) by (nonlinear_arith)
        requires
            q == da * (255 - a) / 255,
            rem == da * (255 - a) % 255,
    ;
    let out_a = a + q;
    assert((255 - a) * (255 - da) == 255 * (255 - a) - da * (255 - a)) by (nonlinear_arith);
    // 255 - out_a = (255 - a) - q, and 255 * that = (255 - a)(255 - da) + rem.
    assert(255 * (255 - out_a) == (255 - a) * (255 - da) + rem);
    assert(out_a >= da) by (nonlinear_arith)
        requires
            out_a == a + q,
            da * (255 - a) == 255 * q + rem,
            0 <= rem < 255,
            0 <= a <= 255,
            0 <= da <= 255,
    ;
}

/// Over a clear pixel, source-over gives the colour premultiplied by its
/// coverage: each channel scaled by `alpha / 255`, rounded down, and the
/// coverage as alpha.
pub proof fn lemma_over_nothing_is_the_premultiplied_colour(color: Color, alpha: u8)
    ensures
        composed(Premultiplied { r: 0, g: 0, b: 0, a: 0 }, color, alpha) == (Premultiplied {
            r: (color.r as int * alpha as int / 255) as u8,
            g: (color.g as int * alpha as int / 255) as u8,
            b: (color.b as int * alpha as int / 255) as u8,
            a: alpha,
        }),
{
    let a = alpha as int;
    assert(color.r as int * a / 255 <= a) by (nonlinear_arith)
        requires
            0 <= color.r as int <= 255,
            0 <= a <= 255,
    ;
    assert(color.g as int * a / 255 <= a) by (nonlinear_arith)
        requires
            0 <= color.g as int <= 255,
            0 <= a <= 255,
    ;
    assert(color.b as int * a / 255 <= a) by (nonlinear_arith)
        requires
            0 <= color.b as int <= 255,
            0 <= a <= 255,
    ;
}

/// A back-buffer pixel: `0RGB` in a `u32`.
pub open spec fn pack(r: u8, g: u8, b: u8) -> u32 {
    (r as int * 0x10000 + g as int * 0x100 + b as int) as u32
}

/// Copy premultiplied RGBA8 pixels into a window's back buffer as `0RGB`.
///
/// The window is opaque, so alpha is dropped rather than unpremultiplied. Pixels
/// are copied while both sides have one; the rest of `out` is left alone.
pub fn blit(rgba: &[u8], out: &mut [u32])
    ensures
        final(out)@.len() == old(out)@.len(),
        forall|i: int|
            0 <= i < old(out)@.len() && 4 * i + 4 <= rgba@.len() ==> #[trigger] final(out)@[i] == pack(
                rgba@[4 * i],
                rgba@[4 * i + 1],
                rgba@[4 * i + 2],
            ),
        forall|i: int|
            0 <= i < old(out)@.len() && 4 * i + 4 > rgba@.len() ==> #[trigger] final(out)@[i]
                == old(out)@[i],
{
    let len = rgba.len();
    let pixels = len / 4;
    let n = if pixels < out.len() {
        pixels
    } else {
        out.len()
    };
    let mut i: usize = 0;
    while i < n
        invariant
            0 <= i <= n,
            n <= out@.len(),
            n <= pixels,
            pixels == len / 4,
            len == rgba@.len(),
            out@.len() == old(out)@.len(),
            forall|k: int| 0 <= k < i ==> #[trigger] out@[k] == pack(
                rgba@[4 * k],
                rgba@[4 * k + 1],
                rgba@[4 * k + 2],
            ),
            forall|k: int| i <= k < out@.len() ==> #[trigger] out@[k] == old(out)@[k],
        decreases n - i,
    {
        let r = rgba[4 * i];
        let g = rgba[4 * i + 1];
        let b = rgba[4 * i + 2];
        let px: u32 = ((r as u32) << 16u32) | ((g as u32) << 8u32) | (b as u32);
        proof {
            assert(px == pack(r, g, b)) by (bit_vector)
                requires
                    px == ((r as u32) << 16u32) | ((g as u32) << 8u32) | (b as u32),
            ;
        }
        out[i] = px;
        i += 1;
    }
    proof {
        assert forall|k: int| 0 <= k < old(out)@.len() && 4 * k + 4 <= rgba@.len() implies #[trigger] out@[k]
            == pack(rgba@[4 * k], rgba@[4 * k + 1], rgba@[4 * k + 2]) by {
            assert(k < n);
        }
    }
}

} // verus!
