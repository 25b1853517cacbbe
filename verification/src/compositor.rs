//! Software source-over alpha compositing of a foreground image onto a
//! backdrop-filled canvas.
//!
//! A canvas is a flat byte buffer of 4-byte pixels in blue, green, red,
//! alpha order; a foreground image uses red, green, blue, alpha order.
//! All channel arithmetic is exact integer arithmetic: the source-over
//! formula is evaluated as a rational and truncated toward zero when it is
//! stored back into a channel byte.

use vstd::prelude::*;
use vstd::arithmetic::div_mod::{
    lemma_div_is_ordered, lemma_div_multiples_vanish, lemma_div_pos_is_pos,
    lemma_fundamental_div_mod, lemma_fundamental_div_mod_converse, lemma_mod_bound,
};
use vstd::arithmetic::mul::{lemma_mul_is_commutative, lemma_mul_inequality};

verus! {

/// One pixel's worth of channel values, named by channel.
#[derive(Clone, Copy, PartialEq, Eq, Structural, Debug)]
pub struct Color {
    pub b: u8,
    pub g: u8,
    pub r: u8,
    pub a: u8,
}

/// The fixed translucent gray painted behind the foreground image.
pub fn default_backdrop() -> (c: Color)
    ensures
        c == (Color { b: 128, g: 128, r: 128, a: 196 }),
{
    Color { b: 128, g: 128, r: 128, a: 196 }
}

/// Number of bytes in a `w` by `h` buffer of 4-byte pixels.
pub open spec fn buf_len(w: int, h: int) -> int {
    4 * (w * h)
}

/// First byte of the pixel at column `x`, row `y` of a `w`-wide buffer.
pub open spec fn px_start(w: int, x: int, y: int) -> int {
    4 * (y * w + x)
}

/// Byte `k` (0 to 3) of the canvas pixel at `(x, y)`.
pub open spec fn cbyte(s: Seq<u8>, w: int, x: int, y: int, k: int) -> int {
    s[px_start(w, x, y) + k] as int
}

/// Byte `k` of a backdrop-colored canvas pixel, in blue, green, red, alpha order.
pub open spec fn backdrop_byte(c: Color, k: int) -> int {
    if k == 0 {
        c.b as int
    } else if k == 1 {
        c.g as int
    } else if k == 2 {
        c.r as int
    } else {
        c.a as int
    }
}

/// Byte `k` of the foreground pixel at `(x, y)`, in red, green, blue, alpha order.
pub open spec fn fg_byte(fg: Seq<u8>, fw: int, x: int, y: int, k: int) -> int {
    fg[px_start(fw, x, y) + k] as int
}

/// Alpha of the foreground pixel at `(x, y)`.
pub open spec fn fg_alpha(fg: Seq<u8>, fw: int, x: int, y: int) -> int {
    fg_byte(fg, fw, x, y, 3)
}

/// Stored alpha of source-over compositing: the exact value of
/// `(src_a + dst_a * (1 - src_a)) * 255` over unit-interval alphas,
/// truncated to an integer.
pub open spec fn out_alpha(sa: int, da: int) -> int {
    (255 * sa + da * (255 - sa)) / 255
}

/// Stored color channel of source-over compositing: the exact value of
/// `(src_c * src_a + dst_c * dst_a * (1 - src_a)) / out_a` over
/// unit-interval alphas, truncated to an integer. Meaningful only when the
/// denominator (255 times the un-truncated output alpha) is positive, which
/// holds whenever `sa > 0`.
pub open spec fn out_chan(sc: int, sa: int, dc: int, da: int) -> int {
    (sc * sa * 255 + dc * da * (255 - sa)) / (255 * sa + da * (255 - sa))
}

/// Whether the foreground fits inside the canvas in both dimensions.
pub open spec fn fits(cw: int, ch: int, fw: int, fh: int) -> bool {
    fw <= cw && fh <= ch
}

/// Horizontal centering offset of a fitting foreground.
pub open spec fn off_x(cw: int, fw: int) -> int {
    (cw - fw) / 2
}

/// Vertical centering offset of a fitting foreground.
pub open spec fn off_y(ch: int, fh: int) -> int {
    (ch - fh) / 2
}

/// Whether canvas pixel `(x, y)` lies under the centered foreground.
pub open spec fn covered(cw: int, ch: int, fw: int, fh: int, x: int, y: int) -> bool {
    fits(cw, ch, fw, fh) && off_x(cw, fw) <= x < off_x(cw, fw) + fw && off_y(ch, fh) <= y < off_y(
        ch,
        fh,
    ) + fh
}

/// Byte `k` of the canvas pixel that receives foreground pixel `(sx, sy)`
/// composited over the backdrop color.
pub open spec fn blended_byte(c: Color, fg: Seq<u8>, fw: int, sx: int, sy: int, k: int) -> int {
    if k == 3 {
        out_alpha(fg_alpha(fg, fw, sx, sy), c.a as int)
    } else {
        out_chan(
            fg_byte(fg, fw, sx, sy, 2 - k),
            fg_alpha(fg, fw, sx, sy),
            backdrop_byte(c, k),
            c.a as int,
        )
    }
}

/// Byte `k` of canvas pixel `(x, y)` after the whole compositing pass:
/// the blend of the covering foreground pixel when there is one and its
/// alpha is nonzero, the bare backdrop otherwise. When the foreground is
/// larger than the canvas in either dimension, no pixel is covered and the
/// whole canvas is the bare backdrop.
pub open spec fn composited_byte(
    cw: int,
    ch: int,
    c: Color,
    fg: Seq<u8>,
    fw: int,
    fh: int,
    x: int,
    y: int,
    k: int,
) -> int {
    if covered(cw, ch, fw, fh, x, y) && fg_alpha(fg, fw, x - off_x(cw, fw), y - off_y(ch, fh))
        != 0 {
        blended_byte(c, fg, fw, x - off_x(cw, fw), y - off_y(ch, fh), k)
    } else {
        backdrop_byte(c, k)
    }
}

/// Pixel indices within a buffer stay within the buffer.
proof fn lemma_px_bound(w: int, h: int, x: int, y: int)
    by (nonlinear_arith)
    requires
        0 <= x < w,
        0 <= y < h,
    ensures
        0 <= y * w + x,
        y * w + x < w * h,
{
}

/// Distinct pixel coordinates occupy distinct pixel slots.
proof fn lemma_px_distinct(w: int, x1: int, y1: int, x2: int, y2: int)
    requires
        0 <= x1 < w,
        0 <= x2 < w,
        0 <= y1,
        0 <= y2,
        x1 != x2 || y1 != y2,
    ensures
        y1 * w + x1 != y2 * w + x2,
{
    if y1 * w + x1 == y2 * w + x2 {
        lemma_mul_is_commutative(y1, w);
        lemma_mul_is_commutative(y2, w);
        lemma_fundamental_div_mod_converse(y1 * w + x1, w, y1, x1);
        lemma_fundamental_div_mod_converse(y2 * w + x2, w, y2, x2);
    }
}

/// Stored alpha of a source-over blend, by exact integer arithmetic.
pub fn blend_alpha(sa: u8, da: u8) -> (r: u8)
    ensures
        r as int == out_alpha(sa as int, da as int),
{
    proof {
        assert((da as int) * (255 - sa as int) <= 255 * (255 - sa as int)) by (nonlinear_arith)
            requires
                da as int <= 255,
                0 <= 255 - sa as int,
        ;
    }
    let num: u32 = 255 * (sa as u32) + (da as u32) * (255 - (sa as u32));
    (num / 255) as u8
}

/// Stored color channel of a source-over blend, by exact integer
/// arithmetic. The foreground alpha must be nonzero so that the output
/// alpha, the divisor, is nonzero.
pub fn blend_channel(sc: u8, sa: u8, dc: u8, da: u8) -> (r: u8)
    requires
        sa > 0,
    ensures
        r as int == out_chan(sc as int, sa as int, dc as int, da as int),
{
    let sc32: u32 = sc as u32;
    let sa32: u32 = sa as u32;
    let dc32: u32 = dc as u32;
    let da32: u32 = da as u32;
    let inv: u32 = 255 - sa32;
    proof {
        assert((sc32 as int) * (sa32 as int) <= 65025) by (nonlinear_arith)
            requires
                0 <= sc32 as int <= 255,
                0 <= sa32 as int <= 255,
        ;
        assert((dc32 as int) * (da32 as int) <= 65025) by (nonlinear_arith)
            requires
                0 <= dc32 as int <= 255,
                0 <= da32 as int <= 255,
        ;
        assert((dc32 as int) * (da32 as int) * (inv as int) <= 16581375) by (nonlinear_arith)
            requires
                0 <= dc32 as int <= 255,
                0 <= da32 as int <= 255,
                0 <= inv as int <= 255,
        ;
        assert((da32 as int) * (inv as int) <= 65025) by (nonlinear_arith)
            requires
                0 <= da32 as int <= 255,
                0 <= inv as int <= 255,
        ;
    }
    let num: u32 = sc32 * sa32 * 255 + dc32 * da32 * inv;
    let den: u32 = 255 * sa32 + da32 * inv;
    proof {
        assert(num as int <= 255 * (den as int)) by (nonlinear_arith)
            requires
                num as int == (sc32 as int) * (sa32 as int) * 255 + (dc32 as int) * (da32 as int)
                    * (inv as int),
                den as int == 255 * (sa32 as int) + (da32 as int) * (inv as int),
                0 <= sc32 as int <= 255,
                0 <= dc32 as int <= 255,
                0 <= sa32 as int,
                0 <= da32 as int,
                0 <= inv as int,
        ;
        lemma_div_is_ordered(num as int, 255 * (den as int), den as int);
        lemma_div_multiples_vanish(255, den as int);
        assert((den as int) * 255 == 255 * (den as int)) by (nonlinear_arith);
    }
    (num / den) as u8
}

/// Centering offsets of a foreground inside a canvas, per dimension.
///
/// When the foreground fits, the offset centers it; when it is larger than
/// the canvas in a dimension, the offset is clamped to the canvas extent so
/// every destination coordinate falls off-canvas and nothing is painted.
pub fn center_offsets(cw: u32, ch: u32, fw: u32, fh: u32) -> (r: (u32, u32))
    ensures
        fw <= cw ==> r.0 == off_x(cw as int, fw as int),
        fw > cw ==> r.0 == cw,
        fh <= ch ==> r.1 == off_y(ch as int, fh as int),
        fh > ch ==> r.1 == ch,
{
    let ox: u32 = if fw <= cw {
        (cw - fw) / 2
    } else {
        cw
    };
    let oy: u32 = if fh <= ch {
        (ch - fh) / 2
    } else {
        ch
    };
    (ox, oy)
}

/// Paints every pixel of the canvas with the backdrop color.
pub fn fill_backdrop(canvas: &mut Vec<u8>, cw: u32, ch: u32, color: Color)
    requires
        old(canvas).len() == buf_len(cw as int, ch as int),
    ensures
        final(canvas).len() == old(canvas).len(),
        forall|x: int, y: int, k: int|
            0 <= x < cw as int && 0 <= y < ch as int && 0 <= k < 4 ==> cbyte(
                final(canvas)@,
                cw as int,
                x,
                y,
                k,
            ) == backdrop_byte(color, k),
{
    let total: usize = (cw as usize) * (ch as usize);
    let mut p: usize = 0;
    while p < total
        invariant
            total == (cw as int) * (ch as int),
            canvas.len() == buf_len(cw as int, ch as int),
            p <= total,
            forall|x: int, y: int, k: int|
                0 <= x < cw as int && 0 <= y < ch as int && 0 <= k < 4 && y * (cw as int) + x
                    < p as int ==> cbyte(canvas@, cw as int, x, y, k) == backdrop_byte(color, k),
        decreases total - p,
    {
        let ghost pre = canvas@;
        let base: usize = 4 * p;
        canvas[base] = color.b;
        canvas[base + 1] = color.g;
        canvas[base + 2] = color.r;
        canvas[base + 3] = color.a;
        proof {
            assert forall|x: int, y: int, k: int|
                0 <= x < cw as int && 0 <= y < ch as int && 0 <= k < 4 && y * (cw as int) + x < p
                    + 1 implies cbyte(canvas@, cw as int, x, y, k) == backdrop_byte(
                color,
                k,
            ) by {
                if y * (cw as int) + x < p as int {
                    assert(cbyte(pre, cw as int, x, y, k) == backdrop_byte(color, k));
                    assert(px_start(cw as int, x, y) + k < 4 * (p as int));
                } else {
                    assert(y * (cw as int) + x == p as int);
                }
            }
        }
        p = p + 1;
    }
    proof {
        assert forall|x: int, y: int, k: int|
            0 <= x < cw as int && 0 <= y < ch as int && 0 <= k < 4 implies cbyte(
            canvas@,
            cw as int,
            x,
            y,
            k,
        ) == backdrop_byte(color, k) by {
            lemma_px_bound(cw as int, ch as int, x, y);
        }
    }
}

/// What the canvas holds part-way through the compositing pass: foreground
/// pixels strictly before row `dy`, and before column `dx` within row `dy`,
/// have been painted; every other pixel still holds the backdrop.
spec fn prog_byte(
    cw: int,
    ch: int,
    c: Color,
    fg: Seq<u8>,
    fw: int,
    fh: int,
    x: int,
    y: int,
    k: int,
    dx: int,
    dy: int,
) -> int {
    let sx = x - off_x(cw, fw);
    let sy = y - off_y(ch, fh);
    if covered(cw, ch, fw, fh, x, y) && (sy < dy || (sy == dy && sx < dx)) && fg_alpha(
        fg,
        fw,
        sx,
        sy,
    ) != 0 {
        blended_byte(c, fg, fw, sx, sy, k)
    } else {
        backdrop_byte(c, k)
    }
}

/// Fills the canvas with the backdrop color, then composites the foreground
/// image over it, centered. Canvas pixels are blue, green, red, alpha;
/// foreground pixels are red, green, blue, alpha. Foreground pixels with
/// zero alpha leave the backdrop untouched; if the foreground is larger
/// than the canvas in either dimension, nothing is painted over the
/// backdrop at all.
pub fn blend(canvas: &mut Vec<u8>, cw: u32, ch: u32, color: Color, fg: &Vec<u8>, fw: u32, fh: u32)
    requires
        old(canvas).len() == buf_len(cw as int, ch as int),
        fg.len() == buf_len(fw as int, fh as int),
    ensures
        final(canvas).len() == old(canvas).len(),
        forall|x: int, y: int, k: int|
            0 <= x < cw as int && 0 <= y < ch as int && 0 <= k < 4 ==> cbyte(
                final(canvas)@,
                cw as int,
                x,
                y,
                k,
            ) == composited_byte(
                cw as int,
                ch as int,
                color,
                fg@,
                fw as int,
                fh as int,
                x,
                y,
                k,
            ),
{
    fill_backdrop(canvas, cw, ch, color);
    if fw > cw || fh > ch {
        return ;
    }
    let ox: u32 = (cw - fw) / 2;
    let oy: u32 = (ch - fh) / 2;
    let mut sy: u32 = 0;
    while sy < fh
        invariant
            fw <= cw,
            fh <= ch,
            ox as int == off_x(cw as int, fw as int),
            oy as int == off_y(ch as int, fh as int),
            sy <= fh,
            canvas.len() == buf_len(cw as int, ch as int),
            fg.len() == buf_len(fw as int, fh as int),
            forall|x: int, y: int, k: int|
                0 <= x < cw as int && 0 <= y < ch as int && 0 <= k < 4 ==> cbyte(
                    canvas@,
                    cw as int,
                    x,
                    y,
                    k,
                ) == prog_byte(
                    cw as int,
                    ch as int,
                    color,
                    fg@,
                    fw as int,
                    fh as int,
                    x,
                    y,
                    k,
                    0,
                    sy as int,
                ),
        decreases fh - sy,
    {
        let mut sx: u32 = 0;
        while sx < fw
            invariant
                fw <= cw,
                fh <= ch,
                ox as int == off_x(cw as int, fw as int),
                oy as int == off_y(ch as int, fh as int),
                sy < fh,
                sx <= fw,
                canvas.len() == buf_len(cw as int, ch as int),
                fg.len() == buf_len(fw as int, fh as int),
                forall|x: int, y: int, k: int|
                    0 <= x < cw as int && 0 <= y < ch as int && 0 <= k < 4 ==> cbyte(
                        canvas@,
                        cw as int,
                        x,
                        y,
                        k,
                    ) == prog_byte(
                        cw as int,
                        ch as int,
                        color,
                        fg@,
                        fw as int,
                        fh as int,
                        x,
                        y,
                        k,
                        sx as int,
                        sy as int,
                    ),
            decreases fw - sx,
        {
            proof {
                lemma_px_bound(fw as int, fh as int, sx as int, sy as int);
            }
            let si: usize = 4 * ((sy as usize) * (fw as usize) + (sx as usize));
            let sa = fg[si + 3];
            let dx: u32 = ox + sx;
            let dy: u32 = oy + sy;
            proof {
                lemma_px_bound(cw as int, ch as int, dx as int, dy as int);
            }
            if sa > 0 {
                let sr = fg[si];
                let sg = fg[si + 1];
                let sb = fg[si + 2];
                let di: usize = 4 * ((dy as usize) * (cw as usize) + (dx as usize));
                let nb = blend_channel(sb, sa, color.b, color.a);
                let ng = blend_channel(sg, sa, color.g, color.a);
                let nr = blend_channel(sr, sa, color.r, color.a);
                let na = blend_alpha(sa, color.a);
                let ghost pre = canvas@;
                canvas[di] = nb;
                canvas[di + 1] = ng;
                canvas[di + 2] = nr;
                canvas[di + 3] = na;
                proof {
                    assert(si as int == px_start(fw as int, sx as int, sy as int));
                    assert(fg_alpha(fg@, fw as int, sx as int, sy as int) == sa as int);
                    assert(fg_byte(fg@, fw as int, sx as int, sy as int, 0) == sr as int);
                    assert(fg_byte(fg@, fw as int, sx as int, sy as int, 1) == sg as int);
                    assert(fg_byte(fg@, fw as int, sx as int, sy as int, 2) == sb as int);
                    assert forall|x: int, y: int, k: int|
                        0 <= x < cw as int && 0 <= y < ch as int && 0 <= k < 4 implies cbyte(
                        canvas@,
                        cw as int,
                        x,
                        y,
                        k,
                    ) == prog_byte(
                        cw as int,
                        ch as int,
                        color,
                        fg@,
                        fw as int,
                        fh as int,
                        x,
                        y,
                        k,
                        sx as int + 1,
                        sy as int,
                    ) by {
                        lemma_px_bound(cw as int, ch as int, x, y);
                        if x == dx as int && y == dy as int {
                            assert(px_start(cw as int, x, y) == di as int);
                            assert(covered(cw as int, ch as int, fw as int, fh as int, x, y));
                            assert(x - off_x(cw as int, fw as int) == sx as int);
                            assert(y - off_y(ch as int, fh as int) == sy as int);
                            assert(prog_byte(
                                cw as int,
                                ch as int,
                                color,
                                fg@,
                                fw as int,
                                fh as int,
                                x,
                                y,
                                k,
                                sx as int + 1,
                                sy as int,
                            ) == blended_byte(
                                color,
                                fg@,
                                fw as int,
                                sx as int,
                                sy as int,
                                k,
                            ));
                            if k == 0 {
                                assert(blended_byte(
                                    color,
                                    fg@,
                                    fw as int,
                                    sx as int,
                                    sy as int,
                                    0,
                                ) == nb as int);
                            } else if k == 1 {
                                assert(blended_byte(
                                    color,
                                    fg@,
                                    fw as int,
                                    sx as int,
                                    sy as int,
                                    1,
                                ) == ng as int);
                            } else if k == 2 {
                                assert(blended_byte(
                                    color,
                                    fg@,
                                    fw as int,
                                    sx as int,
                                    sy as int,
                                    2,
                                ) == nr as int);
                            } else {
                                assert(blended_byte(
                                    color,
                                    fg@,
                                    fw as int,
                                    sx as int,
                                    sy as int,
                                    3,
                                ) == na as int);
                            }
                        } else {
                            lemma_px_distinct(cw as int, x, y, dx as int, dy as int);
                            assert(cbyte(pre, cw as int, x, y, k) == prog_byte(
                                cw as int,
                                ch as int,
                                color,
                                fg@,
                                fw as int,
                                fh as int,
                                x,
                                y,
                                k,
                                sx as int,
                                sy as int,
                            ));
                        }
                    }
                }
            } else {
                proof {
                    assert(fg_alpha(fg@, fw as int, sx as int, sy as int) == sa as int);
                    assert forall|x: int, y: int, k: int|
                        0 <= x < cw as int && 0 <= y < ch as int && 0 <= k < 4 implies cbyte(
                        canvas@,
                        cw as int,
                        x,
                        y,
                        k,
                    ) == prog_byte(
                        cw as int,
                        ch as int,
                        color,
                        fg@,
                        fw as int,
                        fh as int,
                        x,
                        y,
                        k,
                        sx as int + 1,
                        sy as int,
                    ) by {
                        assert(cbyte(canvas@, cw as int, x, y, k) == prog_byte(
                            cw as int,
                            ch as int,
                            color,
                            fg@,
                            fw as int,
                            fh as int,
                            x,
                            y,
                            k,
                            sx as int,
                            sy as int,
                        ));
                        let sxp = x - off_x(cw as int, fw as int);
                        let syp = y - off_y(ch as int, fh as int);
                        if covered(cw as int, ch as int, fw as int, fh as int, x, y) && syp
                            == sy as int && sxp == sx as int {
                            assert(fg_alpha(fg@, fw as int, sxp, syp) == 0);
                            assert(prog_byte(
                                cw as int,
                                ch as int,
                                color,
                                fg@,
                                fw as int,
                                fh as int,
                                x,
                                y,
                                k,
                                sx as int + 1,
                                sy as int,
                            ) == backdrop_byte(color, k));
                        } else {
                            assert(prog_byte(
                                cw as int,
                                ch as int,
                                color,
                                fg@,
                                fw as int,
                                fh as int,
                                x,
                                y,
                                k,
                                sx as int + 1,
                                sy as int,
                            ) == prog_byte(
                                cw as int,
                                ch as int,
                                color,
                                fg@,
                                fw as int,
                                fh as int,
                                x,
                                y,
                                k,
                                sx as int,
                                sy as int,
                            ));
                        }
                    }
                }
            }
            sx = sx + 1;
        }
        sy = sy + 1;
    }
}

/// Law: the compositing contract pins every byte of the result, so any two
/// canvases that satisfy it for the same dimensions, backdrop color and
/// foreground are byte-identical. Compositing is deterministic, and
/// repeating it on a fresh backdrop-filled canvas reproduces the same
/// bytes.
pub proof fn lemma_composite_deterministic(
    c1: Seq<u8>,
    c2: Seq<u8>,
    cw: int,
    ch: int,
    color: Color,
    fg: Seq<u8>,
    fw: int,
    fh: int,
)
    requires
        0 <= cw,
        0 <= ch,
        c1.len() == buf_len(cw, ch),
        c2.len() == buf_len(cw, ch),
        forall|x: int, y: int, k: int|
            0 <= x < cw && 0 <= y < ch && 0 <= k < 4 ==> cbyte(c1, cw, x, y, k)
                == composited_byte(cw, ch, color, fg, fw, fh, x, y, k),
        forall|x: int, y: int, k: int|
            0 <= x < cw && 0 <= y < ch && 0 <= k < 4 ==> cbyte(c2, cw, x, y, k)
                == composited_byte(cw, ch, color, fg, fw, fh, x, y, k),
    ensures
        c1 =~= c2,
{
    if cw > 0 && ch > 0 {
        assert forall|i: int| 0 <= i < c1.len() implies c1[i] == c2[i] by {
            let p = i / 4;
            let k = i % 4;
            lemma_fundamental_div_mod(i, 4);
            lemma_mod_bound(i, 4);
            let y = p / cw;
            let x = p % cw;
            lemma_fundamental_div_mod(p, cw);
            lemma_mod_bound(p, cw);
            lemma_mul_is_commutative(y, cw);
            if y >= ch {
                lemma_mul_inequality(ch, y, cw);
                lemma_mul_is_commutative(ch, cw);
                assert(false);
            }
            if y < 0 {
                lemma_div_pos_is_pos(p, cw);
                assert(false);
            }
            assert(px_start(cw, x, y) + k == i);
            assert(cbyte(c1, cw, x, y, k) == composited_byte(
                cw,
                ch,
                color,
                fg,
                fw,
                fh,
                x,
                y,
                k,
            ));
            assert(cbyte(c2, cw, x, y, k) == composited_byte(
                cw,
                ch,
                color,
                fg,
                fw,
                fh,
                x,
                y,
                k,
            ));
        }
    } else {
        assert(cw * ch == 0) by (nonlinear_arith)
            requires
                cw == 0 || ch == 0,
        ;
        assert(c1.len() == 0);
    }
}

/// Law: a fully opaque foreground pixel replaces the destination's color
/// channels with its own, and the stored alpha is full.
pub proof fn lemma_opaque_replaces(sc: int, dc: int, da: int)
    requires
        0 <= sc <= 255,
        0 <= dc <= 255,
        0 <= da <= 255,
    ensures
        out_chan(sc, 255, dc, da) == sc,
        out_alpha(255, da) == 255,
{
    assert(dc * da * (255 - 255) == 0) by (nonlinear_arith);
    assert(da * (255 - 255) == 0) by (nonlinear_arith);
    assert(sc * 255 * 255 == 65025 * sc) by (nonlinear_arith);
    lemma_div_multiples_vanish(sc, 65025);
}

/// Law: a fully transparent foreground pixel leaves its destination pixel
/// byte-for-byte at the backdrop fill.
pub proof fn lemma_transparent_leaves_backdrop(
    cw: int,
    ch: int,
    color: Color,
    fg: Seq<u8>,
    fw: int,
    fh: int,
    x: int,
    y: int,
    k: int,
)
    requires
        fg_alpha(fg, fw, x - off_x(cw, fw), y - off_y(ch, fh)) == 0,
    ensures
        composited_byte(cw, ch, color, fg, fw, fh, x, y, k) == backdrop_byte(color, k),
{
}

/// Law: a foreground larger than the canvas in either dimension paints
/// nothing; the whole canvas is the bare backdrop.
pub proof fn lemma_oversize_paints_nothing(
    cw: int,
    ch: int,
    color: Color,
    fg: Seq<u8>,
    fw: int,
    fh: int,
    x: int,
    y: int,
    k: int,
)
    requires
        !fits(cw, ch, fw, fh),
    ensures
        composited_byte(cw, ch, color, fg, fw, fh, x, y, k) == backdrop_byte(color, k),
{
}

} // verus!
