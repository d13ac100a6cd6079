//! The rasterizer: bounds-checked pixel writes, DDA line drawing, and the
//! flat-top/flat-bottom scanline triangle fill, all into an RGBA8 buffer of
//! `WIDTH * HEIGHT` pixels, row-major, origin top-left.
//!
//! Every drawing function's contract describes the final buffer pixel by
//! pixel: a pixel covered by the primitive holds the given color, every other
//! byte is unchanged.

use vstd::prelude::*;
use vstd::math::{abs, max, min};
use crate::consts::{HEIGHT, WIDTH};
use crate::fixed::{
    lemma_rdiv_multiple, lemma_sdiv_between, rdiv, round_div_i128, sdiv, trunc_div_i128,
};
use crate::helpers::{sort3_s, sort_vertices};

verus! {

/// Byte length of a full frame.
pub open spec fn frame_len() -> int {
    (WIDTH as int) * (HEIGHT as int) * 4
}

pub open spec fn frame_ok(s: Seq<u8>) -> bool {
    s.len() == frame_len()
}

/// Byte offset of channel `c` of the pixel at `(px, py)`.
pub open spec fn pix_idx(px: int, py: int, c: int) -> int {
    (py * (WIDTH as int) + px) * 4 + c
}

/// Channel `c` of the pixel at `(px, py)` in a frame.
pub open spec fn pix(s: Seq<u8>, px: int, py: int, c: int) -> u8 {
    s[pix_idx(px, py, c)]
}

/// `(px, py, c)` ranges over every byte of the frame exactly once.
pub open spec fn pix_in_frame(px: int, py: int, c: int) -> bool {
    0 <= px < WIDTH as int && 0 <= py < HEIGHT as int && 0 <= c < 4
}

/// Bounds-checked write of one pixel; coordinates at or beyond the screen
/// edge write nothing.
pub fn draw_pixel(frame: &mut Vec<u8>, xpos: usize, ypos: usize, rgba: [u8; 4])
    requires
        frame_ok(old(frame)@),
    ensures
        frame_ok(final(frame)@),
        forall|px: int, py: int, c: int|
            pix_in_frame(px, py, c) ==> #[trigger] pix(final(frame)@, px, py, c) == if xpos < WIDTH
                as usize && ypos < HEIGHT as usize && px == xpos as int && py == ypos as int {
                rgba[c]
            } else {
                pix(old(frame)@, px, py, c)
            },
{
    if xpos < WIDTH as usize && ypos < HEIGHT as usize {
        let base: usize = (WIDTH as usize * ypos * 4) + (xpos * 4);
        frame[base] = rgba[0];
        frame[base + 1] = rgba[1];
        frame[base + 2] = rgba[2];
        frame[base + 3] = rgba[3];
    }
}

/// Fills every pixel of the frame with the given color.
pub fn clear_color_buffer(frame: &mut Vec<u8>, rgba: [u8; 4])
    requires
        frame_ok(old(frame)@),
    ensures
        frame_ok(final(frame)@),
        forall|px: int, py: int, c: int|
            pix_in_frame(px, py, c) ==> #[trigger] pix(final(frame)@, px, py, c) == rgba[c],
{
    let ghost orig = frame@;
    let mut ypos: usize = 0;
    while ypos < HEIGHT as usize
        invariant
            frame_ok(frame@),
            ypos <= HEIGHT as usize,
            forall|px: int, py: int, c: int|
                pix_in_frame(px, py, c) && py < ypos as int ==> #[trigger] pix(frame@, px, py, c)
                    == rgba[c],
        decreases HEIGHT as usize - ypos,
    {
        let mut xpos: usize = 0;
        while xpos < WIDTH as usize
            invariant
                frame_ok(frame@),
                xpos <= WIDTH as usize,
                ypos < HEIGHT as usize,
                forall|px: int, py: int, c: int|
                    pix_in_frame(px, py, c) && (py < ypos as int || (py == ypos as int && px
                        < xpos as int)) ==> #[trigger] pix(frame@, px, py, c) == rgba[c],
            decreases WIDTH as usize - xpos,
        {
            draw_pixel(frame, xpos, ypos, rgba);
            xpos += 1;
        }
        ypos += 1;
    }
}

// ======================================================================
//  Line drawing (digital differential analyzer)
// ======================================================================

/// The DDA step count: the longer of the two coordinate spans.
pub open spec fn line_len_s(x0: int, y0: int, x1: int, y1: int) -> int {
    max(abs(x1 - x0) as int, abs(y1 - y0) as int)
}

/// The x coordinate of DDA sample `i`: `x0 + i * dx / l`, rounded to nearest.
pub open spec fn line_sample(a0: int, d: int, l: int, i: int) -> int {
    rdiv(a0 * l + i * d, l)
}

/// Whether the line's first `n` samples hit the pixel `(px, py)`.
pub open spec fn line_hit_upto(x0: int, y0: int, x1: int, y1: int, n: int, px: int, py: int)
    -> bool {
    let l = line_len_s(x0, y0, x1, y1);
    exists|i: int|
        0 <= i < n && #[trigger] line_sample(x0, x1 - x0, l, i) == px && line_sample(
            y0,
            y1 - y0,
            l,
            i,
        ) == py
}

/// Whether the line from `(x0, y0)` to `(x1, y1)` colors the pixel
/// `(px, py)`: one of its `l + 1` rounded samples lands there (a zero-length
/// line colors exactly its single point).
pub open spec fn line_hit(x0: int, y0: int, x1: int, y1: int, px: int, py: int) -> bool {
    let l = line_len_s(x0, y0, x1, y1);
    if l == 0 {
        px == x0 && py == y0
    } else {
        line_hit_upto(x0, y0, x1, y1, l + 1, px, py)
    }
}

/// Draws a line from coordinate 0 to coordinate 1 given a color and a frame.
/// Samples outside the screen (negative or past the edges) are clipped.
pub fn draw_line(frame: &mut Vec<u8>, x0: i32, y0: i32, x1: i32, y1: i32, rgba: [u8; 4])
    requires
        frame_ok(old(frame)@),
    ensures
        frame_ok(final(frame)@),
        forall|px: int, py: int, c: int|
            pix_in_frame(px, py, c) ==> #[trigger] pix(final(frame)@, px, py, c) == if line_hit(
                x0 as int,
                y0 as int,
                x1 as int,
                y1 as int,
                px,
                py,
            ) {
                rgba[c]
            } else {
                pix(old(frame)@, px, py, c)
            },
{
    let dx: i64 = x1 as i64 - x0 as i64;
    let dy: i64 = y1 as i64 - y0 as i64;
    let adx: i64 = if dx < 0 {
        -dx
    } else {
        dx
    };
    let ady: i64 = if dy < 0 {
        -dy
    } else {
        dy
    };
    let l: i64 = if adx >= ady {
        adx
    } else {
        ady
    };
    if l == 0 {
        // Both endpoints coincide: plot the single point.
        if x0 >= 0 && y0 >= 0 {
            draw_pixel(frame, x0 as usize, y0 as usize, rgba);
        }
        return ;
    }
    let ghost orig = frame@;
    let mut i: i64 = 0;
    while i <= l
        invariant
            frame_ok(frame@),
            frame_ok(orig),
            0 <= i <= l + 1,
            l == line_len_s(x0 as int, y0 as int, x1 as int, y1 as int),
            0 < l <= 0x1_0000_0000,
            -0x1_0000_0000 <= dx <= 0x1_0000_0000,
            -0x1_0000_0000 <= dy <= 0x1_0000_0000,
            dx == x1 as int - x0 as int,
            dy == y1 as int - y0 as int,
            forall|px: int, py: int, c: int|
                pix_in_frame(px, py, c) ==> #[trigger] pix(frame@, px, py, c) == if line_hit_upto(
                    x0 as int,
                    y0 as int,
                    x1 as int,
                    y1 as int,
                    i as int,
                    px,
                    py,
                ) {
                    rgba[c]
                } else {
                    pix(orig, px, py, c)
                },
        decreases l + 1 - i,
    {
        proof {
            assert(-0x1_0000_0000_0000_0000 <= (x0 as int) * (l as int) <= 0x1_0000_0000_0000_0000)
                by (nonlinear_arith)
                requires
                    -0x8000_0000 <= x0 as int <= 0x7fff_ffff,
                    0 < l as int <= 0x1_0000_0000;
            assert(-0x1_0000_0000_0000_0000 <= (y0 as int) * (l as int) <= 0x1_0000_0000_0000_0000)
                by (nonlinear_arith)
                requires
                    -0x8000_0000 <= y0 as int <= 0x7fff_ffff,
                    0 < l as int <= 0x1_0000_0000;
            assert(-0x1_0000_0000_0000_0000_0 <= (i as int) * (dx as int)
                <= 0x1_0000_0000_0000_0000_0) by (nonlinear_arith)
                requires
                    0 <= i as int <= 0x1_0000_0000,
                    -0x1_0000_0000 <= dx as int <= 0x1_0000_0000;
            assert(-0x1_0000_0000_0000_0000_0 <= (i as int) * (dy as int)
                <= 0x1_0000_0000_0000_0000_0) by (nonlinear_arith)
                requires
                    0 <= i as int <= 0x1_0000_0000,
                    -0x1_0000_0000 <= dy as int <= 0x1_0000_0000;
        }
        let sx: i128 = round_div_i128(
            (x0 as i128) * (l as i128) + (i as i128) * (dx as i128),
            l as i128,
        );
        let sy: i128 = round_div_i128(
            (y0 as i128) * (l as i128) + (i as i128) * (dy as i128),
            l as i128,
        );
        proof {
            assert(sx as int == line_sample(x0 as int, dx as int, l as int, i as int));
            assert(sy as int == line_sample(y0 as int, dy as int, l as int, i as int));
        }
        let ghost before = frame@;
        if sx >= 0 && sy >= 0 && sx < WIDTH as i128 && sy < HEIGHT as i128 {
            draw_pixel(frame, sx as usize, sy as usize, rgba);
        }
        proof {
            assert forall|px: int, py: int, c: int| pix_in_frame(px, py, c) implies #[trigger] pix(
                frame@,
                px,
                py,
                c,
            ) == if line_hit_upto(
                x0 as int,
                y0 as int,
                x1 as int,
                y1 as int,
                i + 1,
                px,
                py,
            ) {
                rgba[c]
            } else {
                pix(orig, px, py, c)
            } by {
                if px == sx as int && py == sy as int {
                    assert(line_hit_upto(
                        x0 as int,
                        y0 as int,
                        x1 as int,
                        y1 as int,
                        i + 1,
                        px,
                        py,
                    ));
                } else {
                    assert(line_hit_upto(x0 as int, y0 as int, x1 as int, y1 as int, i + 1, px, py)
                        == line_hit_upto(x0 as int, y0 as int, x1 as int, y1 as int, i as int, px, py));
                }
            }
        }
        i += 1;
    }
}

} // verus!

verus! {

/// A horizontal line's samples are exactly the integer points between its
/// endpoints, all on its row.
pub proof fn lemma_horizontal_line_hit(x0: int, x1: int, y: int, px: int, py: int)
    ensures
        line_hit(x0, y, x1, y, px, py) <==> (py == y && min(x0, x1) <= px <= max(x0, x1)),
{
    let l = line_len_s(x0, y, x1, y);
    let dx = x1 - x0;
    if l == 0 {
    } else {
        if line_hit(x0, y, x1, y, px, py) {
            let i = choose|i: int|
                0 <= i < l + 1 && #[trigger] line_sample(x0, dx, l, i) == px && line_sample(
                    y,
                    0,
                    l,
                    i,
                ) == py;
            assert(y * l + i * 0 == y * l) by (nonlinear_arith);
            lemma_rdiv_multiple(y, l);
            if dx >= 0 {
                assert(x0 * l + i * dx == (x0 + i) * l) by (nonlinear_arith)
                    requires dx == l;
                lemma_rdiv_multiple(x0 + i, l);
            } else {
                assert(x0 * l + i * dx == (x0 - i) * l) by (nonlinear_arith)
                    requires dx == -l;
                lemma_rdiv_multiple(x0 - i, l);
            }
        }
        if py == y && min(x0, x1) <= px <= max(x0, x1) {
            let i: int = if x1 >= x0 {
                px - x0
            } else {
                x0 - px
            };
            assert(0 <= i < l + 1);
            assert(y * l + i * 0 == y * l) by (nonlinear_arith);
            lemma_rdiv_multiple(y, l);
            if dx >= 0 {
                assert(x0 * l + i * dx == (x0 + i) * l) by (nonlinear_arith)
                    requires dx == l;
                lemma_rdiv_multiple(x0 + i, l);
            } else {
                assert(x0 * l + i * dx == (x0 - i) * l) by (nonlinear_arith)
                    requires dx == -l;
                lemma_rdiv_multiple(x0 - i, l);
            }
            assert(line_sample(x0, dx, l, i) == px);
            assert(line_sample(y, 0, l, i) == py);
        }
    }
}

// ======================================================================
//  Triangle filling (flat-top / flat-bottom scanline method)
// ======================================================================

/// The x coordinate, truncated toward zero, of the edge from `(xa, ya)` down
/// to `(xb, yb)` at row `y` (`ya < yb`).
pub open spec fn edge_x_down_s(xa: int, ya: int, xb: int, yb: int, y: int) -> int {
    sdiv(xa * (yb - ya) + (y - ya) * (xb - xa), yb - ya)
}

/// The x coordinate, truncated toward zero, of the same edge walked upward
/// from its bottom anchor `(xb, yb)` toward `(xa, ya)`, as the flat-top fill
/// computes it.
pub open spec fn edge_x_up_s(xb: int, yb: int, xa: int, ya: int, y: int) -> int {
    sdiv(xb * (yb - ya) - (yb - y) * (xb - xa), yb - ya)
}

/// Evaluates `edge_x_down_s` exactly; the result lies between the two
/// endpoint x coordinates.
fn edge_x_down(xa: i32, ya: i32, xb: i32, yb: i32, y: i32) -> (r: i32)
    requires
        ya < yb,
        ya <= y <= yb,
    ensures
        r as int == edge_x_down_s(xa as int, ya as int, xb as int, yb as int, y as int),
        min(xa as int, xb as int) <= r as int <= max(xa as int, xb as int),
{
    let d: i64 = yb as i64 - ya as i64;
    let t: i64 = y as i64 - ya as i64;
    proof {
        assert(-0x1_0000_0000_0000_0000 <= (xa as int) * (d as int) <= 0x1_0000_0000_0000_0000)
            by (nonlinear_arith)
            requires
                -0x8000_0000 <= xa as int <= 0x7fff_ffff,
                0 < d as int <= 0x1_0000_0000;
        assert(-0x2_0000_0000_0000_0000 <= (t as int) * ((xb as int) - (xa as int))
            <= 0x2_0000_0000_0000_0000) by (nonlinear_arith)
            requires
                0 <= t as int <= 0x1_0000_0000,
                -0x1_0000_0000 <= (xb as int) - (xa as int) <= 0x1_0000_0000;
    }
    let num: i128 = (xa as i128) * (d as i128) + (t as i128) * ((xb as i128) - (xa as i128));
    proof {
        let lo = min(xa as int, xb as int);
        let hi = max(xa as int, xb as int);
        assert(lo * (d as int) <= num as int <= hi * (d as int)) by (nonlinear_arith)
            requires
                num as int == (xa as int) * (d as int) + (t as int) * ((xb as int) - (xa as int)),
                0 <= t as int <= d as int,
                0 < d as int,
                lo == min(xa as int, xb as int),
                hi == max(xa as int, xb as int);
        lemma_sdiv_between(num as int, d as int, lo, hi);
    }
    let q: i128 = trunc_div_i128(num, d as i128);
    q as i32
}

/// Evaluates `edge_x_up_s` exactly; the result lies between the two endpoint
/// x coordinates.
fn edge_x_up(xb: i32, yb: i32, xa: i32, ya: i32, y: i32) -> (r: i32)
    requires
        ya < yb,
        ya <= y <= yb,
    ensures
        r as int == edge_x_up_s(xb as int, yb as int, xa as int, ya as int, y as int),
        min(xa as int, xb as int) <= r as int <= max(xa as int, xb as int),
{
    let d: i64 = yb as i64 - ya as i64;
    let u: i64 = yb as i64 - y as i64;
    proof {
        assert(-0x1_0000_0000_0000_0000 <= (xb as int) * (d as int) <= 0x1_0000_0000_0000_0000)
            by (nonlinear_arith)
            requires
                -0x8000_0000 <= xb as int <= 0x7fff_ffff,
                0 < d as int <= 0x1_0000_0000;
        assert(-0x2_0000_0000_0000_0000 <= (u as int) * ((xb as int) - (xa as int))
            <= 0x2_0000_0000_0000_0000) by (nonlinear_arith)
            requires
                0 <= u as int <= 0x1_0000_0000,
                -0x1_0000_0000 <= (xb as int) - (xa as int) <= 0x1_0000_0000;
    }
    let num: i128 = (xb as i128) * (d as i128) - (u as i128) * ((xb as i128) - (xa as i128));
    proof {
        let lo = min(xa as int, xb as int);
        let hi = max(xa as int, xb as int);
        assert(lo * (d as int) <= num as int <= hi * (d as int)) by (nonlinear_arith)
            requires
                num as int == (xb as int) * (d as int) - (u as int) * ((xb as int) - (xa as int)),
                0 <= u as int <= d as int,
                0 < d as int,
                lo == min(xa as int, xb as int),
                hi == max(xa as int, xb as int);
        lemma_sdiv_between(num as int, d as int, lo, hi);
    }
    let q: i128 = trunc_div_i128(num, d as i128);
    q as i32
}

/// The pixels filled by the flat-bottom half: rows `y0..=ym`, each between
/// the two edges leaving `(x0, y0)`. A fully flat input (`y0 == ym`) paints
/// the single apex pixel.
pub open spec fn fb_covered(
    x0: int,
    y0: int,
    x1: int,
    y1: int,
    xm: int,
    ym: int,
    px: int,
    py: int,
) -> bool {
    if y0 == ym {
        px == x0 && py == y0
    } else {
        let xs = edge_x_down_s(x0, y0, x1, y1, py);
        let xe = edge_x_down_s(x0, y0, xm, ym, py);
        y0 <= py <= ym && min(xs, xe) <= px <= max(xs, xe)
    }
}

fn fill_flat_bottom_triangle(
    frame: &mut Vec<u8>,
    rgba: [u8; 4],
    x0: i32,
    y0: i32,
    x1: i32,
    y1: i32,
    xm: i32,
    ym: i32,
)
    requires
        frame_ok(old(frame)@),
        y0 <= y1,
        y1 == ym,
    ensures
        frame_ok(final(frame)@),
        forall|px: int, py: int, c: int|
            pix_in_frame(px, py, c) ==> #[trigger] pix(final(frame)@, px, py, c) == if fb_covered(
                x0 as int,
                y0 as int,
                x1 as int,
                y1 as int,
                xm as int,
                ym as int,
                px,
                py,
            ) {
                rgba[c]
            } else {
                pix(old(frame)@, px, py, c)
            },
{
    if ym == y0 {
        draw_line(frame, x0, y0, x0, y0, rgba);
        return ;
    }
    let ghost orig = frame@;
    let mut y: i64 = y0 as i64;
    while y <= ym as i64
        invariant
            frame_ok(frame@),
            frame_ok(orig),
            y0 <= y,
            y <= ym + 1,
            y0 < ym,
            y1 == ym,
            forall|px: int, py: int, c: int|
                pix_in_frame(px, py, c) ==> #[trigger] pix(frame@, px, py, c) == if fb_covered(
                    x0 as int,
                    y0 as int,
                    x1 as int,
                    y1 as int,
                    xm as int,
                    ym as int,
                    px,
                    py,
                ) && py < y as int {
                    rgba[c]
                } else {
                    pix(orig, px, py, c)
                },
        decreases ym + 1 - y,
    {
        let yc: i32 = y as i32;
        let xs: i32 = edge_x_down(x0, y0, x1, y1, yc);
        let xe: i32 = edge_x_down(x0, y0, xm, ym, yc);
        draw_line(frame, xs, yc, xe, yc, rgba);
        proof {
            assert forall|px: int, py: int, c: int| pix_in_frame(px, py, c) implies #[trigger] pix(
                frame@,
                px,
                py,
                c,
            ) == if fb_covered(
                x0 as int,
                y0 as int,
                x1 as int,
                y1 as int,
                xm as int,
                ym as int,
                px,
                py,
            ) && py < y + 1 {
                rgba[c]
            } else {
                pix(orig, px, py, c)
            } by {
                lemma_horizontal_line_hit(xs as int, xe as int, y as int, px, py);
            }
        }
        y = y + 1;
    }
}

/// The pixels filled by the flat-top half: rows `y1..=y2`, each between the
/// two edges meeting at the bottom vertex `(x2, y2)`.
pub open spec fn ft_covered(
    x1: int,
    y1: int,
    xm: int,
    ym: int,
    x2: int,
    y2: int,
    px: int,
    py: int,
) -> bool {
    let xs = edge_x_up_s(x2, y2, x1, y1, py);
    let xe = edge_x_up_s(x2, y2, xm, ym, py);
    y1 <= py <= y2 && min(xs, xe) <= px <= max(xs, xe)
}

fn fill_flat_top_triangle(
    frame: &mut Vec<u8>,
    rgba: [u8; 4],
    x1: i32,
    y1: i32,
    xm: i32,
    ym: i32,
    x2: i32,
    y2: i32,
)
    requires
        frame_ok(old(frame)@),
        y1 == ym,
        y1 < y2,
    ensures
        frame_ok(final(frame)@),
        forall|px: int, py: int, c: int|
            pix_in_frame(px, py, c) ==> #[trigger] pix(final(frame)@, px, py, c) == if ft_covered(
                x1 as int,
                y1 as int,
                xm as int,
                ym as int,
                x2 as int,
                y2 as int,
                px,
                py,
            ) {
                rgba[c]
            } else {
                pix(old(frame)@, px, py, c)
            },
{
    let ghost orig = frame@;
    let mut y: i64 = y1 as i64;
    while y <= y2 as i64
        invariant
            frame_ok(frame@),
            frame_ok(orig),
            y1 <= y,
            y <= y2 + 1,
            y1 < y2,
            y1 == ym,
            forall|px: int, py: int, c: int|
                pix_in_frame(px, py, c) ==> #[trigger] pix(frame@, px, py, c) == if ft_covered(
                    x1 as int,
                    y1 as int,
                    xm as int,
                    ym as int,
                    x2 as int,
                    y2 as int,
                    px,
                    py,
                ) && py < y as int {
                    rgba[c]
                } else {
                    pix(orig, px, py, c)
                },
        decreases y2 + 1 - y,
    {
        let yc: i32 = y as i32;
        let xs: i32 = edge_x_up(x2, y2, x1, y1, yc);
        let xe: i32 = edge_x_up(x2, y2, xm, ym, yc);
        draw_line(frame, xs, yc, xe, yc, rgba);
        proof {
            assert forall|px: int, py: int, c: int| pix_in_frame(px, py, c) implies #[trigger] pix(
                frame@,
                px,
                py,
                c,
            ) == if ft_covered(
                x1 as int,
                y1 as int,
                xm as int,
                ym as int,
                x2 as int,
                y2 as int,
                px,
                py,
            ) && py < y + 1 {
                rgba[c]
            } else {
                pix(orig, px, py, c)
            } by {
                lemma_horizontal_line_hit(xs as int, xe as int, y as int, px, py);
            }
        }
        y = y + 1;
    }
}

/// The midpoint x that splits a general triangle into a flat-bottom and a
/// flat-top half, by triangle similarity, with truncating integer division.
pub open spec fn mid_x_s(sx0: int, sy0: int, sy1: int, sx2: int, sy2: int) -> int {
    sdiv((sx2 - sx0) * (sy1 - sy0), sy2 - sy0) + sx0
}

/// The pixels painted by `draw_filled_triangle`: the vertices sorted by
/// ascending y, then one or two flat scanline fills.
pub open spec fn filled_covered(
    x0: int,
    y0: int,
    x1: int,
    y1: int,
    x2: int,
    y2: int,
    px: int,
    py: int,
) -> bool {
    let (sx0, sy0, sx1, sy1, sx2, sy2) = sort3_s(x0, y0, x1, y1, x2, y2);
    if sy1 == sy2 {
        fb_covered(sx0, sy0, sx1, sy1, sx2, sy2, px, py)
    } else if sy0 == sy1 {
        ft_covered(sx0, sy0, sx1, sy1, sx2, sy2, px, py)
    } else {
        let mx = mid_x_s(sx0, sy0, sy1, sx2, sy2);
        fb_covered(sx0, sy0, sx1, sy1, mx, sy1, px, py) || ft_covered(
            sx1,
            sy1,
            mx,
            sy1,
            sx2,
            sy2,
            px,
            py,
        )
    }
}

/// Draw a filled triangle with the flat-top/flat-bottom method.
pub fn draw_filled_triangle(
    frame: &mut Vec<u8>,
    x0: i32,
    y0: i32,
    x1: i32,
    y1: i32,
    x2: i32,
    y2: i32,
    rgba: [u8; 4],
)
    requires
        frame_ok(old(frame)@),
    ensures
        frame_ok(final(frame)@),
        forall|px: int, py: int, c: int|
            pix_in_frame(px, py, c) ==> #[trigger] pix(final(frame)@, px, py, c)
                == if filled_covered(
                x0 as int,
                y0 as int,
                x1 as int,
                y1 as int,
                x2 as int,
                y2 as int,
                px,
                py,
            ) {
                rgba[c]
            } else {
                pix(old(frame)@, px, py, c)
            },
{
    let mut sx0: i32 = x0;
    let mut sy0: i32 = y0;
    let mut sx1: i32 = x1;
    let mut sy1: i32 = y1;
    let mut sx2: i32 = x2;
    let mut sy2: i32 = y2;
    sort_vertices(&mut sx0, &mut sy0, &mut sx1, &mut sy1, &mut sx2, &mut sy2);
    if sy1 == sy2 {
        // Just draw upper half to avoid division by 0.
        fill_flat_bottom_triangle(frame, rgba, sx0, sy0, sx1, sy1, sx2, sy2);
    } else if sy0 == sy1 {
        // Just draw the bottom half to avoid division by 0.
        fill_flat_top_triangle(frame, rgba, sx0, sy0, sx1, sy1, sx2, sy2);
    } else {
        // Calculate the new vertex (middle point) with triangle similarity.
        proof {
            assert(-0x1_0000_0000_0000_0000_0 <= ((sx2 as int) - (sx0 as int)) * ((sy1 as int) - (
            sy0 as int)) <= 0x1_0000_0000_0000_0000_0) by (nonlinear_arith)
                requires
                    -0x1_0000_0000 <= (sx2 as int) - (sx0 as int) <= 0x1_0000_0000,
                    0 <= (sy1 as int) - (sy0 as int) <= 0x1_0000_0000;
        }
        let num: i128 = ((sx2 as i128) - (sx0 as i128)) * ((sy1 as i128) - (sy0 as i128));
        let den: i128 = (sy2 as i128) - (sy0 as i128);
        proof {
            let lo = min(0, (sx2 as int) - (sx0 as int));
            let hi = max(0, (sx2 as int) - (sx0 as int));
            assert(lo * (den as int) <= num as int <= hi * (den as int)) by (nonlinear_arith)
                requires
                    num as int == ((sx2 as int) - (sx0 as int)) * ((sy1 as int) - (sy0 as int)),
                    0 < (sy1 as int) - (sy0 as int) < den as int,
                    lo == min(0, (sx2 as int) - (sx0 as int)),
                    hi == max(0, (sx2 as int) - (sx0 as int));
            lemma_sdiv_between(num as int, den as int, lo, hi);
        }
        let q: i128 = trunc_div_i128(num, den);
        proof {
            assert(min(0, (sx2 as int) - (sx0 as int)) <= q as int <= max(
                0,
                (sx2 as int) - (sx0 as int),
            ));
            assert(min(sx0 as int, sx2 as int) <= (sx0 as int) + (q as int) <= max(
                sx0 as int,
                sx2 as int,
            ));
        }
        let mx: i32 = (sx0 as i128 + q) as i32;
        let ghost orig = frame@;
        // Draw flat-bottom triangle.
        fill_flat_bottom_triangle(frame, rgba, sx0, sy0, sx1, sy1, mx, sy1);
        // Draw flat-top triangle.
        fill_flat_top_triangle(frame, rgba, sx1, sy1, mx, sy1, sx2, sy2);
        proof {
            assert forall|px: int, py: int, c: int| pix_in_frame(px, py, c) implies #[trigger] pix(
                frame@,
                px,
                py,
                c,
            ) == if filled_covered(
                x0 as int,
                y0 as int,
                x1 as int,
                y1 as int,
                x2 as int,
                y2 as int,
                px,
                py,
            ) {
                rgba[c]
            } else {
                pix(orig, px, py, c)
            } by {
                assert((
                    sx0 as int,
                    sy0 as int,
                    sx1 as int,
                    sy1 as int,
                    sx2 as int,
                    sy2 as int,
                ) == sort3_s(x0 as int, y0 as int, x1 as int, y1 as int, x2 as int, y2 as int));
                assert(mx as int == mid_x_s(
                    sx0 as int,
                    sy0 as int,
                    sy1 as int,
                    sx2 as int,
                    sy2 as int,
                ));
            }
        }
    }
}

/// The pixels colored by the wireframe outline: the three edges as lines.
pub open spec fn outline_covered(
    x0: int,
    y0: int,
    x1: int,
    y1: int,
    x2: int,
    y2: int,
    px: int,
    py: int,
) -> bool {
    line_hit(x0, y0, x1, y1, px, py) || line_hit(x1, y1, x2, y2, px, py) || line_hit(
        x2,
        y2,
        x0,
        y0,
        px,
        py,
    )
}

/// Draws a triangle either filled or as a wireframe outline.
pub fn draw_triangle(
    frame: &mut Vec<u8>,
    rgba: [u8; 4],
    fill: bool,
    x0: i32,
    y0: i32,
    x1: i32,
    y1: i32,
    x2: i32,
    y2: i32,
)
    requires
        frame_ok(old(frame)@),
    ensures
        frame_ok(final(frame)@),
        forall|px: int, py: int, c: int|
            pix_in_frame(px, py, c) ==> #[trigger] pix(final(frame)@, px, py, c) == if (fill
                && filled_covered(
                x0 as int,
                y0 as int,
                x1 as int,
                y1 as int,
                x2 as int,
                y2 as int,
                px,
                py,
            )) || (!fill && outline_covered(
                x0 as int,
                y0 as int,
                x1 as int,
                y1 as int,
                x2 as int,
                y2 as int,
                px,
                py,
            )) {
                rgba[c]
            } else {
                pix(old(frame)@, px, py, c)
            },
{
    if fill {
        draw_filled_triangle(frame, x0, y0, x1, y1, x2, y2, rgba);
    } else {
        draw_line(frame, x0, y0, x1, y1, rgba);
        draw_line(frame, x1, y1, x2, y2, rgba);
        draw_line(frame, x2, y2, x0, y0, rgba);
    }
}

} // verus!

verus! {

/// The pixels inside the axis-aligned rectangle, clipped to the screen.
pub open spec fn rect_covered(
    x_pos: int,
    y_pos: int,
    width: int,
    height: int,
    px: int,
    py: int,
) -> bool {
    x_pos <= px < x_pos + width && y_pos <= py < y_pos + height
}

/// Fills a rectangle, clipped at the screen edges.
pub fn draw_rect(
    frame: &mut Vec<u8>,
    x_pos: usize,
    y_pos: usize,
    width: usize,
    height: usize,
    rgba: [u8; 4],
)
    requires
        frame_ok(old(frame)@),
        x_pos + width <= usize::MAX,
        y_pos + height <= usize::MAX,
    ensures
        frame_ok(final(frame)@),
        forall|px: int, py: int, c: int|
            pix_in_frame(px, py, c) ==> #[trigger] pix(final(frame)@, px, py, c) == if rect_covered(
                x_pos as int,
                y_pos as int,
                width as int,
                height as int,
                px,
                py,
            ) {
                rgba[c]
            } else {
                pix(old(frame)@, px, py, c)
            },
{
    let ghost orig = frame@;
    let mut x: usize = x_pos;
    while x < x_pos + width && x < WIDTH as usize
        invariant
            frame_ok(frame@),
            frame_ok(orig),
            x_pos <= x,
            x_pos + width <= usize::MAX,
            y_pos + height <= usize::MAX,
            forall|px: int, py: int, c: int|
                pix_in_frame(px, py, c) ==> #[trigger] pix(frame@, px, py, c) == if rect_covered(
                    x_pos as int,
                    y_pos as int,
                    width as int,
                    height as int,
                    px,
                    py,
                ) && px < x as int {
                    rgba[c]
                } else {
                    pix(orig, px, py, c)
                },
        decreases usize::MAX - x,
    {
        let mut y: usize = y_pos;
        while y < y_pos + height && y < HEIGHT as usize
            invariant
                frame_ok(frame@),
                frame_ok(orig),
                x_pos <= x < x_pos + width,
                x < WIDTH as usize,
                y_pos <= y,
                y_pos + height <= usize::MAX,
                forall|px: int, py: int, c: int|
                    pix_in_frame(px, py, c) ==> #[trigger] pix(frame@, px, py, c)
                        == if rect_covered(
                        x_pos as int,
                        y_pos as int,
                        width as int,
                        height as int,
                        px,
                        py,
                    ) && (px < x as int || (px == x as int && py < y as int)) {
                        rgba[c]
                    } else {
                        pix(orig, px, py, c)
                    },
            decreases usize::MAX - y,
        {
            draw_pixel(frame, x, y, rgba);
            y += 1;
        }
        x += 1;
    }
}

/// The grid's dots: both coordinates at `gap / 2` plus a multiple of `gap`.
pub open spec fn grid_covered(gap: int, px: int, py: int) -> bool {
    exists|kx: int, ky: int|
        kx >= 0 && ky >= 0 && px == gap / 2 + #[trigger] (kx * gap) && py == gap / 2 + #[trigger] (
        ky * gap)
}

/// Draws a dot grid with the given spacing, offset half a gap from the
/// origin.
pub fn draw_grid(frame: &mut Vec<u8>, rgba: [u8; 4], gap: usize)
    requires
        frame_ok(old(frame)@),
        1 <= gap <= usize::MAX - WIDTH as usize - HEIGHT as usize,
    ensures
        frame_ok(final(frame)@),
        forall|px: int, py: int, c: int|
            pix_in_frame(px, py, c) ==> #[trigger] pix(final(frame)@, px, py, c) == if grid_covered(
                gap as int,
                px,
                py,
            ) {
                rgba[c]
            } else {
                pix(old(frame)@, px, py, c)
            },
{
    let ghost orig = frame@;
    let mut x: usize = gap / 2;
    let ghost mut kx: int = 0;
    proof {
        assert(0 * (gap as int) == 0) by (nonlinear_arith);
    }
    while x < WIDTH as usize
        invariant
            frame_ok(frame@),
            frame_ok(orig),
            1 <= gap <= usize::MAX - WIDTH as usize - HEIGHT as usize,
            kx >= 0,
            x as int == gap as int / 2 + kx * (gap as int),
            forall|px: int, py: int, c: int|
                pix_in_frame(px, py, c) ==> #[trigger] pix(frame@, px, py, c) == if grid_covered(
                    gap as int,
                    px,
                    py,
                ) && px < x as int {
                    rgba[c]
                } else {
                    pix(orig, px, py, c)
                },
        decreases WIDTH as int + gap as int - x as int,
    {
        let mut y: usize = gap / 2;
        let ghost mut ky: int = 0;
        proof {
            assert(0 * (gap as int) == 0) by (nonlinear_arith);
        }
        while y < HEIGHT as usize
            invariant
                frame_ok(frame@),
                frame_ok(orig),
                1 <= gap <= usize::MAX - WIDTH as usize - HEIGHT as usize,
                kx >= 0,
                ky >= 0,
                x as int == gap as int / 2 + kx * (gap as int),
                y as int == gap as int / 2 + ky * (gap as int),
                x < WIDTH as usize,
                forall|px: int, py: int, c: int|
                    pix_in_frame(px, py, c) ==> #[trigger] pix(frame@, px, py, c)
                        == if grid_covered(gap as int, px, py) && (px < x as int || (px == x as int
                        && py < y as int)) {
                        rgba[c]
                    } else {
                        pix(orig, px, py, c)
                    },
            decreases HEIGHT as int + gap as int - y as int,
        {
            draw_pixel(frame, x, y, rgba);
            let ghost y0g: int = y as int;
            y += gap;
            proof {
                ky = ky + 1;
                assert((ky - 1) * (gap as int) + gap as int == ky * (gap as int))
                    by (nonlinear_arith);
                assert(grid_covered(gap as int, x as int, y0g)) by {
                    assert(x as int == gap as int / 2 + kx * (gap as int));
                    assert(y0g == gap as int / 2 + (ky - 1) * (gap as int));
                }
                assert forall|px: int, py: int, c: int|
                    pix_in_frame(px, py, c) && grid_covered(gap as int, px, py) && px == x as int
                        && y0g < py < y as int implies false by {
                    let (qx, qy) = choose|qx: int, qy: int|
                        qx >= 0 && qy >= 0 && px == gap as int / 2 + #[trigger] (qx * (gap as int))
                            && py == gap as int / 2 + #[trigger] (qy * (gap as int));
                    assert((ky - 1) * (gap as int) < qy * (gap as int) < (ky - 1) * (gap as int)
                        + gap as int);
                    assert(false) by (nonlinear_arith)
                        requires
                            (ky - 1) * (gap as int) < qy * (gap as int) < (ky - 1) * (gap as int)
                                + gap as int,
                            gap as int >= 1;
                }
            }
        }
        proof {
            assert forall|px: int, py: int, c: int|
                pix_in_frame(px, py, c) && grid_covered(gap as int, px, py) && (x as int) < px
                    && px < (x as int) + (gap as int) implies false by {
                let (qx, qy) = choose|qx: int, qy: int|
                    qx >= 0 && qy >= 0 && px == gap as int / 2 + #[trigger] (qx * (gap as int)) && py
                        == gap as int / 2 + #[trigger] (qy * (gap as int));
                assert(kx * (gap as int) < qx * (gap as int) < kx * (gap as int) + gap as int);
                assert(false) by (nonlinear_arith)
                    requires
                        kx * (gap as int) < qx * (gap as int) < kx * (gap as int) + gap as int,
                        gap as int >= 1;
            }
        }
        x += gap;
        proof {
            kx = kx + 1;
            assert((kx - 1) * (gap as int) + gap as int == kx * (gap as int)) by (nonlinear_arith);
        }
    }
    proof {
        assert forall|px: int, py: int, c: int|
            pix_in_frame(px, py, c) && grid_covered(gap as int, px, py) implies px < x as int by {
            let (qx, qy) = choose|qx: int, qy: int|
                qx >= 0 && qy >= 0 && px == gap as int / 2 + #[trigger] (qx * (gap as int)) && py
                    == gap as int / 2 + #[trigger] (qy * (gap as int));
            if px >= x as int {
                assert(qx * (gap as int) >= kx * (gap as int));
                assert(qx >= kx) by (nonlinear_arith)
                    requires qx * (gap as int) >= kx * (gap as int) && gap as int > 0;
                assert(qx * (gap as int) >= kx * (gap as int) + 0) by (nonlinear_arith)
                    requires qx >= kx && gap as int > 0;
            }
        }
    }
}

} // verus!
