//! Drawing operations and their effect on a canvas buffer.

use vstd::prelude::*;
use super::spec::{Rgba, paint, buffer_fits, wrap_i32, lemma_paint_ext, lemma_zero_width};
use super::raster::{dims_ok, fill_all, put_pixel, paint_row_span, paint_block};
use super::circle::{circle_covers, disc_covers, draw_circle, draw_disc, wrap_i32_exec};
use super::line::{line_covers, draw_line};

verus! {

/// 2D drawing operations for a canvas.
#[derive(Debug, Clone, Copy, PartialEq, Eq, Structural)]
pub enum DrawOp {
    /// Fill entire canvas with color (r, g, b, a)
    Clear(u8, u8, u8, u8),
    /// Draw pixel at (x, y) with color (r, g, b, a)
    Pixel { x: u32, y: u32, r: u8, g: u8, b: u8, a: u8 },
    /// Draw horizontal line from (x, y) with length and color
    HLine { x: u32, y: u32, length: u32, r: u8, g: u8, b: u8, a: u8 },
    /// Draw vertical line from (x, y) with length and color
    VLine { x: u32, y: u32, length: u32, r: u8, g: u8, b: u8, a: u8 },
    /// Draw filled rectangle (x, y, width, height, r, g, b, a)
    Rect { x: u32, y: u32, width: u32, height: u32, r: u8, g: u8, b: u8, a: u8 },
    /// Draw circle at (cx, cy) with radius and color
    Circle { cx: u32, cy: u32, radius: u32, r: u8, g: u8, b: u8, a: u8 },
    /// Draw filled circle at (cx, cy) with radius and color
    FilledCircle { cx: u32, cy: u32, radius: u32, r: u8, g: u8, b: u8, a: u8 },
    /// Draw line from (x1, y1) to (x2, y2) with color
    Line { x1: u32, y1: u32, x2: u32, y2: u32, r: u8, g: u8, b: u8, a: u8 },
}

/// The colour an operation paints with.
pub open spec fn op_color(op: DrawOp) -> Rgba {
    match op {
        DrawOp::Clear(r, g, b, a) => Rgba { r, g, b, a },
        DrawOp::Pixel { r, g, b, a, .. } => Rgba { r, g, b, a },
        DrawOp::HLine { r, g, b, a, .. } => Rgba { r, g, b, a },
        DrawOp::VLine { r, g, b, a, .. } => Rgba { r, g, b, a },
        DrawOp::Rect { r, g, b, a, .. } => Rgba { r, g, b, a },
        DrawOp::Circle { r, g, b, a, .. } => Rgba { r, g, b, a },
        DrawOp::FilledCircle { r, g, b, a, .. } => Rgba { r, g, b, a },
        DrawOp::Line { r, g, b, a, .. } => Rgba { r, g, b, a },
    }
}

/// The pixel `(px, py)` is painted by `op` (before clipping to the canvas).  Circle and line
/// coordinates are read as 32-bit signed values.
pub open spec fn op_covers(op: DrawOp, px: int, py: int) -> bool {
    match op {
        DrawOp::Clear(..) => true,
        DrawOp::Pixel { x, y, .. } => px == x && py == y,
        DrawOp::HLine { x, y, length, .. } => py == y && x <= px < x + length,
        DrawOp::VLine { x, y, length, .. } => px == x && y <= py < y + length,
        DrawOp::Rect { x, y, width, height, .. } => x <= px < x + width && y <= py < y + height,
        DrawOp::Circle { cx, cy, radius, .. } => circle_covers(
            wrap_i32(cx),
            wrap_i32(cy),
            wrap_i32(radius),
            px,
            py,
        ),
        DrawOp::FilledCircle { cx, cy, radius, .. } => disc_covers(
            wrap_i32(cx),
            wrap_i32(cy),
            radius as int,
            px,
            py,
        ),
        DrawOp::Line { x1, y1, x2, y2, .. } => line_covers(
            wrap_i32(x1),
            wrap_i32(y1),
            wrap_i32(x2),
            wrap_i32(y2),
            px,
            py,
        ),
    }
}

/// The buffer after executing `op` on a canvas `w` pixels wide.
pub open spec fn apply_op(s: Seq<u8>, w: int, op: DrawOp) -> Seq<u8> {
    paint(s, w, |px: int, py: int| op_covers(op, px, py), op_color(op))
}

/// The buffer after executing `ops` in order.
pub open spec fn apply_ops(s: Seq<u8>, w: int, ops: Seq<DrawOp>) -> Seq<u8>
    decreases ops.len(),
{
    if ops.len() == 0 {
        s
    } else {
        apply_op(apply_ops(s, w, ops.drop_last()), w, ops.last())
    }
}

fn rgba(r: u8, g: u8, b: u8, a: u8) -> (c: Rgba)
    ensures
        c == (Rgba { r, g, b, a }),
{
    Rgba { r, g, b, a }
}

/// `min(start + len, limit)`, computed without overflow.
fn clip_end(start: u32, len: u32, limit: u32) -> (e: u32)
    ensures
        e == if start + len < limit { start + len } else { limit as int },
{
    let sum: u64 = start as u64 + len as u64;
    if sum < limit as u64 {
        sum as u32
    } else {
        limit
    }
}

/// Executes one drawing operation on a `w` x `h` buffer.
pub fn execute_op(pixels: &mut Vec<u8>, w: u32, h: u32, op: &DrawOp)
    requires
        dims_ok(w, h),
        buffer_fits(old(pixels)@, w as int, h as int),
    ensures
        final(pixels)@ == apply_op(old(pixels)@, w as int, *op),
{
    let ghost s = pixels@;
    let ghost p = |px: int, py: int| op_covers(*op, px, py);
    match op {
        DrawOp::Clear(r, g, b, a) => {
            fill_all(pixels, w, h, rgba(*r, *g, *b, *a));
            proof {
                assert(p =~= |px: int, py: int| true);
            }
        },
        DrawOp::Pixel { x, y, r, g, b, a } => {
            if *x < w && *y < h {
                put_pixel(pixels, w, h, *x, *y, rgba(*r, *g, *b, *a));
                proof {
                    assert(p =~= |px: int, py: int| px == *x && py == *y);
                }
            } else {
                proof {
                    if w == 0 {
                        lemma_zero_width(s, w as int, h as int, p, op_color(*op));
                    } else {
                        lemma_paint_ext(s, w as int, h as int, p, |px: int, py: int| false, op_color(*op));
                        assert(paint(s, w as int, |px: int, py: int| false, op_color(*op)) =~= s);
                    }
                }
            }
        },
        DrawOp::HLine { x, y, length, r, g, b, a } => {
            if *y < h {
                let end = clip_end(*x, *length, w);
                paint_row_span(pixels, w, h, *y, *x, end, rgba(*r, *g, *b, *a));
                proof {
                    if w == 0 {
                        lemma_zero_width(s, w as int, h as int, p, op_color(*op));
                        lemma_zero_width(s, w as int, h as int, |px: int, py: int| py == *y && *x <= px < end, op_color(*op));
                    } else {
                        lemma_paint_ext(s, w as int, h as int, p, |px: int, py: int| py == *y && *x <= px < end, op_color(*op));
                    }
                }
            } else {
                proof {
                    if w == 0 {
                        lemma_zero_width(s, w as int, h as int, p, op_color(*op));
                    } else {
                        lemma_paint_ext(s, w as int, h as int, p, |px: int, py: int| false, op_color(*op));
                        assert(paint(s, w as int, |px: int, py: int| false, op_color(*op)) =~= s);
                    }
                }
            }
        },
        DrawOp::VLine { x, y, length, r, g, b, a } => {
            if *x < w {
                let end = clip_end(*y, *length, h);
                paint_block(pixels, w, h, *x, *x + 1, *y, end, rgba(*r, *g, *b, *a));
                proof {
                    lemma_paint_ext(s, w as int, h as int, p, |px: int, py: int| *y <= py < end && *x <= px < *x + 1, op_color(*op));
                }
            } else {
                proof {
                    if w == 0 {
                        lemma_zero_width(s, w as int, h as int, p, op_color(*op));
                    } else {
                        lemma_paint_ext(s, w as int, h as int, p, |px: int, py: int| false, op_color(*op));
                        assert(paint(s, w as int, |px: int, py: int| false, op_color(*op)) =~= s);
                    }
                }
            }
        },
        DrawOp::Rect { x, y, width, height, r, g, b, a } => {
            let x_end = clip_end(*x, *width, w);
            let y_end = clip_end(*y, *height, h);
            paint_block(pixels, w, h, *x, x_end, *y, y_end, rgba(*r, *g, *b, *a));
            proof {
                if w == 0 {
                    lemma_zero_width(s, w as int, h as int, p, op_color(*op));
                    lemma_zero_width(s, w as int, h as int, |px: int, py: int| *y <= py < y_end && *x <= px < x_end, op_color(*op));
                } else {
                    lemma_paint_ext(s, w as int, h as int, p, |px: int, py: int| *y <= py < y_end && *x <= px < x_end, op_color(*op));
                }
            }
        },
        DrawOp::Circle { cx, cy, radius, r, g, b, a } => {
            draw_circle(
                pixels,
                w,
                h,
                wrap_i32_exec(*cx),
                wrap_i32_exec(*cy),
                wrap_i32_exec(*radius),
                rgba(*r, *g, *b, *a),
            );
            proof {
                assert(p =~= |px: int, py: int| circle_covers(wrap_i32(*cx), wrap_i32(*cy), wrap_i32(*radius), px, py));
            }
        },
        DrawOp::FilledCircle { cx, cy, radius, r, g, b, a } => {
            draw_disc(
                pixels,
                w,
                h,
                wrap_i32_exec(*cx),
                wrap_i32_exec(*cy),
                *radius as i128,
                rgba(*r, *g, *b, *a),
            );
            proof {
                assert(p =~= |px: int, py: int| disc_covers(wrap_i32(*cx), wrap_i32(*cy), *radius as int, px, py));
            }
        },
        DrawOp::Line { x1, y1, x2, y2, r, g, b, a } => {
            draw_line(
                pixels,
                w,
                h,
                wrap_i32_exec(*x1),
                wrap_i32_exec(*y1),
                wrap_i32_exec(*x2),
                wrap_i32_exec(*y2),
                rgba(*r, *g, *b, *a),
            );
            proof {
                assert(p =~= |px: int, py: int| line_covers(wrap_i32(*x1), wrap_i32(*y1), wrap_i32(*x2), wrap_i32(*y2), px, py));
            }
        },
    }
}

} // verus!
