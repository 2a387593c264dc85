//! Properties that hold of every canvas and every sequence of drawing operations.

use vstd::prelude::*;
use super::spec::{Rgba, channel, paint, pixel_offset, buffer_fits, wrap_i32, lemma_pixel_bytes};
use super::circle::{circle_covers, disc_covers, midpoint_state, midpoint_active, octant_point};
use super::line::{line_covers, line_state, line_running, lemma_line_reaches_end};
use super::ops::{DrawOp, op_color, op_covers, apply_op, apply_ops};

verus! {

/// Executing no operations leaves the buffer unchanged, so executing an already executed
/// canvas again changes nothing.
pub proof fn lemma_no_ops_identity(s: Seq<u8>, w: int)
    ensures
        apply_ops(s, w, Seq::<DrawOp>::empty()) == s,
{
}

/// Executing `a` and then `b` gives the same buffer as executing `a + b` at once.
pub proof fn lemma_ops_compose(s: Seq<u8>, w: int, a: Seq<DrawOp>, b: Seq<DrawOp>)
    ensures
        apply_ops(s, w, a + b) == apply_ops(apply_ops(s, w, a), w, b),
    decreases b.len(),
{
    if b.len() == 0 {
        assert(a + b =~= a);
    } else {
        lemma_ops_compose(s, w, a, b.drop_last());
        assert((a + b).drop_last() =~= a + b.drop_last());
        assert((a + b).last() == b.last());
    }
}

/// An operation never changes the length of the buffer.
pub proof fn lemma_ops_keep_length(s: Seq<u8>, w: int, ops: Seq<DrawOp>)
    ensures
        apply_ops(s, w, ops).len() == s.len(),
    decreases ops.len(),
{
    if ops.len() > 0 {
        lemma_ops_keep_length(s, w, ops.drop_last());
    }
}

/// A pixel inside the canvas that the last operation paints takes that operation's colour,
/// whatever came before: later operations overwrite earlier ones.
pub proof fn lemma_last_op_wins(
    s: Seq<u8>,
    w: int,
    h: int,
    ops: Seq<DrawOp>,
    op: DrawOp,
    px: int,
    py: int,
    k: int,
)
    requires
        buffer_fits(s, w, h),
        0 <= px < w,
        0 <= py < h,
        0 <= k < 4,
        op_covers(op, px, py),
    ensures
        apply_ops(s, w, ops.push(op))[pixel_offset(w, px, py) + k] == channel(op_color(op), k),
{
    let i = pixel_offset(w, px, py) + k;
    assert(ops.push(op).drop_last() =~= ops);
    lemma_ops_keep_length(s, w, ops);
    lemma_pixel_bytes(i, w, px, py);
    assert(i < w * h * 4) by (nonlinear_arith)
        requires
            i == (py * w + px) * 4 + k,
            0 <= px < w,
            0 <= py < h,
            0 <= k < 4,
    ;
}

/// A pixel that an operation does not paint keeps every channel.
pub proof fn lemma_unpainted_pixel_kept(
    s: Seq<u8>,
    w: int,
    h: int,
    op: DrawOp,
    px: int,
    py: int,
    k: int,
)
    requires
        buffer_fits(s, w, h),
        0 <= px < w,
        0 <= py < h,
        0 <= k < 4,
        !op_covers(op, px, py),
    ensures
        apply_op(s, w, op)[pixel_offset(w, px, py) + k] == s[pixel_offset(w, px, py) + k],
{
    let i = pixel_offset(w, px, py) + k;
    lemma_pixel_bytes(i, w, px, py);
    assert(i < w * h * 4) by (nonlinear_arith)
        requires
            i == (py * w + px) * 4 + k,
            0 <= px < w,
            0 <= py < h,
            0 <= k < 4,
    ;
}

/// The bytes of canvas pixel `(px, py)` after executing `op`: the operation's colour where
/// the operation covers the pixel, the previous bytes elsewhere.
proof fn lemma_op_pixel(s: Seq<u8>, w: int, h: int, op: DrawOp, px: int, py: int, k: int)
    requires
        buffer_fits(s, w, h),
        0 <= px < w,
        0 <= py < h,
        0 <= k < 4,
    ensures
        apply_op(s, w, op)[pixel_offset(w, px, py) + k] == if op_covers(op, px, py) {
            channel(op_color(op), k)
        } else {
            s[pixel_offset(w, px, py) + k]
        },
{
    let i = pixel_offset(w, px, py) + k;
    lemma_pixel_bytes(i, w, px, py);
    assert(i < w * h * 4) by (nonlinear_arith)
        requires
            i == (py * w + px) * 4 + k,
            0 <= px < w,
            0 <= py < h,
            0 <= k < 4,
    ;
}

/// A single pixel at `(x, y)` paints that canvas pixel alone; every other pixel keeps its
/// bytes.
pub proof fn lemma_pixel_op_pixels(s: Seq<u8>, w: int, h: int, x: u32, y: u32, r: u8, g: u8, b: u8, a: u8, px: int, py: int, k: int)
    requires
        buffer_fits(s, w, h),
        0 <= px < w,
        0 <= py < h,
        0 <= k < 4,
    ensures
        apply_op(s, w, DrawOp::Pixel { x, y, r, g, b, a })[pixel_offset(w, px, py) + k] == if px == x && py == y {
            channel(Rgba { r, g, b, a }, k)
        } else {
            s[pixel_offset(w, px, py) + k]
        },
{
    lemma_op_pixel(s, w, h, DrawOp::Pixel { x, y, r, g, b, a }, px, py, k);
}

/// A horizontal line of `length` pixels from `(x, y)` paints exactly the canvas pixels
/// `(px, y)` with `x <= px < x + length`; every other pixel, on its row or elsewhere, keeps
/// its bytes.
pub proof fn lemma_hline_pixels(
    s: Seq<u8>,
    w: int,
    h: int,
    x: u32,
    y: u32,
    length: u32,
    r: u8,
    g: u8,
    b: u8,
    a: u8,
    px: int,
    py: int,
    k: int,
)
    requires
        buffer_fits(s, w, h),
        0 <= px < w,
        0 <= py < h,
        0 <= k < 4,
    ensures
        apply_op(s, w, DrawOp::HLine { x, y, length, r, g, b, a })[pixel_offset(w, px, py) + k] == if py == y && x
            <= px < x + length {
            channel(Rgba { r, g, b, a }, k)
        } else {
            s[pixel_offset(w, px, py) + k]
        },
{
    lemma_op_pixel(s, w, h, DrawOp::HLine { x, y, length, r, g, b, a }, px, py, k);
}

/// A vertical line of `length` pixels from `(x, y)` paints exactly the canvas pixels
/// `(x, py)` with `y <= py < y + length`; every other pixel keeps its bytes.
pub proof fn lemma_vline_pixels(
    s: Seq<u8>,
    w: int,
    h: int,
    x: u32,
    y: u32,
    length: u32,
    r: u8,
    g: u8,
    b: u8,
    a: u8,
    px: int,
    py: int,
    k: int,
)
    requires
        buffer_fits(s, w, h),
        0 <= px < w,
        0 <= py < h,
        0 <= k < 4,
    ensures
        apply_op(s, w, DrawOp::VLine { x, y, length, r, g, b, a })[pixel_offset(w, px, py) + k] == if px == x && y
            <= py < y + length {
            channel(Rgba { r, g, b, a }, k)
        } else {
            s[pixel_offset(w, px, py) + k]
        },
{
    lemma_op_pixel(s, w, h, DrawOp::VLine { x, y, length, r, g, b, a }, px, py, k);
}

/// A `width x height` rectangle at `(x, y)` paints exactly the canvas pixels with
/// `x <= px < x + width` and `y <= py < y + height`; every other pixel keeps its bytes.
pub proof fn lemma_rect_pixels(
    s: Seq<u8>,
    w: int,
    h: int,
    x: u32,
    y: u32,
    width: u32,
    height: u32,
    r: u8,
    g: u8,
    b: u8,
    a: u8,
    px: int,
    py: int,
    k: int,
)
    requires
        buffer_fits(s, w, h),
        0 <= px < w,
        0 <= py < h,
        0 <= k < 4,
    ensures
        apply_op(s, w, DrawOp::Rect { x, y, width, height, r, g, b, a })[pixel_offset(w, px, py) + k] == if x <= px
            < x + width && y <= py < y + height {
            channel(Rgba { r, g, b, a }, k)
        } else {
            s[pixel_offset(w, px, py) + k]
        },
{
    lemma_op_pixel(s, w, h, DrawOp::Rect { x, y, width, height, r, g, b, a }, px, py, k);
}

/// A filled circle paints exactly the canvas pixels within `radius` of its centre:
/// `(px - cx)^2 + (py - cy)^2 <= radius^2`; every other pixel keeps its bytes.
pub proof fn lemma_filled_circle_pixels(
    s: Seq<u8>,
    w: int,
    h: int,
    cx: u32,
    cy: u32,
    radius: u32,
    r: u8,
    g: u8,
    b: u8,
    a: u8,
    px: int,
    py: int,
    k: int,
)
    requires
        buffer_fits(s, w, h),
        0 <= px < w,
        0 <= py < h,
        0 <= k < 4,
        cx < 0x8000_0000,
        cy < 0x8000_0000,
    ensures
        apply_op(s, w, DrawOp::FilledCircle { cx, cy, radius, r, g, b, a })[pixel_offset(w, px, py) + k] == if (px
            - cx) * (px - cx) + (py - cy) * (py - cy) <= radius * radius {
            channel(Rgba { r, g, b, a }, k)
        } else {
            s[pixel_offset(w, px, py) + k]
        },
{
    lemma_op_pixel(s, w, h, DrawOp::FilledCircle { cx, cy, radius, r, g, b, a }, px, py, k);
}

/// Clearing sets every byte of the canvas to the matching channel of the clear colour.
pub proof fn lemma_clear_fills(s: Seq<u8>, w: int, r: u8, g: u8, b: u8, a: u8, i: int)
    requires
        0 <= i < s.len(),
    ensures
        apply_op(s, w, DrawOp::Clear(r, g, b, a))[i] == channel(Rgba { r, g, b, a }, i % 4),
{
}

/// A single pixel outside the canvas changes nothing.
pub proof fn lemma_pixel_outside_ignored(
    s: Seq<u8>,
    w: int,
    h: int,
    x: u32,
    y: u32,
    r: u8,
    g: u8,
    b: u8,
    a: u8,
)
    requires
        buffer_fits(s, w, h),
        w > 0,
        x >= w || y >= h,
    ensures
        apply_op(s, w, DrawOp::Pixel { x, y, r, g, b, a }) == s,
{
    let op = DrawOp::Pixel { x, y, r, g, b, a };
    assert forall|i: int| 0 <= i < s.len() implies apply_op(s, w, op)[i] == s[i] by {
        super::spec::lemma_byte_coords(i, w, h);
    }
    assert(apply_op(s, w, op) =~= s);
}

/// A circle outline passes through the four points at distance `radius` straight left,
/// right, above and below its centre.
pub proof fn lemma_circle_cardinal_points(cx: u32, cy: u32, radius: u32)
    requires
        radius <= i32::MAX,
    ensures
        ({
            let x = wrap_i32(cx);
            let y = wrap_i32(cy);
            let r = radius as int;
            &&& circle_covers(x, y, r, x + r, y)
            &&& circle_covers(x, y, r, x - r, y)
            &&& circle_covers(x, y, r, x, y + r)
            &&& circle_covers(x, y, r, x, y - r)
        }),
{
    let x = wrap_i32(cx);
    let y = wrap_i32(cy);
    let r = radius as int;
    assert(midpoint_state(r, 0).0 == r);
    assert(super::circle::midpoint_active(r, 0));
    assert(octant_point(x, y, midpoint_state(r, 0).0, 0, x + r, y));
    assert(octant_point(x, y, midpoint_state(r, 0).0, 0, x - r, y));
    assert(octant_point(x, y, midpoint_state(r, 0).0, 0, x, y + r));
    assert(octant_point(x, y, midpoint_state(r, 0).0, 0, x, y - r));
}

/// A filled circle always contains its centre.
pub proof fn lemma_disc_contains_center(cx: u32, cy: u32, radius: u32)
    ensures
        disc_covers(wrap_i32(cx), wrap_i32(cy), radius as int, wrap_i32(cx), wrap_i32(cy)),
{
    assert(0 * 0 + 0 * 0 <= (radius as int) * (radius as int)) by (nonlinear_arith);
}

/// A line passes through both of its end points.
pub proof fn lemma_line_endpoints(x1: u32, y1: u32, x2: u32, y2: u32)
    ensures
        line_covers(wrap_i32(x1), wrap_i32(y1), wrap_i32(x2), wrap_i32(y2), wrap_i32(x1), wrap_i32(y1)),
        line_covers(wrap_i32(x1), wrap_i32(y1), wrap_i32(x2), wrap_i32(y2), wrap_i32(x2), wrap_i32(y2)),
{
    let (a, b, c, d) = (wrap_i32(x1), wrap_i32(y1), wrap_i32(x2), wrap_i32(y2));
    assert(line_running(a, b, c, d, 0));
    assert(line_state(a, b, c, d, 0).0 == a);
    lemma_line_reaches_end(a, b, c, d, 0);
}

/// A line never leaves the box spanned by its end points.
pub proof fn lemma_line_in_bounding_box(x1: int, y1: int, x2: int, y2: int, px: int, py: int)
    requires
        line_covers(x1, y1, x2, y2, px, py),
    ensures
        (if x1 <= x2 { x1 <= px <= x2 } else { x2 <= px <= x1 }),
        (if y1 <= y2 { y1 <= py <= y2 } else { y2 <= py <= y1 }),
{
    let k = choose|k: nat|
        #![trigger line_state(x1, y1, x2, y2, k)]
        line_running(x1, y1, x2, y2, k) && line_state(x1, y1, x2, y2, k).0 == px
            && line_state(x1, y1, x2, y2, k).1 == py;
    super::line::lemma_line_invariant(x1, y1, x2, y2, k);
}

/// A filled circle stays inside the square of side `2 * radius + 1` around its centre.
pub proof fn lemma_disc_in_bounding_square(cx: int, cy: int, r: int, px: int, py: int)
    requires
        0 <= r,
        disc_covers(cx, cy, r, px, py),
    ensures
        cx - r <= px <= cx + r,
        cy - r <= py <= cy + r,
{
    assert(cx - r <= px <= cx + r && cy - r <= py <= cy + r) by (nonlinear_arith)
        requires
            0 <= r,
            (px - cx) * (px - cx) + (py - cy) * (py - cy) <= r * r,
    ;
}

/// Executing the same operation twice in a row gives what executing it once gives.
pub proof fn lemma_op_idempotent(s: Seq<u8>, w: int, op: DrawOp)
    ensures
        apply_op(apply_op(s, w, op), w, op) == apply_op(s, w, op),
{
    assert(apply_op(apply_op(s, w, op), w, op) =~= apply_op(s, w, op));
}

/// Two operations that paint with the same colour give the same buffer in either order.
pub proof fn lemma_same_color_ops_commute(s: Seq<u8>, w: int, a: DrawOp, b: DrawOp)
    requires
        op_color(a) == op_color(b),
    ensures
        apply_op(apply_op(s, w, a), w, b) == apply_op(apply_op(s, w, b), w, a),
{
    assert(apply_op(apply_op(s, w, a), w, b) =~= apply_op(apply_op(s, w, b), w, a));
}

/// Two operations that paint no common pixel give the same buffer in either order.
pub proof fn lemma_disjoint_ops_commute(s: Seq<u8>, w: int, a: DrawOp, b: DrawOp)
    requires
        forall|px: int, py: int| !(#[trigger] op_covers(a, px, py) && op_covers(b, px, py)),
    ensures
        apply_op(apply_op(s, w, a), w, b) == apply_op(apply_op(s, w, b), w, a),
{
    assert(apply_op(apply_op(s, w, a), w, b) =~= apply_op(apply_op(s, w, b), w, a));
}

/// A clear hides everything drawn before it: only the operations after the last clear matter.
pub proof fn lemma_clear_resets(s: Seq<u8>, t: Seq<u8>, w: int, ops: Seq<DrawOp>, r: u8, g: u8, b: u8, a: u8)
    requires
        s.len() == t.len(),
    ensures
        apply_op(apply_ops(s, w, ops), w, DrawOp::Clear(r, g, b, a)) == apply_op(t, w, DrawOp::Clear(r, g, b, a)),
{
    lemma_ops_keep_length(s, w, ops);
    assert(apply_op(apply_ops(s, w, ops), w, DrawOp::Clear(r, g, b, a)) =~= apply_op(t, w, DrawOp::Clear(r, g, b, a)));
}

/// A circle outline is symmetric: mirroring a plotted pixel across the vertical line, the
/// horizontal line or the diagonal through the centre gives a plotted pixel.
pub proof fn lemma_circle_symmetric(cx: int, cy: int, r: int, px: int, py: int)
    requires
        circle_covers(cx, cy, r, px, py),
    ensures
        circle_covers(cx, cy, r, 2 * cx - px, py),
        circle_covers(cx, cy, r, px, 2 * cy - py),
        circle_covers(cx, cy, r, cx + (py - cy), cy + (px - cx)),
{
    let k = choose|k: nat|
        #![trigger midpoint_state(r, k)]
        midpoint_active(r, k) && octant_point(cx, cy, midpoint_state(r, k).0, k as int, px, py);
    let x = midpoint_state(r, k).0;
    assert(octant_point(cx, cy, x, k as int, 2 * cx - px, py));
    assert(octant_point(cx, cy, x, k as int, px, 2 * cy - py));
    assert(octant_point(cx, cy, x, k as int, cx + (py - cy), cy + (px - cx)));
}

} // verus!
