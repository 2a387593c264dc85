//! Mathematical model of the canvas pixel buffer.
//!
//! A canvas of `w` x `h` pixels is a byte sequence of length `w * h * 4`; byte `i`
//! is channel `i % 4` (red, green, blue, alpha) of the pixel at column
//! `(i / 4) % w` and row `(i / 4) / w`.  Every drawing operation paints a set of
//! pixel coordinates with a single colour; `paint` states that effect.

use vstd::prelude::*;
use vstd::arithmetic::div_mod::{lemma_fundamental_div_mod, lemma_fundamental_div_mod_converse};
use vstd::arithmetic::mul::{lemma_mul_inequality, lemma_mul_strict_inequality};

verus! {

/// An RGBA colour.
#[derive(Debug, Clone, Copy, PartialEq, Eq, Structural)]
pub struct Rgba {
    pub r: u8,
    pub g: u8,
    pub b: u8,
    pub a: u8,
}

/// Channel `k` (0 = red, 1 = green, 2 = blue, 3 = alpha) of a colour.
pub open spec fn channel(c: Rgba, k: int) -> u8 {
    if k == 0 {
        c.r
    } else if k == 1 {
        c.g
    } else if k == 2 {
        c.b
    } else {
        c.a
    }
}

/// Column of the pixel that byte `i` belongs to.
pub open spec fn pixel_x(i: int, w: int) -> int {
    (i / 4) % w
}

/// Row of the pixel that byte `i` belongs to.
pub open spec fn pixel_y(i: int, w: int) -> int {
    (i / 4) / w
}

/// Byte offset of the first channel of pixel `(x, y)`.
pub open spec fn pixel_offset(w: int, x: int, y: int) -> int {
    (y * w + x) * 4
}

/// The buffer `s` with every pixel whose coordinates satisfy `covered` set to `c`.
pub open spec fn paint(s: Seq<u8>, w: int, covered: spec_fn(int, int) -> bool, c: Rgba) -> Seq<u8> {
    Seq::new(
        s.len(),
        |i: int|
            if covered(pixel_x(i, w), pixel_y(i, w)) {
                channel(c, i % 4)
            } else {
                s[i]
            },
    )
}

/// `s` is a well-formed buffer for a `w` x `h` canvas.
pub open spec fn buffer_fits(s: Seq<u8>, w: int, h: int) -> bool {
    &&& w >= 0
    &&& h >= 0
    &&& s.len() == w * h * 4
}

/// The 32-bit two's complement reading of an unsigned 32-bit value.
pub open spec fn wrap_i32(v: u32) -> int {
    if v <= i32::MAX {
        v as int
    } else {
        v - 0x1_0000_0000
    }
}

/// A canvas of width zero has an empty buffer, which `paint` leaves unchanged.
pub proof fn lemma_zero_width(s: Seq<u8>, w: int, h: int, p: spec_fn(int, int) -> bool, c: Rgba)
    requires
        buffer_fits(s, w, h),
        w == 0,
    ensures
        s.len() == 0,
        paint(s, w, p, c) == s,
{
    assert(w * h * 4 == 0) by (nonlinear_arith)
        requires
            w == 0,
    ;
    assert(paint(s, w, p, c) =~= s);
}

/// Every byte of a `w`-wide buffer lies at a column in `[0, w)`, a row below `h`, and is
/// recovered from its pixel coordinates and channel.
pub proof fn lemma_byte_coords(i: int, w: int, h: int)
    requires
        w > 0,
        h >= 0,
        0 <= i < w * h * 4,
    ensures
        0 <= pixel_x(i, w) < w,
        0 <= pixel_y(i, w) < h,
        0 <= i % 4 < 4,
        i == pixel_offset(w, pixel_x(i, w), pixel_y(i, w)) + i % 4,
{
    let q = i / 4;
    lemma_fundamental_div_mod(i, 4);
    lemma_fundamental_div_mod(q, w);
    assert(0 <= q < w * h) by {
        assert(i == 4 * q + i % 4);
    }
    let y = q / w;
    assert(y < h) by {
        if y >= h {
            lemma_mul_inequality(h, y, w);
            assert(w * y >= w * h) by (nonlinear_arith)
                requires h * w <= y * w;
        }
    }
    assert(0 <= y) by {
        vstd::arithmetic::div_mod::lemma_div_pos_is_pos(q, w);
    }
    assert(i == (y * w + q % w) * 4 + i % 4) by (nonlinear_arith)
        requires
            i == 4 * q + i % 4,
            q == w * y + q % w,
    ;
}

/// A byte lies in pixel `(x, y)` exactly when it is one of the four bytes at that pixel's
/// offset.
pub proof fn lemma_pixel_bytes(i: int, w: int, x: int, y: int)
    requires
        w > 0,
        0 <= x < w,
        0 <= y,
        0 <= i,
    ensures
        (pixel_x(i, w) == x && pixel_y(i, w) == y) <==> (pixel_offset(w, x, y) <= i
            < pixel_offset(w, x, y) + 4),
        pixel_offset(w, x, y) <= i < pixel_offset(w, x, y) + 4 ==> i % 4 == i - pixel_offset(
            w,
            x,
            y,
        ),
{
    let q = i / 4;
    lemma_fundamental_div_mod(i, 4);
    lemma_fundamental_div_mod(q, w);
    assert(0 <= q) by {
        vstd::arithmetic::div_mod::lemma_div_pos_is_pos(i, 4);
    }
    assert(0 <= q % w < w) by {
        vstd::arithmetic::div_mod::lemma_mod_bound(q, w);
    }
    let o = pixel_offset(w, x, y);
    if o <= i < o + 4 {
        lemma_fundamental_div_mod_converse(i, 4, y * w + x, i - o);
        lemma_fundamental_div_mod_converse(q, w, y, x);
    }
    if pixel_x(i, w) == x && pixel_y(i, w) == y {
        assert(q == y * w + x) by (nonlinear_arith)
            requires
                q == w * (q / w) + q % w,
                q / w == y,
                q % w == x,
        ;
    }
}

/// Only the coordinates inside the canvas matter to `paint`.
pub proof fn lemma_paint_ext(
    s: Seq<u8>,
    w: int,
    h: int,
    p: spec_fn(int, int) -> bool,
    q: spec_fn(int, int) -> bool,
    c: Rgba,
)
    requires
        w > 0,
        buffer_fits(s, w, h),
        forall|x: int, y: int| 0 <= x < w && 0 <= y < h ==> (#[trigger] p(x, y) <==> q(x, y)),
    ensures
        paint(s, w, p, c) == paint(s, w, q, c),
{
    assert forall|i: int| 0 <= i < s.len() implies paint(s, w, p, c)[i] == paint(s, w, q, c)[i] by {
        lemma_byte_coords(i, w, h);
    }
    assert(paint(s, w, p, c) =~= paint(s, w, q, c));
}

/// Painting twice with the same colour paints the union.
pub proof fn lemma_paint_union(
    s: Seq<u8>,
    w: int,
    p: spec_fn(int, int) -> bool,
    q: spec_fn(int, int) -> bool,
    c: Rgba,
)
    ensures
        paint(paint(s, w, p, c), w, q, c) == paint(s, w, |x: int, y: int| p(x, y) || q(x, y), c),
{
    assert(paint(paint(s, w, p, c), w, q, c) =~= paint(
        s,
        w,
        |x: int, y: int| p(x, y) || q(x, y),
        c,
    ));
}

/// Painting nothing leaves the buffer unchanged.
pub proof fn lemma_paint_none(s: Seq<u8>, w: int, p: spec_fn(int, int) -> bool, c: Rgba)
    requires
        forall|x: int, y: int| !#[trigger] p(x, y),
    ensures
        paint(s, w, p, c) == s,
{
    assert(paint(s, w, p, c) =~= s);
}

} // verus!
