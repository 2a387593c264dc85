//! Executable painting of pixel sets into a canvas buffer.

use vstd::prelude::*;
use super::spec::{Rgba, channel, paint, buffer_fits, lemma_paint_none, lemma_paint_union, lemma_paint_ext, lemma_pixel_bytes, lemma_byte_coords};

verus! {

/// The canvas dimensions admit a buffer whose byte count fits in `u32`.
pub open spec fn dims_ok(w: u32, h: u32) -> bool {
    w * h * 4 <= u32::MAX
}

/// Sets pixel `(x, y)`, which lies inside the canvas, to `c`.
pub fn put_pixel(pixels: &mut Vec<u8>, w: u32, h: u32, x: u32, y: u32, c: Rgba)
    requires
        dims_ok(w, h),
        buffer_fits(old(pixels)@, w as int, h as int),
        x < w,
        y < h,
    ensures
        final(pixels)@ == paint(old(pixels)@, w as int, |px: int, py: int| px == x && py == y, c),
{
    let ghost s = pixels@;
    proof {
        assert((y as int) * (w as int) + (x as int) < (w as int) * (h as int)) by (nonlinear_arith)
            requires
                x < w,
                y < h,
        ;
    }
    let base: usize = ((y as u64 * w as u64 + x as u64) * 4) as usize;
    pixels[base] = c.r;
    pixels[base + 1] = c.g;
    pixels[base + 2] = c.b;
    pixels[base + 3] = c.a;
    proof {
        let p = |px: int, py: int| px == x && py == y;
        assert forall|i: int| 0 <= i < s.len() implies #[trigger] pixels@[i] == paint(
            s,
            w as int,
            p,
            c,
        )[i] by {
            lemma_pixel_bytes(i, w as int, x as int, y as int);
        }
        assert(pixels@ =~= paint(s, w as int, p, c));
    }
}

/// Sets pixel `(px, py)` to `c` when it lies inside the canvas; points outside are ignored.
pub fn plot(pixels: &mut Vec<u8>, w: u32, h: u32, px: i128, py: i128, c: Rgba)
    requires
        dims_ok(w, h),
        buffer_fits(old(pixels)@, w as int, h as int),
    ensures
        final(pixels)@ == paint(old(pixels)@, w as int, |a: int, b: int| a == px && b == py, c),
{
    if 0 <= px && px < w as i128 && 0 <= py && py < h as i128 {
        put_pixel(pixels, w, h, px as u32, py as u32, c);
    } else {
        let ghost s = pixels@;
        proof {
            let p = |a: int, b: int| a == px && b == py;
            assert forall|i: int| 0 <= i < s.len() implies paint(s, w as int, p, c)[i] == s[i] by {
                lemma_byte_coords(i, w as int, h as int);
            }
            assert(paint(s, w as int, p, c) =~= s);
        }
    }
}

/// Paints the pixels of row `y` in columns `[x0, x1)`.
pub fn paint_row_span(pixels: &mut Vec<u8>, w: u32, h: u32, y: u32, x0: u32, x1: u32, c: Rgba)
    requires
        dims_ok(w, h),
        buffer_fits(old(pixels)@, w as int, h as int),
        y < h,
        x1 <= w,
    ensures
        final(pixels)@ == paint(
            old(pixels)@,
            w as int,
            |px: int, py: int| py == y && x0 <= px < x1,
            c,
        ),
{
    let ghost s = pixels@;
    let mut x = x0;
    if x0 >= x1 {
        proof {
            lemma_paint_none(s, w as int, |px: int, py: int| py == y && x0 <= px < x1, c);
        }
        return;
    }
    proof {
        lemma_paint_none(s, w as int, |px: int, py: int| py == y && x0 <= px < x0, c);
    }
    while x < x1
        invariant
            dims_ok(w, h),
            buffer_fits(s, w as int, h as int),
            y < h,
            x1 <= w,
            x0 <= x <= x1,
            pixels@ == paint(s, w as int, |px: int, py: int| py == y && x0 <= px < x, c),
        decreases x1 - x,
    {
        let ghost before = pixels@;
        put_pixel(pixels, w, h, x, y, c);
        proof {
            lemma_paint_union(
                s,
                w as int,
                |px: int, py: int| py == y && x0 <= px < x,
                |px: int, py: int| px == x && py == y,
                c,
            );
            lemma_paint_ext(
                s,
                w as int,
                h as int,
                |px: int, py: int| (py == y && x0 <= px < x) || (px == x && py == y),
                |px: int, py: int| py == y && x0 <= px < x + 1,
                c,
            );
        }
        x = x + 1;
    }
}

/// Paints the rectangle of rows `[y0, y1)` and columns `[x0, x1)`.
pub fn paint_block(
    pixels: &mut Vec<u8>,
    w: u32,
    h: u32,
    x0: u32,
    x1: u32,
    y0: u32,
    y1: u32,
    c: Rgba,
)
    requires
        dims_ok(w, h),
        buffer_fits(old(pixels)@, w as int, h as int),
        x1 <= w,
        y1 <= h,
    ensures
        final(pixels)@ == paint(
            old(pixels)@,
            w as int,
            |px: int, py: int| y0 <= py < y1 && x0 <= px < x1,
            c,
        ),
{
    let ghost s = pixels@;
    if y0 >= y1 || x0 >= x1 {
        proof {
            lemma_paint_none(s, w as int, |px: int, py: int| y0 <= py < y1 && x0 <= px < x1, c);
        }
        return;
    }
    proof {
        lemma_paint_none(s, w as int, |px: int, py: int| y0 <= py < y0 && x0 <= px < x1, c);
    }
    let mut y = y0;
    while y < y1
        invariant
            dims_ok(w, h),
            buffer_fits(s, w as int, h as int),
            x1 <= w,
            y1 <= h,
            y0 <= y <= y1,
            x0 < x1,
            pixels@ == paint(s, w as int, |px: int, py: int| y0 <= py < y && x0 <= px < x1, c),
        decreases y1 - y,
    {
        paint_row_span(pixels, w, h, y, x0, x1, c);
        proof {
            lemma_paint_union(
                s,
                w as int,
                |px: int, py: int| y0 <= py < y && x0 <= px < x1,
                |px: int, py: int| py == y && x0 <= px < x1,
                c,
            );
            lemma_paint_ext(
                s,
                w as int,
                h as int,
                |px: int, py: int| (y0 <= py < y && x0 <= px < x1) || (py == y && x0 <= px < x1),
                |px: int, py: int| y0 <= py < y + 1 && x0 <= px < x1,
                c,
            );
        }
        y = y + 1;
    }
}

/// Sets every pixel of the canvas to `c`.
pub fn fill_all(pixels: &mut Vec<u8>, w: u32, h: u32, c: Rgba)
    requires
        dims_ok(w, h),
        buffer_fits(old(pixels)@, w as int, h as int),
    ensures
        final(pixels)@ == paint(old(pixels)@, w as int, |px: int, py: int| true, c),
{
    let ghost s = pixels@;
    let n: usize = pixels.len();
    let mut i: usize = 0;
    while i < n
        invariant
            n == s.len(),
            pixels@.len() == n,
            i <= n,
            forall|j: int| 0 <= j < i ==> #[trigger] pixels@[j] == channel(c, j % 4),
            forall|j: int| i <= j < n ==> #[trigger] pixels@[j] == s[j],
        decreases n - i,
    {
        let k = i % 4;
        let v = if k == 0 {
            c.r
        } else if k == 1 {
            c.g
        } else if k == 2 {
            c.b
        } else {
            c.a
        };
        pixels[i] = v;
        i = i + 1;
    }
    assert(pixels@ =~= paint(s, w as int, |px: int, py: int| true, c));
}

} // verus!
