//! Circle outlines (midpoint algorithm) and filled discs.

use vstd::prelude::*;
use super::spec::{Rgba, paint, buffer_fits, lemma_paint_union, lemma_paint_ext, lemma_zero_width};
use super::raster::{dims_ok, plot};

verus! {

/// State `(x, decision)` of the midpoint circle walk of radius `r` once its row offset has
/// advanced to `k`.
pub open spec fn midpoint_state(r: int, k: nat) -> (int, int)
    decreases k,
{
    if k == 0 {
        (r, 1 - r)
    } else {
        let prev = midpoint_state(r, (k - 1) as nat);
        let x = prev.0;
        let p = prev.1;
        let y = k as int;
        if p <= 0 {
            (x, p + 2 * y + 1)
        } else {
            (x - 1, p + 2 * (y - (x - 1)) + 1)
        }
    }
}

/// The walk is still running at step `k`: every step up to `k` had `x >= y`.
pub open spec fn midpoint_active(r: int, k: nat) -> bool {
    forall|j: nat| j <= k ==> #[trigger] midpoint_state(r, j).0 >= j
}

/// `(px, py)` is one of the eight mirror images of offset `(x, y)` around `(cx, cy)`.
pub open spec fn octant_point(cx: int, cy: int, x: int, y: int, px: int, py: int) -> bool {
    ||| (px == cx + x && py == cy + y)
    ||| (px == cx - x && py == cy + y)
    ||| (px == cx + x && py == cy - y)
    ||| (px == cx - x && py == cy - y)
    ||| (px == cx + y && py == cy + x)
    ||| (px == cx - y && py == cy + x)
    ||| (px == cx + y && py == cy - x)
    ||| (px == cx - y && py == cy - x)
}

/// Pixels plotted by the midpoint circle walk of radius `r` around `(cx, cy)`.
pub open spec fn circle_covers(cx: int, cy: int, r: int, px: int, py: int) -> bool {
    exists|k: nat|
        #![trigger midpoint_state(r, k)]
        midpoint_active(r, k) && octant_point(cx, cy, midpoint_state(r, k).0, k as int, px, py)
}

/// Pixels plotted by the steps of the walk before `n`.
pub open spec fn circle_prefix(cx: int, cy: int, r: int, n: nat, px: int, py: int) -> bool {
    exists|k: nat|
        #![trigger midpoint_state(r, k)]
        k < n && octant_point(cx, cy, midpoint_state(r, k).0, k as int, px, py)
}

/// Pixels of the disc of radius `r` around `(cx, cy)`.
pub open spec fn disc_covers(cx: int, cy: int, r: int, px: int, py: int) -> bool {
    (px - cx) * (px - cx) + (py - cy) * (py - cy) <= r * r
}

/// The decision value of the walk is `x^2 - x + y^2 + 2y + 1 - r^2`.
proof fn lemma_midpoint_decision(r: int, k: nat)
    ensures
        midpoint_state(r, k).1 == midpoint_state(r, k).0 * midpoint_state(r, k).0
            - midpoint_state(r, k).0 + k * k + 2 * k + 1 - r * r,
    decreases k,
{
    if k == 0 {
        assert(k * k == 0);
    } else {
        lemma_midpoint_decision(r, (k - 1) as nat);
        let x = midpoint_state(r, (k - 1) as nat).0;
        let p = midpoint_state(r, (k - 1) as nat).1;
        let kk = (k - 1) as int;
        let ki = k as int;
        assert(p == x * x - x + kk * kk + 2 * kk + 1 - r * r);
        if p <= 0 {
            assert(midpoint_state(r, k) == (x, p + 2 * ki + 1));
            assert(p + 2 * ki + 1 == x * x - x + ki * ki + 2 * ki + 1 - r * r) by (nonlinear_arith)
                requires
                    p == x * x - x + kk * kk + 2 * kk + 1 - r * r,
                    kk == ki - 1,
            ;
        } else {
            assert(midpoint_state(r, k) == (x - 1, p + 2 * (ki - (x - 1)) + 1));
            assert(p + 2 * (ki - (x - 1)) + 1 == (x - 1) * (x - 1) - (x - 1) + ki * ki + 2 * ki + 1
                - r * r) by (nonlinear_arith)
                requires
                    p == x * x - x + kk * kk + 2 * kk + 1 - r * r,
                    kk == ki - 1,
            ;
        }
        assert(ki * ki == k * k);
    }
}

/// Every point `(x, y)` that the walk plots in its first octant is the pixel of row `y`
/// nearest the circle: `(x - 1/2)^2 + y^2 <= r^2 + 1/4 < (x + 1/2)^2 + y^2`, written over the
/// integers as `x^2 - x + y^2 <= r^2 < x^2 + x + y^2` (which one `x` alone meets, by
/// `lemma_nearest_pixel_unique`).
pub proof fn lemma_midpoint_nearest_pixel(r: int, k: nat)
    requires
        r >= 1,
        midpoint_active(r, k),
    ensures
        ({
            let x = midpoint_state(r, k).0;
            &&& x >= k
            &&& x * x - x + k * k <= r * r
            &&& r * r < x * x + x + k * k
        }),
    decreases k,
{
    if k == 0 {
        assert(r * r - r + 0 * 0 <= r * r < r * r + r + 0 * 0) by (nonlinear_arith)
            requires
                r >= 1,
        ;
    } else {
        let j = (k - 1) as nat;
        assert(midpoint_active(r, j));
        lemma_midpoint_nearest_pixel(r, j);
        lemma_midpoint_decision(r, j);
        let x0 = midpoint_state(r, j).0;
        let p = midpoint_state(r, j).1;
        let ki = k as int;
        let kj = j as int;
        assert(midpoint_state(r, k).0 >= k);
        assert(p == x0 * x0 - x0 + ki * ki - r * r) by (nonlinear_arith)
            requires
                p == x0 * x0 - x0 + kj * kj + 2 * kj + 1 - r * r,
                kj == ki - 1,
        ;
        assert(kj * kj <= ki * ki) by (nonlinear_arith)
            requires
                kj == ki - 1,
                ki >= 1,
        ;
        if p <= 0 {
            assert(midpoint_state(r, k).0 == x0);
        } else {
            assert(midpoint_state(r, k).0 == x0 - 1);
            let x = x0 - 1;
            assert(x * x + x + ki * ki == x0 * x0 - x0 + ki * ki) by (nonlinear_arith)
                requires
                    x == x0 - 1,
            ;
            assert(x * x - x + ki * ki <= r * r) by (nonlinear_arith)
                requires
                    x == x0 - 1,
                    x >= ki,
                    kj == ki - 1,
                    x0 * x0 - x0 + kj * kj <= r * r,
            ;
        }
    }
}

/// At most one column `x >= 0` of row `y` lies within half a pixel of the circle of radius `r`.
pub proof fn lemma_nearest_pixel_unique(r: int, y: int, x1: int, x2: int)
    requires
        x1 >= 0,
        x2 >= 0,
        x1 * x1 - x1 + y * y <= r * r < x1 * x1 + x1 + y * y,
        x2 * x2 - x2 + y * y <= r * r < x2 * x2 + x2 + y * y,
    ensures
        x1 == x2,
{
    if x1 < x2 {
        assert(x1 * x1 + x1 <= x2 * x2 - x2) by (nonlinear_arith)
            requires
                0 <= x1 < x2,
        ;
    } else if x2 < x1 {
        assert(x2 * x2 + x2 <= x1 * x1 - x1) by (nonlinear_arith)
            requires
                0 <= x2 < x1,
        ;
    }
}

/// Plots the eight mirror images of `(x, y)` around `(cx, cy)`.
fn plot_octants(
    pixels: &mut Vec<u8>,
    w: u32,
    h: u32,
    cx: i128,
    cy: i128,
    x: i128,
    y: i128,
    c: Rgba,
)
    requires
        dims_ok(w, h),
        buffer_fits(old(pixels)@, w as int, h as int),
        -0x1_0000_0000 <= cx <= 0x1_0000_0000,
        -0x1_0000_0000 <= cy <= 0x1_0000_0000,
        -0x1_0000_0000 <= x <= 0x1_0000_0000,
        -0x1_0000_0000 <= y <= 0x1_0000_0000,
    ensures
        final(pixels)@ == paint(
            old(pixels)@,
            w as int,
            |a: int, b: int| octant_point(cx as int, cy as int, x as int, y as int, a, b),
            c,
        ),
{
    let ghost s = pixels@;
    let ghost wi = w as int;
    plot(pixels, w, h, cx + x, cy + y, c);
    plot(pixels, w, h, cx - x, cy + y, c);
    proof {
        lemma_paint_union(s, wi, |a: int, b: int| a == cx + x && b == cy + y, |a: int, b: int| a == cx - x && b == cy + y, c);
    }
    plot(pixels, w, h, cx + x, cy - y, c);
    proof {
        lemma_paint_union(s, wi, |a: int, b: int| (a == cx + x && b == cy + y) || (a == cx - x && b == cy + y), |a: int, b: int| a == cx + x && b == cy - y, c);
    }
    plot(pixels, w, h, cx - x, cy - y, c);
    proof {
        lemma_paint_union(s, wi, |a: int, b: int| ((a == cx + x && b == cy + y) || (a == cx - x && b == cy + y)) || (a == cx + x && b == cy - y), |a: int, b: int| a == cx - x && b == cy - y, c);
    }
    plot(pixels, w, h, cx + y, cy + x, c);
    proof {
        lemma_paint_union(s, wi, |a: int, b: int| (((a == cx + x && b == cy + y) || (a == cx - x && b == cy + y)) || (a == cx + x && b == cy - y)) || (a == cx - x && b == cy - y), |a: int, b: int| a == cx + y && b == cy + x, c);
    }
    plot(pixels, w, h, cx - y, cy + x, c);
    proof {
        lemma_paint_union(s, wi, |a: int, b: int| ((((a == cx + x && b == cy + y) || (a == cx - x && b == cy + y)) || (a == cx + x && b == cy - y)) || (a == cx - x && b == cy - y)) || (a == cx + y && b == cy + x), |a: int, b: int| a == cx - y && b == cy + x, c);
    }
    plot(pixels, w, h, cx + y, cy - x, c);
    proof {
        lemma_paint_union(s, wi, |a: int, b: int| (((((a == cx + x && b == cy + y) || (a == cx - x && b == cy + y)) || (a == cx + x && b == cy - y)) || (a == cx - x && b == cy - y)) || (a == cx + y && b == cy + x)) || (a == cx - y && b == cy + x), |a: int, b: int| a == cx + y && b == cy - x, c);
    }
    plot(pixels, w, h, cx - y, cy - x, c);
    proof {
        lemma_paint_union(s, wi, |a: int, b: int| ((((((a == cx + x && b == cy + y) || (a == cx - x && b == cy + y)) || (a == cx + x && b == cy - y)) || (a == cx - x && b == cy - y)) || (a == cx + y && b == cy + x)) || (a == cx - y && b == cy + x)) || (a == cx + y && b == cy - x), |a: int, b: int| a == cx - y && b == cy - x, c);
        let acc = |a: int, b: int| (((((((a == cx + x && b == cy + y) || (a == cx - x && b == cy + y)) || (a == cx + x && b == cy - y)) || (a == cx - x && b == cy - y)) || (a == cx + y && b == cy + x)) || (a == cx - y && b == cy + x)) || (a == cx + y && b == cy - x)) || (a == cx - y && b == cy - x);
        let target = |a: int, b: int| octant_point(cx as int, cy as int, x as int, y as int, a, b);
        assert(acc =~= target);
    }
}

/// The 32-bit two's complement reading of `v`, widened.
pub fn wrap_i32_exec(v: u32) -> (r: i128)
    ensures
        r == super::spec::wrap_i32(v),
{
    if v <= 0x7fff_ffff {
        v as i128
    } else {
        v as i128 - 0x1_0000_0000
    }
}

/// Draws the outline of a circle with the midpoint algorithm.
pub fn draw_circle(
    pixels: &mut Vec<u8>,
    w: u32,
    h: u32,
    cx: i128,
    cy: i128,
    r: i128,
    c: Rgba,
)
    requires
        dims_ok(w, h),
        buffer_fits(old(pixels)@, w as int, h as int),
        -0x8000_0000 <= cx < 0x8000_0000,
        -0x8000_0000 <= cy < 0x8000_0000,
        -0x8000_0000 <= r < 0x8000_0000,
    ensures
        final(pixels)@ == paint(
            old(pixels)@,
            w as int,
            |a: int, b: int| circle_covers(cx as int, cy as int, r as int, a, b),
            c,
        ),
{
    let ghost s = pixels@;
    let ghost ri = r as int;
    let mut x: i128 = r;
    let mut y: i128 = 0;
    let mut p: i128 = 1 - r;
    proof {
        assert(paint(s, w as int, |a: int, b: int| circle_prefix(cx as int, cy as int, ri, 0, a, b), c) =~= s);
    }
    while x >= y
        invariant
            dims_ok(w, h),
            buffer_fits(s, w as int, h as int),
            -0x8000_0000 <= cx < 0x8000_0000,
            -0x8000_0000 <= cy < 0x8000_0000,
            -0x8000_0000 <= r < 0x8000_0000,
            ri == r,
            0 <= y,
            -0x8000_0001 <= x <= r,
            (x as int, p as int) == midpoint_state(ri, y as nat),
            forall|j: nat| j < y ==> #[trigger] midpoint_state(ri, j).0 >= j,
            pixels@ == paint(s, w as int, |a: int, b: int| circle_prefix(cx as int, cy as int, ri, y as nat, a, b), c),
        decreases x - y + 2,
    {
        let ghost before = pixels@;
        proof {
            lemma_midpoint_decision(ri, y as nat);
            assert(0 <= x * x <= ri * ri) by (nonlinear_arith)
                requires
                    0 <= x <= ri,
            ;
            assert(0 <= y * y <= ri * ri) by (nonlinear_arith)
                requires
                    0 <= y <= ri,
            ;
            assert(ri * ri < 0x4000_0000_0000_0000) by (nonlinear_arith)
                requires
                    0 <= ri < 0x8000_0000,
            ;
        }
        plot_octants(pixels, w, h, cx, cy, x, y, c);
        proof {
            lemma_paint_union(
                s,
                w as int,
                |a: int, b: int| circle_prefix(cx as int, cy as int, ri, y as nat, a, b),
                |a: int, b: int| octant_point(cx as int, cy as int, x as int, y as int, a, b),
                c,
            );
            let u = |a: int, b: int| circle_prefix(cx as int, cy as int, ri, y as nat, a, b) || octant_point(cx as int, cy as int, x as int, y as int, a, b);
            let v = |a: int, b: int| circle_prefix(cx as int, cy as int, ri, (y + 1) as nat, a, b);
            assert forall|a: int, b: int| #[trigger] u(a, b) == v(a, b) by {
                if octant_point(cx as int, cy as int, x as int, y as int, a, b) {
                    assert(midpoint_state(ri, y as nat).0 == x);
                }
                if v(a, b) {
                    let k = choose|k: nat| #![trigger midpoint_state(ri, k)] k < y + 1 && octant_point(cx as int, cy as int, midpoint_state(ri, k).0, k as int, a, b);
                    if k < y {
                        assert(circle_prefix(cx as int, cy as int, ri, y as nat, a, b));
                    }
                }
            }
            assert(u =~= v);
            assert(midpoint_state(ri, y as nat).0 >= y);
        }
        y = y + 1;
        if p <= 0 {
            p = p + 2 * y + 1;
        } else {
            x = x - 1;
            p = p + 2 * (y - x) + 1;
        }
        proof {
            assert(midpoint_state(ri, y as nat) == (x as int, p as int));
            assert forall|j: nat| j < y implies #[trigger] midpoint_state(ri, j).0 >= j by {
                if j == y - 1 {
                } else {
                    assert(j < y - 1);
                }
            }
        }
    }
    proof {
        let u = |a: int, b: int| circle_prefix(cx as int, cy as int, ri, y as nat, a, b);
        let v = |a: int, b: int| circle_covers(cx as int, cy as int, ri, a, b);
        assert forall|a: int, b: int| #[trigger] u(a, b) == v(a, b) by {
            if u(a, b) {
                let k = choose|k: nat| #![trigger midpoint_state(ri, k)] k < y && octant_point(cx as int, cy as int, midpoint_state(ri, k).0, k as int, a, b);
                assert(midpoint_active(ri, k));
            }
            if v(a, b) {
                let k = choose|k: nat| #![trigger midpoint_state(ri, k)] midpoint_active(ri, k) && octant_point(cx as int, cy as int, midpoint_state(ri, k).0, k as int, a, b);
                if k >= y {
                    assert(midpoint_state(ri, y as nat).0 >= y);
                }
            }
        }
        assert(u =~= v);
    }
}

} // verus!

verus! {

/// An offset farther than `r` from the centre squares to more than `r * r`.
proof fn lemma_outside_square(d: int, r: int)
    requires
        0 <= r,
        d > r || d < -r,
    ensures
        d * d > r * r,
{
    assert(d * d > r * r) by (nonlinear_arith)
        requires
            0 <= r,
            d > r || d < -r,
    ;
}

/// Paints the pixels of row `y` that lie in the disc.
fn paint_disc_row(
    pixels: &mut Vec<u8>,
    w: u32,
    h: u32,
    y: u32,
    cx: i128,
    cy: i128,
    r: i128,
    c: Rgba,
)
    requires
        dims_ok(w, h),
        buffer_fits(old(pixels)@, w as int, h as int),
        y < h,
        -0x8000_0000 <= cx < 0x8000_0000,
        -0x8000_0000 <= cy < 0x8000_0000,
        0 <= r <= 0xffff_ffff,
    ensures
        final(pixels)@ == paint(
            old(pixels)@,
            w as int,
            |a: int, b: int| b == y && disc_covers(cx as int, cy as int, r as int, a, b),
            c,
        ),
{
    let ghost s = pixels@;
    let lo: i128 = if cx - r > 0 { cx - r } else { 0 };
    let hi: i128 = if cx + r + 1 < w as i128 { cx + r + 1 } else { w as i128 };
    let mut x: i128 = lo;
    let dy: i128 = y as i128 - cy;
    proof {
        assert forall|a: int, b: int| 0 <= a < w && 0 <= b < h && b == y && a < lo implies !disc_covers(cx as int, cy as int, r as int, a, b) by {
            lemma_outside_square(a - cx, r as int);
            assert((b - cy) * (b - cy) >= 0) by (nonlinear_arith);
        }
        if w > 0 {
            lemma_paint_ext(
                s,
                w as int,
                h as int,
                |a: int, b: int| b == y && disc_covers(cx as int, cy as int, r as int, a, b) && a < lo,
                |a: int, b: int| false,
                c,
            );
        }
        assert(paint(s, w as int, |a: int, b: int| false, c) =~= s);
        if w == 0 {
            lemma_zero_width(s, w as int, h as int, |a: int, b: int| b == y && disc_covers(cx as int, cy as int, r as int, a, b) && a < lo, c);
        }
    }
    while x < hi
        invariant
            dims_ok(w, h),
            buffer_fits(s, w as int, h as int),
            y < h,
            -0x8000_0000 <= cx < 0x8000_0000,
            -0x8000_0000 <= cy < 0x8000_0000,
            0 <= r <= 0xffff_ffff,
            dy == y - cy,
            0 <= lo <= x,
            hi <= w,
            x <= hi || x == lo,
            pixels@ == paint(s, w as int, |a: int, b: int| b == y && disc_covers(cx as int, cy as int, r as int, a, b) && a < x, c),
        decreases hi - x,
    {
        let dx: i128 = x - cx;
        proof {
            assert(0 <= dx * dx <= 0x10_0000_0000_0000_0000) by (nonlinear_arith)
                requires
                    -0x2_0000_0000 <= dx <= 0x2_0000_0000,
            ;
            assert(0 <= dy * dy <= 0x10_0000_0000_0000_0000) by (nonlinear_arith)
                requires
                    -0x2_0000_0000 <= dy <= 0x2_0000_0000,
            ;
            assert(0 <= r * r <= 0x10_0000_0000_0000_0000) by (nonlinear_arith)
                requires
                    0 <= r <= 0xffff_ffff,
            ;
        }
        if dx * dx + dy * dy <= r * r {
            super::raster::put_pixel(pixels, w, h, x as u32, y, c);
            proof {
                lemma_paint_union(
                    s,
                    w as int,
                    |a: int, b: int| b == y && disc_covers(cx as int, cy as int, r as int, a, b) && a < x,
                    |a: int, b: int| a == x && b == y,
                    c,
                );
            }
        }
        proof {
            lemma_paint_ext(
                s,
                w as int,
                h as int,
                |a: int, b: int| (b == y && disc_covers(cx as int, cy as int, r as int, a, b) && a < x) || (a == x && b == y && disc_covers(cx as int, cy as int, r as int, a, b)),
                |a: int, b: int| b == y && disc_covers(cx as int, cy as int, r as int, a, b) && a < x + 1,
                c,
            );
            if !(dx * dx + dy * dy <= r * r) {
                assert(paint(s, w as int, |a: int, b: int| (b == y && disc_covers(cx as int, cy as int, r as int, a, b) && a < x) || (a == x && b == y && disc_covers(cx as int, cy as int, r as int, a, b)), c) =~= paint(s, w as int, |a: int, b: int| b == y && disc_covers(cx as int, cy as int, r as int, a, b) && a < x, c));
            } else {
                assert(paint(s, w as int, |a: int, b: int| (b == y && disc_covers(cx as int, cy as int, r as int, a, b) && a < x) || (a == x && b == y && disc_covers(cx as int, cy as int, r as int, a, b)), c) =~= paint(s, w as int, |a: int, b: int| (b == y && disc_covers(cx as int, cy as int, r as int, a, b) && a < x) || (a == x && b == y), c));
            }
        }
        x = x + 1;
    }
    proof {
        if w > 0 {
            assert forall|a: int, b: int| 0 <= a < w && 0 <= b < h && b == y && a >= x implies !disc_covers(cx as int, cy as int, r as int, a, b) by {
                lemma_outside_square(a - cx, r as int);
                assert((b - cy) * (b - cy) >= 0) by (nonlinear_arith);
            }
            lemma_paint_ext(
                s,
                w as int,
                h as int,
                |a: int, b: int| b == y && disc_covers(cx as int, cy as int, r as int, a, b) && a < x,
                |a: int, b: int| b == y && disc_covers(cx as int, cy as int, r as int, a, b),
                c,
            );
        } else {
            lemma_zero_width(s, w as int, h as int, |a: int, b: int| b == y && disc_covers(cx as int, cy as int, r as int, a, b), c);
            lemma_zero_width(s, w as int, h as int, |a: int, b: int| b == y && disc_covers(cx as int, cy as int, r as int, a, b) && a < x, c);
        }
    }
}

/// Paints every pixel of the disc of radius `r` around `(cx, cy)`.
pub fn draw_disc(
    pixels: &mut Vec<u8>,
    w: u32,
    h: u32,
    cx: i128,
    cy: i128,
    r: i128,
    c: Rgba,
)
    requires
        dims_ok(w, h),
        buffer_fits(old(pixels)@, w as int, h as int),
        -0x8000_0000 <= cx < 0x8000_0000,
        -0x8000_0000 <= cy < 0x8000_0000,
        0 <= r <= 0xffff_ffff,
    ensures
        final(pixels)@ == paint(
            old(pixels)@,
            w as int,
            |a: int, b: int| disc_covers(cx as int, cy as int, r as int, a, b),
            c,
        ),
{
    let ghost s = pixels@;
    let lo: i128 = if cy - r > 0 { cy - r } else { 0 };
    let hi: i128 = if cy + r + 1 < h as i128 { cy + r + 1 } else { h as i128 };
    let mut y: i128 = lo;
    proof {
        assert forall|a: int, b: int| 0 <= a < w && 0 <= b < h && b < lo implies !disc_covers(cx as int, cy as int, r as int, a, b) by {
            lemma_outside_square(b - cy, r as int);
            assert((a - cx) * (a - cx) >= 0) by (nonlinear_arith);
        }
        if w > 0 {
            lemma_paint_ext(
                s,
                w as int,
                h as int,
                |a: int, b: int| disc_covers(cx as int, cy as int, r as int, a, b) && b < lo,
                |a: int, b: int| false,
                c,
            );
        }
        if w == 0 {
            lemma_zero_width(s, w as int, h as int, |a: int, b: int| disc_covers(cx as int, cy as int, r as int, a, b) && b < lo, c);
        } else {
            assert(paint(s, w as int, |a: int, b: int| false, c) =~= s);
        }
    }
    while y < hi
        invariant
            dims_ok(w, h),
            buffer_fits(s, w as int, h as int),
            -0x8000_0000 <= cx < 0x8000_0000,
            -0x8000_0000 <= cy < 0x8000_0000,
            0 <= r <= 0xffff_ffff,
            0 <= lo <= y,
            hi <= h,
            y <= hi || y == lo,
            pixels@ == paint(s, w as int, |a: int, b: int| disc_covers(cx as int, cy as int, r as int, a, b) && b < y, c),
        decreases hi - y,
    {
        paint_disc_row(pixels, w, h, y as u32, cx, cy, r, c);
        proof {
            lemma_paint_union(
                s,
                w as int,
                |a: int, b: int| disc_covers(cx as int, cy as int, r as int, a, b) && b < y,
                |a: int, b: int| b == y && disc_covers(cx as int, cy as int, r as int, a, b),
                c,
            );
            assert(paint(s, w as int, |a: int, b: int| (disc_covers(cx as int, cy as int, r as int, a, b) && b < y) || (b == y && disc_covers(cx as int, cy as int, r as int, a, b)), c) =~= paint(s, w as int, |a: int, b: int| disc_covers(cx as int, cy as int, r as int, a, b) && b < y + 1, c));
        }
        y = y + 1;
    }
    proof {
        assert forall|a: int, b: int| 0 <= a < w && 0 <= b < h && b >= y implies !disc_covers(cx as int, cy as int, r as int, a, b) by {
            lemma_outside_square(b - cy, r as int);
            assert((a - cx) * (a - cx) >= 0) by (nonlinear_arith);
        }
        if w > 0 {
            lemma_paint_ext(
                s,
                w as int,
                h as int,
                |a: int, b: int| disc_covers(cx as int, cy as int, r as int, a, b) && b < y,
                |a: int, b: int| disc_covers(cx as int, cy as int, r as int, a, b),
                c,
            );
        } else {
            lemma_zero_width(s, w as int, h as int, |a: int, b: int| disc_covers(cx as int, cy as int, r as int, a, b), c);
            lemma_zero_width(s, w as int, h as int, |a: int, b: int| disc_covers(cx as int, cy as int, r as int, a, b) && b < y, c);
        }
    }
}

} // verus!
