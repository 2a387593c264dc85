//! Straight lines with Bresenham's algorithm, in every octant.

use vstd::prelude::*;
use super::spec::{Rgba, paint, buffer_fits, lemma_paint_union, lemma_paint_ext, lemma_zero_width};
use super::raster::{dims_ok, plot};

verus! {

pub open spec fn abs_int(v: int) -> int {
    if v < 0 {
        -v
    } else {
        v
    }
}

/// Unit step from `from` towards `to` (`-1` when they are equal).
pub open spec fn step_towards(from: int, to: int) -> int {
    if from < to {
        1
    } else {
        -1
    }
}

/// Position and error term `(x, y, err)` of the Bresenham walk from `(x1, y1)` towards
/// `(x2, y2)` after `k` steps.
pub open spec fn line_state(x1: int, y1: int, x2: int, y2: int, k: nat) -> (int, int, int)
    decreases k,
{
    if k == 0 {
        (x1, y1, abs_int(x2 - x1) - abs_int(y2 - y1))
    } else {
        let prev = line_state(x1, y1, x2, y2, (k - 1) as nat);
        let a = abs_int(x2 - x1);
        let b = abs_int(y2 - y1);
        let e2 = 2 * prev.2;
        let nx = if e2 >= -b { prev.0 + step_towards(x1, x2) } else { prev.0 };
        let err1 = if e2 >= -b { prev.2 - b } else { prev.2 };
        let ny = if e2 <= a { prev.1 + step_towards(y1, y2) } else { prev.1 };
        let err2 = if e2 <= a { err1 + a } else { err1 };
        (nx, ny, err2)
    }
}

/// The walk stands on `(x2, y2)` after `k` steps.
pub open spec fn line_at_end(x1: int, y1: int, x2: int, y2: int, k: nat) -> bool {
    line_state(x1, y1, x2, y2, k).0 == x2 && line_state(x1, y1, x2, y2, k).1 == y2
}

/// No step before `k` reached `(x2, y2)`.
pub open spec fn line_running(x1: int, y1: int, x2: int, y2: int, k: nat) -> bool {
    forall|j: nat| j < k ==> !#[trigger] line_at_end(x1, y1, x2, y2, j)
}

/// Pixels plotted by the walk, which stops on reaching `(x2, y2)`.
pub open spec fn line_covers(x1: int, y1: int, x2: int, y2: int, px: int, py: int) -> bool {
    exists|k: nat|
        #![trigger line_state(x1, y1, x2, y2, k)]
        line_running(x1, y1, x2, y2, k) && line_state(x1, y1, x2, y2, k).0 == px
            && line_state(x1, y1, x2, y2, k).1 == py
}

/// Pixels plotted by the steps before `n`.
pub open spec fn line_prefix(x1: int, y1: int, x2: int, y2: int, n: nat, px: int, py: int) -> bool {
    exists|k: nat|
        #![trigger line_state(x1, y1, x2, y2, k)]
        k < n && line_state(x1, y1, x2, y2, k).0 == px && line_state(x1, y1, x2, y2, k).1 == py
}

/// Distance walked along the x axis after `k` steps.
pub open spec fn x_progress(x1: int, y1: int, x2: int, y2: int, k: nat) -> int {
    if x1 < x2 {
        line_state(x1, y1, x2, y2, k).0 - x1
    } else {
        x1 - line_state(x1, y1, x2, y2, k).0
    }
}

/// Distance walked along the y axis after `k` steps.
pub open spec fn y_progress(x1: int, y1: int, x2: int, y2: int, k: nat) -> int {
    if y1 < y2 {
        line_state(x1, y1, x2, y2, k).1 - y1
    } else {
        y1 - line_state(x1, y1, x2, y2, k).1
    }
}

/// While the walk runs it never overshoots the end point on either axis, makes progress on
/// every step, and keeps its error term equal to `a - b + a * Y - b * X`.
pub proof fn lemma_line_invariant(x1: int, y1: int, x2: int, y2: int, k: nat)
    requires
        line_running(x1, y1, x2, y2, k),
    ensures
        ({
            let a = abs_int(x2 - x1);
            let b = abs_int(y2 - y1);
            let xp = x_progress(x1, y1, x2, y2, k);
            let yp = y_progress(x1, y1, x2, y2, k);
            let err = line_state(x1, y1, x2, y2, k).2;
            &&& 0 <= xp <= a
            &&& 0 <= yp <= b
            &&& xp + yp >= k
            &&& err == a - b + a * yp - b * xp
            &&& a - 3 * b <= 2 * err <= 3 * a - b
        }),
    decreases k,
{
    let a = abs_int(x2 - x1);
    let b = abs_int(y2 - y1);
    if k == 0 {
        assert(x_progress(x1, y1, x2, y2, k) == 0);
        assert(y_progress(x1, y1, x2, y2, k) == 0);
        assert(a * 0 == 0 && b * 0 == 0);
    } else {
        let j = (k - 1) as nat;
        assert(line_running(x1, y1, x2, y2, j));
        lemma_line_invariant(x1, y1, x2, y2, j);
        assert(!line_at_end(x1, y1, x2, y2, j));
        let xp = x_progress(x1, y1, x2, y2, j);
        let yp = y_progress(x1, y1, x2, y2, j);
        let err = line_state(x1, y1, x2, y2, j).2;
        let e2 = 2 * err;
        if xp == a && yp == b {
            assert(line_at_end(x1, y1, x2, y2, j));
        }
        if xp == a {
            assert(yp <= b - 1);
            assert(a * yp <= a * (b - 1)) by (nonlinear_arith)
                requires
                    yp <= b - 1,
                    a >= 0,
            ;
            assert(e2 < -b) by (nonlinear_arith)
                requires
                    err == a - b + a * yp - b * xp,
                    xp == a,
                    a * yp <= a * (b - 1),
                    e2 == 2 * err,
                    b >= 1,
            ;
        }
        if yp == b {
            assert(xp <= a - 1);
            assert(b * xp <= b * (a - 1)) by (nonlinear_arith)
                requires
                    xp <= a - 1,
                    b >= 0,
            ;
            assert(e2 > a) by (nonlinear_arith)
                requires
                    err == a - b + a * yp - b * xp,
                    yp == b,
                    b * xp <= b * (a - 1),
                    e2 == 2 * err,
                    a >= 1,
            ;
        }
        assert(a * (yp + 1) == a * yp + a) by (nonlinear_arith);
        assert(b * (xp + 1) == b * xp + b) by (nonlinear_arith);
        let xs = e2 >= -b;
        let ys = e2 <= a;
        let nxp = x_progress(x1, y1, x2, y2, k);
        let nyp = y_progress(x1, y1, x2, y2, k);
        let nerr = line_state(x1, y1, x2, y2, k).2;
        assert(nxp == if xs { xp + 1 } else { xp });
        assert(nyp == if ys { yp + 1 } else { yp });
        assert(nerr == err - (if xs { b } else { 0 }) + (if ys { a } else { 0 }));
        assert(xs || ys);
        if xs && ys {
            assert(nerr == a - b + a * nyp - b * nxp);
        } else if xs {
            assert(nerr == a - b + a * nyp - b * nxp);
        } else {
            assert(nerr == a - b + a * nyp - b * nxp);
        }
    }
}

/// The walk reaches `(x2, y2)`: some step `k` stands on it with no earlier step doing so.
pub proof fn lemma_line_reaches_end(x1: int, y1: int, x2: int, y2: int, n: nat)
    requires
        line_running(x1, y1, x2, y2, n),
    ensures
        exists|k: nat|
            #![trigger line_state(x1, y1, x2, y2, k)]
            line_running(x1, y1, x2, y2, k) && line_state(x1, y1, x2, y2, k).0 == x2
                && line_state(x1, y1, x2, y2, k).1 == y2,
    decreases abs_int(x2 - x1) + abs_int(y2 - y1) + 1 - n,
{
    lemma_line_invariant(x1, y1, x2, y2, n);
    if line_at_end(x1, y1, x2, y2, n) {
        assert(line_state(x1, y1, x2, y2, n).0 == x2);
    } else {
        assert(line_running(x1, y1, x2, y2, n + 1));
        lemma_line_invariant(x1, y1, x2, y2, n + 1);
        lemma_line_reaches_end(x1, y1, x2, y2, n + 1);
    }
}

/// `(px, py)` and `(qx, qy)` are distinct pixels that touch at an edge or a corner.
pub open spec fn eight_neighbours(px: int, py: int, qx: int, qy: int) -> bool {
    &&& abs_int(px - qx) <= 1
    &&& abs_int(py - qy) <= 1
    &&& (px != qx || py != qy)
}

/// Every step of the walk moves to one of the eight neighbours of the pixel before it.
pub proof fn lemma_line_step_is_neighbour(x1: int, y1: int, x2: int, y2: int, k: nat)
    ensures
        eight_neighbours(
            line_state(x1, y1, x2, y2, k).0,
            line_state(x1, y1, x2, y2, k).1,
            line_state(x1, y1, x2, y2, k + 1).0,
            line_state(x1, y1, x2, y2, k + 1).1,
        ),
{
    assert(line_state(x1, y1, x2, y2, (k + 1) as nat) == {
        let prev = line_state(x1, y1, x2, y2, k);
        let a = abs_int(x2 - x1);
        let b = abs_int(y2 - y1);
        let e2 = 2 * prev.2;
        let nx = if e2 >= -b { prev.0 + step_towards(x1, x2) } else { prev.0 };
        let err1 = if e2 >= -b { prev.2 - b } else { prev.2 };
        let ny = if e2 <= a { prev.1 + step_towards(y1, y2) } else { prev.1 };
        let err2 = if e2 <= a { err1 + a } else { err1 };
        (nx, ny, err2)
    });
}

/// On the longer axis the walk advances on every step: the error term never leaves the band
/// in which that step is taken.
pub proof fn lemma_line_major_axis(x1: int, y1: int, x2: int, y2: int, k: nat)
    ensures
        abs_int(x2 - x1) >= abs_int(y2 - y1) ==> x_progress(x1, y1, x2, y2, k) == k && 2 * line_state(
            x1,
            y1,
            x2,
            y2,
            k,
        ).2 >= -abs_int(y2 - y1),
        abs_int(y2 - y1) >= abs_int(x2 - x1) ==> y_progress(x1, y1, x2, y2, k) == k && 2 * line_state(
            x1,
            y1,
            x2,
            y2,
            k,
        ).2 <= abs_int(x2 - x1),
    decreases k,
{
    if k > 0 {
        lemma_line_major_axis(x1, y1, x2, y2, (k - 1) as nat);
    }
}

/// Each pixel of the walk lies within half a pixel of the exact line across its major axis:
/// after `k` steps along a line at least as wide as it is tall, the distance walked across,
/// `Y`, differs from the exact `b * X / a` by at most one half (`|2 (a * Y - b * X)| <= a`),
/// and symmetrically for a line at least as tall as it is wide.
pub proof fn lemma_line_nearest_pixel(x1: int, y1: int, x2: int, y2: int, k: nat)
    ensures
        ({
            let a = abs_int(x2 - x1);
            let b = abs_int(y2 - y1);
            let xp = x_progress(x1, y1, x2, y2, k);
            let yp = y_progress(x1, y1, x2, y2, k);
            &&& line_state(x1, y1, x2, y2, k).2 == a - b + a * yp - b * xp
            &&& a >= b ==> -a <= 2 * (a * yp - b * xp) <= a
            &&& b >= a ==> -b <= 2 * (b * xp - a * yp) <= b
        }),
    decreases k,
{
    let a = abs_int(x2 - x1);
    let b = abs_int(y2 - y1);
    if k == 0 {
        assert(a * 0 == 0 && b * 0 == 0);
    } else {
        let j = (k - 1) as nat;
        lemma_line_nearest_pixel(x1, y1, x2, y2, j);
        let xp = x_progress(x1, y1, x2, y2, j);
        let yp = y_progress(x1, y1, x2, y2, j);
        assert(a * (yp + 1) == a * yp + a) by (nonlinear_arith);
        assert(b * (xp + 1) == b * xp + b) by (nonlinear_arith);
    }
}

/// Bresenham's line is an 8-connected path of `max(|dx|, |dy|) + 1` distinct pixels: the walk
/// first stands on `(x2, y2)` after exactly `max(|dx|, |dy|)` steps, every step moves to a
/// neighbouring pixel, no pixel is visited twice, and the pixels drawn are exactly those of
/// steps `0 ..= max(|dx|, |dy|)`.
pub proof fn lemma_line_is_path(x1: int, y1: int, x2: int, y2: int)
    ensures
        ({
            let a = abs_int(x2 - x1);
            let b = abs_int(y2 - y1);
            let m = (if a >= b { a } else { b }) as nat;
            &&& line_running(x1, y1, x2, y2, m)
            &&& line_at_end(x1, y1, x2, y2, m)
            &&& forall|k: nat|
                k < m ==> #[trigger] eight_neighbours(
                    line_state(x1, y1, x2, y2, k).0,
                    line_state(x1, y1, x2, y2, k).1,
                    line_state(x1, y1, x2, y2, k + 1).0,
                    line_state(x1, y1, x2, y2, k + 1).1,
                )
            &&& forall|k: nat, j: nat|
                #![trigger line_state(x1, y1, x2, y2, k), line_state(x1, y1, x2, y2, j)]
                k < j <= m ==> line_state(x1, y1, x2, y2, k).0 != line_state(x1, y1, x2, y2, j).0
                    || line_state(x1, y1, x2, y2, k).1 != line_state(x1, y1, x2, y2, j).1
            &&& forall|px: int, py: int|
                #[trigger] line_covers(x1, y1, x2, y2, px, py) <==> exists|k: nat|
                    #![trigger line_state(x1, y1, x2, y2, k)]
                    k <= m && line_state(x1, y1, x2, y2, k).0 == px && line_state(x1, y1, x2, y2, k).1 == py
        }),
{
    let a = abs_int(x2 - x1);
    let b = abs_int(y2 - y1);
    let m = (if a >= b { a } else { b }) as nat;
    assert(line_running(x1, y1, x2, y2, 0));
    lemma_line_reaches_end(x1, y1, x2, y2, 0);
    let e = choose|k: nat|
        #![trigger line_state(x1, y1, x2, y2, k)]
        line_running(x1, y1, x2, y2, k) && line_state(x1, y1, x2, y2, k).0 == x2
            && line_state(x1, y1, x2, y2, k).1 == y2;
    lemma_line_invariant(x1, y1, x2, y2, e);
    lemma_line_major_axis(x1, y1, x2, y2, e);
    assert(e == m);
    assert(line_at_end(x1, y1, x2, y2, m));
    assert forall|k: nat|
        k < m implies #[trigger] eight_neighbours(
            line_state(x1, y1, x2, y2, k).0,
            line_state(x1, y1, x2, y2, k).1,
            line_state(x1, y1, x2, y2, k + 1).0,
            line_state(x1, y1, x2, y2, k + 1).1,
        ) by {
        lemma_line_step_is_neighbour(x1, y1, x2, y2, k);
    }
    assert forall|k: nat, j: nat|
        #![trigger line_state(x1, y1, x2, y2, k), line_state(x1, y1, x2, y2, j)]
        k < j <= m implies line_state(x1, y1, x2, y2, k).0 != line_state(x1, y1, x2, y2, j).0
            || line_state(x1, y1, x2, y2, k).1 != line_state(x1, y1, x2, y2, j).1 by {
        lemma_line_major_axis(x1, y1, x2, y2, k);
        lemma_line_major_axis(x1, y1, x2, y2, j);
    }
    assert forall|px: int, py: int|
        #[trigger] line_covers(x1, y1, x2, y2, px, py) <==> exists|k: nat|
            #![trigger line_state(x1, y1, x2, y2, k)]
            k <= m && line_state(x1, y1, x2, y2, k).0 == px && line_state(x1, y1, x2, y2, k).1 == py by {
        if line_covers(x1, y1, x2, y2, px, py) {
            let k = choose|k: nat|
                #![trigger line_state(x1, y1, x2, y2, k)]
                line_running(x1, y1, x2, y2, k) && line_state(x1, y1, x2, y2, k).0 == px
                    && line_state(x1, y1, x2, y2, k).1 == py;
            if k > m {
                assert(line_at_end(x1, y1, x2, y2, m));
            }
        }
        if exists|k: nat|
            #![trigger line_state(x1, y1, x2, y2, k)]
            k <= m && line_state(x1, y1, x2, y2, k).0 == px && line_state(x1, y1, x2, y2, k).1 == py {
            let k = choose|k: nat|
                #![trigger line_state(x1, y1, x2, y2, k)]
                k <= m && line_state(x1, y1, x2, y2, k).0 == px && line_state(x1, y1, x2, y2, k).1 == py;
            assert forall|j: nat| j < k implies !#[trigger] line_at_end(x1, y1, x2, y2, j) by {
                assert(j < m);
            }
            assert(line_running(x1, y1, x2, y2, k));
        }
    }
}

/// Draws the line from `(x1, y1)` to `(x2, y2)` with Bresenham's algorithm.
pub fn draw_line(
    pixels: &mut Vec<u8>,
    w: u32,
    h: u32,
    x1: i128,
    y1: i128,
    x2: i128,
    y2: i128,
    c: Rgba,
)
    requires
        dims_ok(w, h),
        buffer_fits(old(pixels)@, w as int, h as int),
        -0x8000_0000 <= x1 < 0x8000_0000,
        -0x8000_0000 <= y1 < 0x8000_0000,
        -0x8000_0000 <= x2 < 0x8000_0000,
        -0x8000_0000 <= y2 < 0x8000_0000,
    ensures
        final(pixels)@ == paint(
            old(pixels)@,
            w as int,
            |px: int, py: int| line_covers(x1 as int, y1 as int, x2 as int, y2 as int, px, py),
            c,
        ),
{
    let ghost s = pixels@;
    let ghost (gx1, gy1, gx2, gy2) = (x1 as int, y1 as int, x2 as int, y2 as int);
    let a: i128 = if x2 - x1 < 0 { x1 - x2 } else { x2 - x1 };
    let b: i128 = if y2 - y1 < 0 { y1 - y2 } else { y2 - y1 };
    let sx: i128 = if x1 < x2 { 1 } else { -1 };
    let sy: i128 = if y1 < y2 { 1 } else { -1 };
    let mut x = x1;
    let mut y = y1;
    let mut err: i128 = a - b;
    let ghost mut k: nat = 0;
    proof {
        if w == 0 {
            lemma_zero_width(s, w as int, h as int, |px: int, py: int| line_prefix(gx1, gy1, gx2, gy2, 0, px, py), c);
        } else {
            assert(paint(s, w as int, |px: int, py: int| line_prefix(gx1, gy1, gx2, gy2, 0, px, py), c) =~= s);
        }
    }
    loop
        invariant_except_break
            dims_ok(w, h),
            buffer_fits(s, w as int, h as int),
            gx1 == x1 && gy1 == y1 && gx2 == x2 && gy2 == y2,
            -0x8000_0000 <= x1 < 0x8000_0000,
            -0x8000_0000 <= y1 < 0x8000_0000,
            -0x8000_0000 <= x2 < 0x8000_0000,
            -0x8000_0000 <= y2 < 0x8000_0000,
            a == abs_int(gx2 - gx1),
            b == abs_int(gy2 - gy1),
            sx == step_towards(gx1, gx2),
            sy == step_towards(gy1, gy2),
            (x as int, y as int, err as int) == line_state(gx1, gy1, gx2, gy2, k),
            line_running(gx1, gy1, gx2, gy2, k),
            pixels@ == paint(s, w as int, |px: int, py: int| line_prefix(gx1, gy1, gx2, gy2, k, px, py), c),
        ensures
            pixels@ == paint(s, w as int, |px: int, py: int| line_covers(gx1, gy1, gx2, gy2, px, py), c),
        decreases a + b + 1 - k,
    {
        proof {
            lemma_line_invariant(gx1, gy1, gx2, gy2, k);
        }
        plot(pixels, w, h, x, y, c);
        proof {
            lemma_paint_union(
                s,
                w as int,
                |px: int, py: int| line_prefix(gx1, gy1, gx2, gy2, k, px, py),
                |px: int, py: int| px == x && py == y,
                c,
            );
            let u = |px: int, py: int| line_prefix(gx1, gy1, gx2, gy2, k, px, py) || (px == x && py == y);
            let v = |px: int, py: int| line_prefix(gx1, gy1, gx2, gy2, k + 1, px, py);
            assert forall|px: int, py: int| #[trigger] u(px, py) == v(px, py) by {
                if v(px, py) {
                    let j = choose|j: nat| #![trigger line_state(gx1, gy1, gx2, gy2, j)] j < k + 1 && line_state(gx1, gy1, gx2, gy2, j).0 == px && line_state(gx1, gy1, gx2, gy2, j).1 == py;
                    if j < k {
                        assert(line_prefix(gx1, gy1, gx2, gy2, k, px, py));
                    }
                }
                if px == x && py == y {
                    assert(line_state(gx1, gy1, gx2, gy2, k).0 == px);
                }
            }
            assert(u =~= v);
        }
        if x == x2 && y == y2 {
            proof {
                let u = |px: int, py: int| line_prefix(gx1, gy1, gx2, gy2, k + 1, px, py);
                let v = |px: int, py: int| line_covers(gx1, gy1, gx2, gy2, px, py);
                assert forall|px: int, py: int| #[trigger] u(px, py) == v(px, py) by {
                    if u(px, py) {
                        let j = choose|j: nat| #![trigger line_state(gx1, gy1, gx2, gy2, j)] j < k + 1 && line_state(gx1, gy1, gx2, gy2, j).0 == px && line_state(gx1, gy1, gx2, gy2, j).1 == py;
                        assert(line_running(gx1, gy1, gx2, gy2, j));
                    }
                    if v(px, py) {
                        let j = choose|j: nat| #![trigger line_state(gx1, gy1, gx2, gy2, j)] line_running(gx1, gy1, gx2, gy2, j) && line_state(gx1, gy1, gx2, gy2, j).0 == px && line_state(gx1, gy1, gx2, gy2, j).1 == py;
                        if j > k {
                            assert(line_at_end(gx1, gy1, gx2, gy2, k));
                        }
                    }
                }
                assert(u =~= v);
            }
            break;
        }
        let e2 = 2 * err;
        if e2 >= -b {
            err = err - b;
            x = x + sx;
        }
        if e2 <= a {
            err = err + a;
            y = y + sy;
        }
        proof {
            assert(!line_at_end(gx1, gy1, gx2, gy2, k));
            assert(line_running(gx1, gy1, gx2, gy2, k + 1));
            k = k + 1;
            lemma_line_invariant(gx1, gy1, gx2, gy2, k);
        }
    }
}

} // verus!
