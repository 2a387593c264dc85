//! Visiting every grid cell of a box: plane by plane, row by row, cell by cell.

use vstd::prelude::*;
use super::cells::{cell_of, total_cells, in_grid, in_box, lemma_cell_in_range, lemma_cell_injective};

verus! {

/// `(xx, yy, zz)` is a cell of the box `lo ..= hi` that the walk visits before `(x, y, z)`.
pub open spec fn walked_before(lo: [usize; 3], hi: [usize; 3], xx: int, yy: int, zz: int, x: int, y: int, z: int) -> bool {
    &&& in_box(lo, hi, xx, yy, zz)
    &&& (zz < z || (zz == z && yy < y) || (zz == z && yy == y && xx < x))
}

/// `after` is `before` with `f` applied to every grid cell that the walk of the box
/// `lo ..= hi` visits before `(x, y, z)`, and every other cell unchanged.
pub open spec fn walked<T>(
    g: [usize; 3],
    lo: [usize; 3],
    hi: [usize; 3],
    before: Seq<T>,
    after: Seq<T>,
    f: spec_fn(T) -> T,
    x: int,
    y: int,
    z: int,
) -> bool {
    forall|xx: int, yy: int, zz: int|
        #![trigger cell_of(g, xx, yy, zz)]
        in_grid(g, xx, yy, zz) ==> after[cell_of(g, xx, yy, zz)] == if walked_before(lo, hi, xx, yy, zz, x, y, z) {
            f(before[cell_of(g, xx, yy, zz)])
        } else {
            before[cell_of(g, xx, yy, zz)]
        }
}

/// The walk covers a non-empty box that starts inside the grid; `e` is the last cell of the
/// box inside the grid on each axis.
pub open spec fn walk_bounds(g: [usize; 3], lo: [usize; 3], hi: [usize; 3], e: [usize; 3]) -> bool {
    forall|i: int|
        0 <= i < 3 ==> {
            &&& lo[i] < g[i]
            &&& lo[i] <= hi[i]
            &&& #[trigger] e[i] == if hi[i] < g[i] { hi[i] as int } else { g[i] - 1 }
        }
}

/// Nothing is visited before the first cell.
pub proof fn lemma_walk_start<T>(g: [usize; 3], lo: [usize; 3], hi: [usize; 3], s: Seq<T>, f: spec_fn(T) -> T)
    ensures
        walked(g, lo, hi, s, s, f, lo[0] as int, lo[1] as int, lo[2] as int),
{
}

/// Applying `f` to the current cell `(x, y, z)` moves the walk on to `(x + 1, y, z)`.
pub proof fn lemma_walk_step<T>(
    g: [usize; 3],
    lo: [usize; 3],
    hi: [usize; 3],
    e: [usize; 3],
    before: Seq<T>,
    mid: Seq<T>,
    after: Seq<T>,
    f: spec_fn(T) -> T,
    x: int,
    y: int,
    z: int,
)
    requires
        walk_bounds(g, lo, hi, e),
        lo[0] <= x <= e[0],
        lo[1] <= y <= e[1],
        lo[2] <= z <= e[2],
        mid.len() == total_cells(g),
        walked(g, lo, hi, before, mid, f, x, y, z),
        after == mid.update(cell_of(g, x, y, z), f(mid[cell_of(g, x, y, z)])),
    ensures
        walked(g, lo, hi, before, after, f, x + 1, y, z),
{
    assert(e[0] == if hi[0] < g[0] { hi[0] as int } else { g[0] - 1 });
    assert(e[1] == if hi[1] < g[1] { hi[1] as int } else { g[1] - 1 });
    assert(e[2] == if hi[2] < g[2] { hi[2] as int } else { g[2] - 1 });
    let c0 = cell_of(g, x, y, z);
    assert(in_grid(g, x, y, z));
    lemma_cell_in_range(g, x, y, z);
    assert(!walked_before(lo, hi, x, y, z, x, y, z));
    assert(mid[c0] == before[c0]);
    assert(after[c0] == f(before[c0]));
    assert forall|xx: int, yy: int, zz: int|
        #![trigger cell_of(g, xx, yy, zz)]
        in_grid(g, xx, yy, zz) implies after[cell_of(g, xx, yy, zz)] == if walked_before(lo, hi, xx, yy, zz, x + 1, y, z) {
            f(before[cell_of(g, xx, yy, zz)])
        } else {
            before[cell_of(g, xx, yy, zz)]
        } by {
        lemma_cell_in_range(g, xx, yy, zz);
        if !(xx == x && yy == y && zz == z) {
            if cell_of(g, xx, yy, zz) == c0 {
                lemma_cell_injective(g, xx, yy, zz, x, y, z);
            }
            assert(after[cell_of(g, xx, yy, zz)] == mid[cell_of(g, xx, yy, zz)]);
        }
    }
}

/// After the last cell of a row the walk goes on with the first cell of the next row.
pub proof fn lemma_walk_row_done<T>(
    g: [usize; 3],
    lo: [usize; 3],
    hi: [usize; 3],
    e: [usize; 3],
    before: Seq<T>,
    after: Seq<T>,
    f: spec_fn(T) -> T,
    y: int,
    z: int,
)
    requires
        walk_bounds(g, lo, hi, e),
        walked(g, lo, hi, before, after, f, e[0] + 1, y, z),
    ensures
        walked(g, lo, hi, before, after, f, lo[0] as int, y + 1, z),
{
    assert(e[0] == if hi[0] < g[0] { hi[0] as int } else { g[0] - 1 });
    assert forall|xx: int, yy: int, zz: int|
        #![trigger cell_of(g, xx, yy, zz)]
        in_grid(g, xx, yy, zz) implies walked_before(lo, hi, xx, yy, zz, e[0] + 1, y, z)
            == walked_before(lo, hi, xx, yy, zz, lo[0] as int, y + 1, z) by {
    }
}

/// After the last row of a plane the walk goes on with the first row of the next plane.
pub proof fn lemma_walk_plane_done<T>(
    g: [usize; 3],
    lo: [usize; 3],
    hi: [usize; 3],
    e: [usize; 3],
    before: Seq<T>,
    after: Seq<T>,
    f: spec_fn(T) -> T,
    z: int,
)
    requires
        walk_bounds(g, lo, hi, e),
        walked(g, lo, hi, before, after, f, lo[0] as int, e[1] + 1, z),
    ensures
        walked(g, lo, hi, before, after, f, lo[0] as int, lo[1] as int, z + 1),
{
    assert(e[1] == if hi[1] < g[1] { hi[1] as int } else { g[1] - 1 });
    assert forall|xx: int, yy: int, zz: int|
        #![trigger cell_of(g, xx, yy, zz)]
        in_grid(g, xx, yy, zz) implies walked_before(lo, hi, xx, yy, zz, lo[0] as int, e[1] + 1, z)
            == walked_before(lo, hi, xx, yy, zz, lo[0] as int, lo[1] as int, z + 1) by {
    }
}

/// After the last plane the walk has visited every grid cell of the box.
pub proof fn lemma_walk_done<T>(
    g: [usize; 3],
    lo: [usize; 3],
    hi: [usize; 3],
    e: [usize; 3],
    before: Seq<T>,
    after: Seq<T>,
    f: spec_fn(T) -> T,
)
    requires
        walk_bounds(g, lo, hi, e),
        walked(g, lo, hi, before, after, f, lo[0] as int, lo[1] as int, e[2] + 1),
    ensures
        forall|xx: int, yy: int, zz: int|
            #![trigger cell_of(g, xx, yy, zz)]
            in_grid(g, xx, yy, zz) ==> after[cell_of(g, xx, yy, zz)] == if in_box(lo, hi, xx, yy, zz) {
                f(before[cell_of(g, xx, yy, zz)])
            } else {
                before[cell_of(g, xx, yy, zz)]
            },
{
    assert(e[2] == if hi[2] < g[2] { hi[2] as int } else { g[2] - 1 });
    assert forall|xx: int, yy: int, zz: int|
        #![trigger cell_of(g, xx, yy, zz)]
        in_grid(g, xx, yy, zz) implies walked_before(lo, hi, xx, yy, zz, lo[0] as int, lo[1] as int, e[2] + 1)
            == in_box(lo, hi, xx, yy, zz) by {
    }
}

} // verus!
