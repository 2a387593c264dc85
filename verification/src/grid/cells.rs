//! Cell addressing in a 3D grid stored row by row, then plane by plane.

use vstd::prelude::*;
use vstd::arithmetic::div_mod::{lemma_fundamental_div_mod_converse};

verus! {

/// Flat index of cell `(x, y, z)` in a grid of `g[0] x g[1] x g[2]` cells.
pub open spec fn cell_of(g: [usize; 3], x: int, y: int, z: int) -> int {
    x + y * g[0] + z * g[0] * g[1]
}

/// Number of cells in the grid.
pub open spec fn total_cells(g: [usize; 3]) -> int {
    g[0] * g[1] * g[2]
}

/// `(x, y, z)` is a cell of the grid.
pub open spec fn in_grid(g: [usize; 3], x: int, y: int, z: int) -> bool {
    0 <= x < g[0] && 0 <= y < g[1] && 0 <= z < g[2]
}

/// `(x, y, z)` lies in the box with inclusive corners `lo` and `hi`.
pub open spec fn in_box(lo: [usize; 3], hi: [usize; 3], x: int, y: int, z: int) -> bool {
    lo[0] <= x <= hi[0] && lo[1] <= y <= hi[1] && lo[2] <= z <= hi[2]
}

/// The flat index of a cell of the grid lies below the cell count.
pub proof fn lemma_cell_in_range(g: [usize; 3], x: int, y: int, z: int)
    requires
        in_grid(g, x, y, z),
    ensures
        0 <= cell_of(g, x, y, z) < total_cells(g),
{
    let a = g[0] as int;
    let b = g[1] as int;
    let c = g[2] as int;
    assert(0 <= x + y * a + z * a * b < a * b * c) by (nonlinear_arith)
        requires
            0 <= x < a,
            0 <= y < b,
            0 <= z < c,
    ;
}

/// Distinct cells of the grid have distinct flat indices.
pub proof fn lemma_cell_injective(g: [usize; 3], x: int, y: int, z: int, x2: int, y2: int, z2: int)
    requires
        in_grid(g, x, y, z),
        in_grid(g, x2, y2, z2),
        cell_of(g, x, y, z) == cell_of(g, x2, y2, z2),
    ensures
        x == x2 && y == y2 && z == z2,
{
    let a = g[0] as int;
    let b = g[1] as int;
    let i = cell_of(g, x, y, z);
    assert(i == (y + z * b) * a + x) by (nonlinear_arith)
        requires
            i == x + y * a + z * a * b,
    ;
    assert(i == (y2 + z2 * b) * a + x2) by (nonlinear_arith)
        requires
            i == x2 + y2 * a + z2 * a * b,
    ;
    lemma_fundamental_div_mod_converse(i, a, y + z * b, x);
    lemma_fundamental_div_mod_converse(i, a, y2 + z2 * b, x2);
    lemma_fundamental_div_mod_converse(y + z * b, b, z, y);
    lemma_fundamental_div_mod_converse(y2 + z2 * b, b, z2, y2);
}

/// Flat index of cell `(x, y, z)`.
pub fn compute_cell_index(x: usize, y: usize, z: usize, grid_size: [usize; 3]) -> (i: usize)
    requires
        cell_of(grid_size, x as int, y as int, z as int) <= usize::MAX,
    ensures
        i == cell_of(grid_size, x as int, y as int, z as int),
{
    proof {
        let a = grid_size[0] as int;
        let b = grid_size[1] as int;
        assert(0 <= y * a <= x + y * a + z * a * b) by (nonlinear_arith)
            requires
                0 <= x,
                0 <= y,
                0 <= z,
                0 <= a,
                0 <= b,
        ;
        assert(0 <= z * a * b <= x + y * a + z * a * b) by (nonlinear_arith)
            requires
                0 <= x,
                0 <= y,
                0 <= z,
                0 <= a,
                0 <= b,
        ;
        assert(z * a * b == (z * a) * b);
        assert(0 <= z * a <= z * a * b || b == 0) by (nonlinear_arith)
            requires
                0 <= z,
                0 <= a,
                0 <= b,
        ;
    }
    if grid_size[1] == 0 {
        proof {
            assert(z * grid_size[0] * grid_size[1] == 0) by (nonlinear_arith)
                requires
                    grid_size[1] == 0,
            ;
        }
        return x + y * grid_size[0];
    }
    x + y * grid_size[0] + z * grid_size[0] * grid_size[1]
}

} // verus!
