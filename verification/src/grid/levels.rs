//! Occupancy counts of a coarse grid level and object lists of the fine level.

use vstd::prelude::*;
use super::cells::{cell_of, total_cells, in_grid, in_box, lemma_cell_in_range, compute_cell_index};
use super::walk::{walked, walk_bounds, lemma_walk_start, lemma_walk_step, lemma_walk_row_done, lemma_walk_plane_done, lemma_walk_done};

verus! {

/// Maximum objects recorded in one fine cell.
pub const MAX_OBJECTS_PER_CELL: usize = 256;

/// A count incremented, stopping at 255.
pub open spec fn saturating_inc(v: u8) -> u8 {
    if v < 255 {
        (v + 1) as u8
    } else {
        255
    }
}

/// Object list of a cell after offering it object `id`: kept only while the cell has room.
pub open spec fn with_object(cell: Seq<u32>, id: u32) -> Seq<u32> {
    if cell.len() < MAX_OBJECTS_PER_CELL {
        cell.push(id)
    } else {
        cell
    }
}

/// Last cell coordinate covered by a box ending at `hi` in a grid of `size` cells.
fn last_cell(hi: usize, size: usize) -> (e: usize)
    requires
        size > 0,
    ensures
        e == if hi < size { hi as int } else { size - 1 },
{
    if hi < size {
        hi
    } else {
        size - 1
    }
}

/// Coarse level: how many objects touch each cell, saturating at 255.
pub struct CoarseGridLevel {
    pub grid_size: [usize; 3],
    pub counts: Vec<u8>,
}

impl CoarseGridLevel {
    /// One count per cell.
    pub open spec fn well_formed(&self) -> bool {
        &&& self.counts@.len() == total_cells(self.grid_size)
        &&& total_cells(self.grid_size) <= usize::MAX
    }

    /// A level of `grid_size` cells, all at zero.
    pub fn new(grid_size: [usize; 3]) -> (l: Self)
        requires
            total_cells(grid_size) <= usize::MAX,
        ensures
            l.well_formed(),
            l.grid_size == grid_size,
            l.counts@ == Seq::new(total_cells(grid_size) as nat, |i: int| 0u8),
    {
        proof {
            let (a, b, c) = (grid_size[0] as int, grid_size[1] as int, grid_size[2] as int);
            assert(a * b <= usize::MAX || c == 0) by (nonlinear_arith)
                requires
                    a * b * c <= usize::MAX,
                    a >= 0,
                    b >= 0,
                    c >= 0,
            ;
        }
        let total: usize = if grid_size[2] == 0 {
            proof {
                assert(grid_size[0] as int * grid_size[1] as int * 0 == 0) by (nonlinear_arith);
            }
            0
        } else {
            grid_size[0] * grid_size[1] * grid_size[2]
        };
        let mut counts: Vec<u8> = Vec::new();
        let mut i: usize = 0;
        while i < total
            invariant
                i <= total,
                counts@ == Seq::new(i as nat, |j: int| 0u8),
            decreases total - i,
        {
            counts.push(0);
            i = i + 1;
        }
        CoarseGridLevel { grid_size, counts }
    }

    /// Flat index of cell `(x, y, z)`.
    pub fn cell_index(&self, x: usize, y: usize, z: usize) -> (i: usize)
        requires
            cell_of(self.grid_size, x as int, y as int, z as int) <= usize::MAX,
        ensures
            i == cell_of(self.grid_size, x as int, y as int, z as int),
    {
        compute_cell_index(x, y, z, self.grid_size)
    }

    /// Count one more object in cell `(x, y, z)`, stopping at 255.
    pub fn increment_cell(&mut self, x: usize, y: usize, z: usize)
        requires
            old(self).well_formed(),
            cell_of(old(self).grid_size, x as int, y as int, z as int) < old(self).counts@.len(),
        ensures
            final(self).well_formed(),
            final(self).grid_size == old(self).grid_size,
            ({
                let i = cell_of(old(self).grid_size, x as int, y as int, z as int);
                final(self).counts@ == old(self).counts@.update(i, saturating_inc(old(self).counts@[i]))
            }),
    {
        let idx = self.cell_index(x, y, z);
        if self.counts[idx] < 255 {
            self.counts[idx] = self.counts[idx] + 1;
        }
    }

    /// Count one more object in every cell of the box `lo ..= hi` that lies in the grid.
    pub fn increment_box(&mut self, lo: [usize; 3], hi: [usize; 3])
        requires
            old(self).well_formed(),
        ensures
            final(self).well_formed(),
            final(self).grid_size == old(self).grid_size,
            forall|x: int, y: int, z: int|
                #![trigger cell_of(old(self).grid_size, x, y, z)]
                in_grid(old(self).grid_size, x, y, z) ==> final(self).counts@[cell_of(old(self).grid_size, x, y, z)]
                    == if in_box(lo, hi, x, y, z) {
                    saturating_inc(old(self).counts@[cell_of(old(self).grid_size, x, y, z)])
                } else {
                    old(self).counts@[cell_of(old(self).grid_size, x, y, z)]
                },
    {
        let ghost orig = self.counts@;
        let g = self.grid_size;
        if g[0] == 0 || g[1] == 0 || g[2] == 0 || lo[0] >= g[0] || lo[1] >= g[1] || lo[2] >= g[2]
            || hi[0] < lo[0] || hi[1] < lo[1] || hi[2] < lo[2] {
            return;
        }
        let e = [last_cell(hi[0], g[0]), last_cell(hi[1], g[1]), last_cell(hi[2], g[2])];
        let ghost f = |v: u8| saturating_inc(v);
        proof {
            assert(walk_bounds(g, lo, hi, e));
            lemma_walk_start(g, lo, hi, orig, f);
        }
        let mut z = lo[2];
        while z <= e[2]
            invariant
                self.well_formed(),
                self.grid_size == g,
                walk_bounds(g, lo, hi, e),
                forall|v: u8| #[trigger] f(v) == saturating_inc(v),
                lo[2] <= z <= e[2] + 1,
                walked(g, lo, hi, orig, self.counts@, f, lo[0] as int, lo[1] as int, z as int),
            decreases e[2] + 1 - z,
        {
            let mut y = lo[1];
            while y <= e[1]
                invariant
                    self.well_formed(),
                    self.grid_size == g,
                    walk_bounds(g, lo, hi, e),
                forall|v: u8| #[trigger] f(v) == saturating_inc(v),
                    lo[2] <= z <= e[2],
                    lo[1] <= y <= e[1] + 1,
                    walked(g, lo, hi, orig, self.counts@, f, lo[0] as int, y as int, z as int),
                decreases e[1] + 1 - y,
            {
                let mut x = lo[0];
                while x <= e[0]
                    invariant
                        self.well_formed(),
                        self.grid_size == g,
                        walk_bounds(g, lo, hi, e),
                forall|v: u8| #[trigger] f(v) == saturating_inc(v),
                        lo[2] <= z <= e[2],
                        lo[1] <= y <= e[1],
                        lo[0] <= x <= e[0] + 1,
                        walked(g, lo, hi, orig, self.counts@, f, x as int, y as int, z as int),
                    decreases e[0] + 1 - x,
                {
                    proof {
                        lemma_cell_in_range(g, x as int, y as int, z as int);
                    }
                    let ghost mid = self.counts@;
                    self.increment_cell(x, y, z);
                    proof {
                        lemma_walk_step(g, lo, hi, e, orig, mid, self.counts@, f, x as int, y as int, z as int);
                    }
                    x = x + 1;
                }
                proof {
                    lemma_walk_row_done(g, lo, hi, e, orig, self.counts@, f, y as int, z as int);
                }
                y = y + 1;
            }
            proof {
                lemma_walk_plane_done(g, lo, hi, e, orig, self.counts@, f, z as int);
            }
            z = z + 1;
        }
        proof {
            lemma_walk_done(g, lo, hi, e, orig, self.counts@, f);
        }
    }
}

/// Fine level: the ids of the objects that touch each cell, at most `MAX_OBJECTS_PER_CELL` per cell.
pub struct FineGridLevel {
    pub grid_size: [usize; 3],
    pub cells: Vec<Vec<u32>>,
}

impl FineGridLevel {
    /// The object list of every cell.
    pub open spec fn cell_lists(&self) -> Seq<Seq<u32>> {
        self.cells@.map_values(|c: Vec<u32>| c@)
    }

    /// One list per cell, none longer than `MAX_OBJECTS_PER_CELL`.
    pub open spec fn well_formed(&self) -> bool {
        &&& self.cells@.len() == total_cells(self.grid_size)
        &&& total_cells(self.grid_size) <= usize::MAX
        &&& forall|i: int| 0 <= i < self.cells@.len() ==> (#[trigger] self.cells@[i])@.len() <= MAX_OBJECTS_PER_CELL
    }

    /// A level of `grid_size` cells, all empty.
    pub fn new(grid_size: [usize; 3]) -> (l: Self)
        requires
            total_cells(grid_size) <= usize::MAX,
        ensures
            l.well_formed(),
            l.grid_size == grid_size,
            l.cell_lists() == Seq::new(total_cells(grid_size) as nat, |i: int| Seq::<u32>::empty()),
    {
        proof {
            let (a, b, c) = (grid_size[0] as int, grid_size[1] as int, grid_size[2] as int);
            assert(a * b <= usize::MAX || c == 0) by (nonlinear_arith)
                requires
                    a * b * c <= usize::MAX,
                    a >= 0,
                    b >= 0,
                    c >= 0,
            ;
        }
        let total: usize = if grid_size[2] == 0 {
            proof {
                assert(grid_size[0] as int * grid_size[1] as int * 0 == 0) by (nonlinear_arith);
            }
            0
        } else {
            grid_size[0] * grid_size[1] * grid_size[2]
        };
        let mut cells: Vec<Vec<u32>> = Vec::new();
        let mut i: usize = 0;
        while i < total
            invariant
                i <= total,
                cells@.len() == i,
                forall|j: int| 0 <= j < i ==> (#[trigger] cells@[j])@ == Seq::<u32>::empty(),
            decreases total - i,
        {
            cells.push(Vec::new());
            i = i + 1;
        }
        let l = FineGridLevel { grid_size, cells };
        assert(l.cell_lists() =~= Seq::new(total_cells(grid_size) as nat, |i: int| Seq::<u32>::empty()));
        l
    }

    /// Flat index of cell `(x, y, z)`.
    pub fn cell_index(&self, x: usize, y: usize, z: usize) -> (i: usize)
        requires
            cell_of(self.grid_size, x as int, y as int, z as int) <= usize::MAX,
        ensures
            i == cell_of(self.grid_size, x as int, y as int, z as int),
    {
        compute_cell_index(x, y, z, self.grid_size)
    }

    /// Record object `object_id` in cell `(x, y, z)`; a full cell keeps its list.
    pub fn add_object(&mut self, x: usize, y: usize, z: usize, object_id: u32)
        requires
            old(self).well_formed(),
            cell_of(old(self).grid_size, x as int, y as int, z as int) < old(self).cells@.len(),
        ensures
            final(self).well_formed(),
            final(self).grid_size == old(self).grid_size,
            ({
                let i = cell_of(old(self).grid_size, x as int, y as int, z as int);
                final(self).cell_lists() == old(self).cell_lists().update(i, with_object(old(self).cell_lists()[i], object_id))
            }),
    {
        let idx = self.cell_index(x, y, z);
        let ghost before = self.cell_lists();
        if self.cells[idx].len() < MAX_OBJECTS_PER_CELL {
            self.cells[idx].push(object_id);
        }
        assert(self.cell_lists() =~= before.update(idx as int, with_object(before[idx as int], object_id)));
    }

    /// Record object `object_id` in every cell of the box `lo ..= hi` that lies in the grid.
    pub fn add_object_box(&mut self, lo: [usize; 3], hi: [usize; 3], object_id: u32)
        requires
            old(self).well_formed(),
        ensures
            final(self).well_formed(),
            final(self).grid_size == old(self).grid_size,
            final(self).cell_lists().len() == old(self).cell_lists().len(),
            forall|x: int, y: int, z: int|
                #![trigger cell_of(old(self).grid_size, x, y, z)]
                in_grid(old(self).grid_size, x, y, z) ==> final(self).cell_lists()[cell_of(old(self).grid_size, x, y, z)]
                    == if in_box(lo, hi, x, y, z) {
                    with_object(old(self).cell_lists()[cell_of(old(self).grid_size, x, y, z)], object_id)
                } else {
                    old(self).cell_lists()[cell_of(old(self).grid_size, x, y, z)]
                },
    {
        let ghost orig = self.cell_lists();
        let g = self.grid_size;
        if g[0] == 0 || g[1] == 0 || g[2] == 0 || lo[0] >= g[0] || lo[1] >= g[1] || lo[2] >= g[2]
            || hi[0] < lo[0] || hi[1] < lo[1] || hi[2] < lo[2] {
            return;
        }
        let e = [last_cell(hi[0], g[0]), last_cell(hi[1], g[1]), last_cell(hi[2], g[2])];
        let ghost f = |c: Seq<u32>| with_object(c, object_id);
        proof {
            assert(walk_bounds(g, lo, hi, e));
            lemma_walk_start(g, lo, hi, orig, f);
        }
        let mut z = lo[2];
        while z <= e[2]
            invariant
                self.well_formed(),
                self.grid_size == g,
                walk_bounds(g, lo, hi, e),
                forall|c: Seq<u32>| #[trigger] f(c) == with_object(c, object_id),
                lo[2] <= z <= e[2] + 1,
                walked(g, lo, hi, orig, self.cell_lists(), f, lo[0] as int, lo[1] as int, z as int),
            decreases e[2] + 1 - z,
        {
            let mut y = lo[1];
            while y <= e[1]
                invariant
                    self.well_formed(),
                    self.grid_size == g,
                    walk_bounds(g, lo, hi, e),
                forall|c: Seq<u32>| #[trigger] f(c) == with_object(c, object_id),
                    lo[2] <= z <= e[2],
                    lo[1] <= y <= e[1] + 1,
                    walked(g, lo, hi, orig, self.cell_lists(), f, lo[0] as int, y as int, z as int),
                decreases e[1] + 1 - y,
            {
                let mut x = lo[0];
                while x <= e[0]
                    invariant
                        self.well_formed(),
                        self.grid_size == g,
                        walk_bounds(g, lo, hi, e),
                forall|c: Seq<u32>| #[trigger] f(c) == with_object(c, object_id),
                        lo[2] <= z <= e[2],
                        lo[1] <= y <= e[1],
                        lo[0] <= x <= e[0] + 1,
                        walked(g, lo, hi, orig, self.cell_lists(), f, x as int, y as int, z as int),
                    decreases e[0] + 1 - x,
                {
                    proof {
                        lemma_cell_in_range(g, x as int, y as int, z as int);
                    }
                    let ghost mid = self.cell_lists();
                    self.add_object(x, y, z, object_id);
                    proof {
                        lemma_walk_step(g, lo, hi, e, orig, mid, self.cell_lists(), f, x as int, y as int, z as int);
                    }
                    x = x + 1;
                }
                proof {
                    lemma_walk_row_done(g, lo, hi, e, orig, self.cell_lists(), f, y as int, z as int);
                }
                y = y + 1;
            }
            proof {
                lemma_walk_plane_done(g, lo, hi, e, orig, self.cell_lists(), f, z as int);
            }
            z = z + 1;
        }
        proof {
            lemma_walk_done(g, lo, hi, e, orig, self.cell_lists(), f);
        }
    }

    /// Number of cells that hold at least one object.
    pub fn occupied_cells(&self) -> (n: usize)
        ensures
            n == count_nonempty(self.cell_lists()),
    {
        let mut n: usize = 0;
        let mut i: usize = 0;
        while i < self.cells.len()
            invariant
                i <= self.cells@.len(),
                n == count_nonempty(self.cell_lists().take(i as int)),
                n <= i,
            decreases self.cells@.len() - i,
        {
            assert(self.cell_lists().take(i + 1).drop_last() =~= self.cell_lists().take(i as int));
            if self.cells[i].len() > 0 {
                n = n + 1;
            }
            i = i + 1;
        }
        assert(self.cell_lists().take(i as int) =~= self.cell_lists());
        n
    }

    /// Number of cells holding `MAX_OBJECTS_PER_CELL` objects or more.
    pub fn cells_at_capacity(&self) -> (n: usize)
        ensures
            n == count_full(self.cell_lists()),
    {
        let mut n: usize = 0;
        let mut i: usize = 0;
        while i < self.cells.len()
            invariant
                i <= self.cells@.len(),
                n == count_full(self.cell_lists().take(i as int)),
                n <= i,
            decreases self.cells@.len() - i,
        {
            assert(self.cell_lists().take(i + 1).drop_last() =~= self.cell_lists().take(i as int));
            if self.cells[i].len() >= MAX_OBJECTS_PER_CELL {
                n = n + 1;
            }
            i = i + 1;
        }
        assert(self.cell_lists().take(i as int) =~= self.cell_lists());
        n
    }

    /// Length of the longest object list, 0 for a level without cells.
    pub fn max_objects_in_cell(&self) -> (m: usize)
        ensures
            m == max_list_len(self.cell_lists()),
    {
        let mut m: usize = 0;
        let mut i: usize = 0;
        while i < self.cells.len()
            invariant
                i <= self.cells@.len(),
                m == max_list_len(self.cell_lists().take(i as int)),
            decreases self.cells@.len() - i,
        {
            assert(self.cell_lists().take(i + 1).drop_last() =~= self.cell_lists().take(i as int));
            let len = self.cells[i].len();
            if len > m {
                m = len;
            }
            i = i + 1;
        }
        assert(self.cell_lists().take(i as int) =~= self.cell_lists());
        m
    }
}

/// Number of non-empty lists.
pub open spec fn count_nonempty(s: Seq<Seq<u32>>) -> nat
    decreases s.len(),
{
    if s.len() == 0 {
        0
    } else {
        count_nonempty(s.drop_last()) + if s.last().len() > 0 { 1nat } else { 0nat }
    }
}

/// Number of lists with at least `MAX_OBJECTS_PER_CELL` entries.
pub open spec fn count_full(s: Seq<Seq<u32>>) -> nat
    decreases s.len(),
{
    if s.len() == 0 {
        0
    } else {
        count_full(s.drop_last()) + if s.last().len() >= MAX_OBJECTS_PER_CELL { 1nat } else { 0nat }
    }
}

/// Largest list length, 0 for no lists.
pub open spec fn max_list_len(s: Seq<Seq<u32>>) -> nat
    decreases s.len(),
{
    if s.len() == 0 {
        0
    } else {
        let m = max_list_len(s.drop_last());
        if s.last().len() > m { s.last().len() } else { m }
    }
}

} // verus!
