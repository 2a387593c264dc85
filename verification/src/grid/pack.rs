//! Layout of the grid levels in the buffers read by the GPU traversal.

use vstd::prelude::*;
use super::levels::{CoarseGridLevel, FineGridLevel, MAX_OBJECTS_PER_CELL};

verus! {

/// Number of levels the GPU traversal walks: the coarse levels, then the fine one.
pub const GRID_LEVELS: usize = 4;

/// Largest cell count along one axis of a level.
pub const MAX_GRID_DIM: usize = 1024;

/// Words in the GPU record of one fine cell: the object slots, the count, three of padding.
pub const FINE_CELL_WORDS: usize = 260;

/// The four bytes of `w`, least significant first when `little`, else most significant first.
pub open spec fn word_bytes(w: u32, little: bool) -> Seq<u8> {
    let b0 = (w % 256) as u8;
    let b1 = ((w / 256) % 256) as u8;
    let b2 = ((w / 65536) % 256) as u8;
    let b3 = (w / 16777216) as u8;
    if little {
        seq![b0, b1, b2, b3]
    } else {
        seq![b3, b2, b1, b0]
    }
}

/// The words laid out one after another, each in the byte order given by `little`.
pub open spec fn encode_words(ws: Seq<u32>, little: bool) -> Seq<u8>
    decreases ws.len(),
{
    if ws.len() == 0 {
        Seq::empty()
    } else {
        encode_words(ws.drop_last(), little) + word_bytes(ws.last(), little)
    }
}

/// Four bytes per word.
pub proof fn lemma_encode_words_len(ws: Seq<u32>, little: bool)
    ensures
        encode_words(ws, little).len() == 4 * ws.len(),
    decreases ws.len(),
{
    if ws.len() > 0 {
        lemma_encode_words_len(ws.drop_last(), little);
    }
}

/// The bytes of `words` as they lie in memory: `bytemuck::cast_slice` from `u32` to `u8`,
/// copied into a vector. The cast reinterprets memory, so the byte order is that of the
/// machine; the contract says only that it is one of the two orders, the same for every word.
#[verifier::external_body]
pub(crate) fn words_to_bytes(words: &[u32]) -> (bytes: Vec<u8>)
    ensures
        bytes@ == encode_words(words@, true) || bytes@ == encode_words(words@, false),
{
    bytemuck::cast_slice::<u32, u8>(words).to_vec()
}

/// Number of stored objects in a cell record: the list length, at most `MAX_OBJECTS_PER_CELL`.
pub open spec fn stored_count(cell: Seq<u32>) -> int {
    if cell.len() < MAX_OBJECTS_PER_CELL {
        cell.len() as int
    } else {
        MAX_OBJECTS_PER_CELL as int
    }
}

/// The GPU record of one cell, as words: object slots (its first `MAX_OBJECTS_PER_CELL`
/// objects, unused slots zero), the length of its list (as a `u32`, wrapping), padding.
pub open spec fn cell_record(cell: Seq<u32>) -> Seq<u32> {
    Seq::new(MAX_OBJECTS_PER_CELL as nat, |i: int| if i < stored_count(cell) { cell[i] } else { 0u32 })
        + seq![cell.len() as u32, 0u32, 0u32, 0u32]
}

/// The records of all cells, one after another.
pub open spec fn cell_records(cells: Seq<Seq<u32>>) -> Seq<u32>
    decreases cells.len(),
{
    if cells.len() == 0 {
        Seq::empty()
    } else {
        cell_records(cells.drop_last()) + cell_record(cells.last())
    }
}

/// The counts of all coarse levels, one level after another.
pub open spec fn level_counts(levels: Seq<Seq<u8>>) -> Seq<u8>
    decreases levels.len(),
{
    if levels.len() == 0 {
        Seq::empty()
    } else {
        level_counts(levels.drop_last()) + levels.last()
    }
}

/// Each record has `FINE_CELL_WORDS` words.
pub proof fn lemma_cell_records_len(cells: Seq<Seq<u32>>)
    ensures
        cell_records(cells).len() == FINE_CELL_WORDS * cells.len(),
    decreases cells.len(),
{
    if cells.len() > 0 {
        lemma_cell_records_len(cells.drop_last());
    }
}

/// The GPU record of one fine cell.
#[derive(Clone, Copy, Debug)]
pub struct FineCellData {
    pub object_indices: [u32; 256],
    pub count: u32,
    pub _pad: [u32; 3],
}

impl FineCellData {
    /// The record as words, in memory order.
    pub open spec fn words(&self) -> Seq<u32> {
        self.object_indices@ + seq![self.count] + self._pad@
    }

    /// The record of a cell holding `cell`: its first `MAX_OBJECTS_PER_CELL` objects and the
    /// length of its list.
    pub fn from_cell(cell: &[u32]) -> (d: Self)
        ensures
            d.words() == cell_record(cell@),
    {
        let n: usize = if cell.len() < MAX_OBJECTS_PER_CELL {
            cell.len()
        } else {
            MAX_OBJECTS_PER_CELL
        };
        let mut object_indices = [0u32; 256];
        let mut i: usize = 0;
        while i < n
            invariant
                n == stored_count(cell@),
                n <= cell@.len(),
                n <= 256,
                i <= n,
                forall|j: int| 0 <= j < i ==> object_indices@[j] == cell@[j],
                forall|j: int| i <= j < 256 ==> object_indices@[j] == 0,
                object_indices@.len() == 256,
            decreases n - i,
        {
            object_indices[i] = cell[i];
            i = i + 1;
        }
        let count = cell.len() as u32;
        let d = FineCellData { object_indices, count, _pad: [0u32; 3] };
        assert(d.words() =~= cell_record(cell@));
        d
    }

    /// The record as words, in memory order.
    pub fn to_words(&self) -> (w: Vec<u32>)
        ensures
            w@ == self.words(),
    {
        let mut w: Vec<u32> = Vec::new();
        let mut i: usize = 0;
        while i < 256
            invariant
                i <= 256,
                w@ == self.object_indices@.take(i as int),
            decreases 256 - i,
        {
            w.push(self.object_indices[i]);
            i = i + 1;
            assert(w@ =~= self.object_indices@.take(i as int));
        }
        w.push(self.count);
        w.push(self._pad[0]);
        w.push(self._pad[1]);
        w.push(self._pad[2]);
        assert(w@ =~= self.words());
        w
    }
}

/// The records of all cells of the fine level, as words.
pub fn fine_cell_words(level: &FineGridLevel) -> (w: Vec<u32>)
    ensures
        w@ == cell_records(level.cell_lists()),
{
    let mut w: Vec<u32> = Vec::new();
    let mut i: usize = 0;
    while i < level.cells.len()
        invariant
            i <= level.cells@.len(),
            w@ == cell_records(level.cell_lists().take(i as int)),
        decreases level.cells@.len() - i,
    {
        let d = FineCellData::from_cell(level.cells[i].as_slice());
        let rec = d.to_words();
        let mut k: usize = 0;
        let ghost start = w@;
        while k < rec.len()
            invariant
                k <= rec@.len(),
                w@ == start + rec@.take(k as int),
            decreases rec@.len() - k,
        {
            w.push(rec[k]);
            k = k + 1;
            assert(w@ =~= start + rec@.take(k as int));
        }
        assert(rec@.take(k as int) =~= rec@);
        assert(level.cell_lists().take(i + 1).drop_last() =~= level.cell_lists().take(i as int));
        i = i + 1;
    }
    assert(level.cell_lists().take(i as int) =~= level.cell_lists());
    w
}

/// The fine level as the GPU reads it: one record per cell, as bytes in memory order.
pub fn pack_fine_cells(level: &FineGridLevel) -> (bytes: Vec<u8>)
    ensures
        bytes@ == encode_words(cell_records(level.cell_lists()), true)
            || bytes@ == encode_words(cell_records(level.cell_lists()), false),
        bytes@.len() == 4 * FINE_CELL_WORDS * level.cells@.len(),
{
    let w = fine_cell_words(level);
    let bytes = words_to_bytes(w.as_slice());
    proof {
        lemma_encode_words_len(w@, true);
        lemma_encode_words_len(w@, false);
        lemma_cell_records_len(level.cell_lists());
    }
    bytes
}

/// The counts of all coarse levels, one level after another.
pub fn pack_coarse_counts(levels: &[CoarseGridLevel]) -> (c: Vec<u8>)
    ensures
        c@ == level_counts(levels@.map_values(|l: CoarseGridLevel| l.counts@)),
{
    let ghost all = levels@.map_values(|l: CoarseGridLevel| l.counts@);
    let mut c: Vec<u8> = Vec::new();
    let mut i: usize = 0;
    while i < levels.len()
        invariant
            i <= levels@.len(),
            all == levels@.map_values(|l: CoarseGridLevel| l.counts@),
            c@ == level_counts(all.take(i as int)),
        decreases levels@.len() - i,
    {
        let ghost start = c@;
        let mut k: usize = 0;
        while k < levels[i].counts.len()
            invariant
                i < levels@.len(),
                k <= levels@[i as int].counts@.len(),
                c@ == start + levels@[i as int].counts@.take(k as int),
            decreases levels@[i as int].counts@.len() - k,
        {
            c.push(levels[i].counts[k]);
            k = k + 1;
            assert(c@ =~= start + levels@[i as int].counts@.take(k as int));
        }
        assert(levels@[i as int].counts@.take(k as int) =~= levels@[i as int].counts@);
        assert(all.take(i + 1).drop_last() =~= all.take(i as int));
        i = i + 1;
    }
    assert(all.take(i as int) =~= all);
    c
}

/// Cells along one axis: at least one, at most `MAX_GRID_DIM`.
pub fn clamp_grid_dim(n: usize) -> (d: usize)
    ensures
        d == if n < 1 { 1 } else if n > MAX_GRID_DIM { MAX_GRID_DIM as int } else { n as int },
{
    if n < 1 {
        1
    } else if n > MAX_GRID_DIM {
        MAX_GRID_DIM
    } else {
        n
    }
}

/// The non-negative part of the cell range `min_cell ..= max_cell` along one axis, or `None`
/// when no cell of it has a non-negative coordinate.
pub fn cell_span(min_cell: i32, max_cell: i32) -> (s: Option<(usize, usize)>)
    ensures
        s is None <==> (max_cell < 0 || max_cell < min_cell),
        s matches Some((lo, hi)) ==> lo == (if min_cell < 0 { 0 } else { min_cell as int }) && hi == max_cell,
{
    if max_cell < 0 || max_cell < min_cell {
        None
    } else {
        let lo: usize = if min_cell < 0 { 0 } else { min_cell as usize };
        Some((lo, max_cell as usize))
    }
}

/// One row of the GPU size table: the cell counts along each axis, then zero.
pub open spec fn size_row(g: [usize; 3]) -> Seq<u32> {
    seq![g[0] as u32, g[1] as u32, g[2] as u32, 0u32]
}

/// The GPU size table: one row per coarse level, the fine level in the last row,
/// rows that no level fills left at zero.
pub fn grid_size_table(coarse: &[CoarseGridLevel], fine: &FineGridLevel) -> (t: [[u32; 4]; 4])
    requires
        coarse@.len() <= GRID_LEVELS,
    ensures
        t@[GRID_LEVELS - 1]@ == size_row(fine.grid_size),
        forall|i: int| 0 <= i < GRID_LEVELS - 1 ==> (#[trigger] t@[i])@ == if i < coarse@.len() {
            size_row(coarse@[i].grid_size)
        } else {
            seq![0u32, 0u32, 0u32, 0u32]
        },
{
    let mut t = [[0u32; 4]; 4];
    let mut i: usize = 0;
    while i < coarse.len()
        invariant
            i <= coarse@.len() <= GRID_LEVELS,
            forall|j: int| 0 <= j < i ==> (#[trigger] t@[j])@ == size_row(coarse@[j].grid_size),
            forall|j: int| i <= j < 4 ==> (#[trigger] t@[j])@ == seq![0u32, 0u32, 0u32, 0u32],
        decreases coarse@.len() - i,
    {
        let g = coarse[i].grid_size;
        let row: [u32; 4] = [g[0] as u32, g[1] as u32, g[2] as u32, 0];
        assert(row@ =~= size_row(g));
        t[i] = row;
        i = i + 1;
    }
    let g = fine.grid_size;
    let row: [u32; 4] = [g[0] as u32, g[1] as u32, g[2] as u32, 0];
    assert(row@ =~= size_row(g));
    t[GRID_LEVELS - 1] = row;
    t
}

} // verus!
