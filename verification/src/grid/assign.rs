//! Placing one object in every level of a hierarchical grid.

use vstd::prelude::*;
use super::cells::{cell_of, in_grid, in_box, lemma_cell_in_range};
use super::levels::{CoarseGridLevel, FineGridLevel, saturating_inc, with_object, MAX_OBJECTS_PER_CELL};

verus! {

/// `after` is `before` with every cell of the box `lo ..= hi` that lies in the grid counted
/// once more (saturating at 255) and every other cell unchanged.
pub open spec fn counted_in_box(g: [usize; 3], before: Seq<u8>, after: Seq<u8>, lo: [usize; 3], hi: [usize; 3]) -> bool {
    &&& after.len() == before.len()
    &&& forall|x: int, y: int, z: int|
        #![trigger cell_of(g, x, y, z)]
        in_grid(g, x, y, z) ==> after[cell_of(g, x, y, z)] == if in_box(lo, hi, x, y, z) {
            saturating_inc(before[cell_of(g, x, y, z)])
        } else {
            before[cell_of(g, x, y, z)]
        }
}

/// `after` is `before` with `id` offered to every cell of the box `lo ..= hi` that lies in
/// the grid and every other cell unchanged.
pub open spec fn listed_in_box(
    g: [usize; 3],
    before: Seq<Seq<u32>>,
    after: Seq<Seq<u32>>,
    lo: [usize; 3],
    hi: [usize; 3],
    id: u32,
) -> bool {
    &&& after.len() == before.len()
    &&& forall|x: int, y: int, z: int|
        #![trigger cell_of(g, x, y, z)]
        in_grid(g, x, y, z) ==> after[cell_of(g, x, y, z)] == if in_box(lo, hi, x, y, z) {
            with_object(before[cell_of(g, x, y, z)], id)
        } else {
            before[cell_of(g, x, y, z)]
        }
}

/// Count object `id` in coarse level `i` over the cell box `coarse_boxes[i]`, for every
/// level, and list it in the fine cells of `fine_box`.
pub fn assign_object(
    coarse: &mut Vec<CoarseGridLevel>,
    coarse_boxes: &[([usize; 3], [usize; 3])],
    fine: &mut FineGridLevel,
    fine_box: ([usize; 3], [usize; 3]),
    id: u32,
)
    requires
        old(coarse)@.len() == coarse_boxes@.len(),
        forall|i: int| 0 <= i < old(coarse)@.len() ==> (#[trigger] old(coarse)@[i]).well_formed(),
        old(fine).well_formed(),
    ensures
        final(coarse)@.len() == old(coarse)@.len(),
        forall|i: int|
            #![trigger final(coarse)@[i]]
            0 <= i < old(coarse)@.len() ==> {
                &&& final(coarse)@[i].well_formed()
                &&& final(coarse)@[i].grid_size == old(coarse)@[i].grid_size
                &&& counted_in_box(
                    old(coarse)@[i].grid_size,
                    old(coarse)@[i].counts@,
                    final(coarse)@[i].counts@,
                    coarse_boxes@[i].0,
                    coarse_boxes@[i].1,
                )
            },
        final(fine).well_formed(),
        final(fine).grid_size == old(fine).grid_size,
        listed_in_box(old(fine).grid_size, old(fine).cell_lists(), final(fine).cell_lists(), fine_box.0, fine_box.1, id),
{
    let ghost before = coarse@;
    let mut i: usize = 0;
    while i < coarse.len()
        invariant
            coarse@.len() == before.len() == coarse_boxes@.len(),
            i <= coarse@.len(),
            forall|j: int| i <= j < coarse@.len() ==> #[trigger] coarse@[j] == before[j],
            forall|j: int| 0 <= j < before.len() ==> (#[trigger] before[j]).well_formed(),
            forall|j: int|
                #![trigger coarse@[j]]
                0 <= j < i ==> {
                    &&& coarse@[j].well_formed()
                    &&& coarse@[j].grid_size == before[j].grid_size
                    &&& counted_in_box(
                        before[j].grid_size,
                        before[j].counts@,
                        coarse@[j].counts@,
                        coarse_boxes@[j].0,
                        coarse_boxes@[j].1,
                    )
                },
        decreases coarse@.len() - i,
    {
        let (lo, hi) = coarse_boxes[i];
        coarse[i].increment_box(lo, hi);
        i = i + 1;
    }
    fine.add_object_box(fine_box.0, fine_box.1, id);
}

/// A cell box: inclusive lowest and highest cell coordinates.
pub type CellBox = ([usize; 3], [usize; 3]);

/// How many of `boxes` cover cell `(x, y, z)`.
pub open spec fn covering_count(boxes: Seq<CellBox>, x: int, y: int, z: int) -> nat
    decreases boxes.len(),
{
    if boxes.len() == 0 {
        0
    } else {
        covering_count(boxes.drop_last(), x, y, z) + if in_box(boxes.last().0, boxes.last().1, x, y, z) {
            1nat
        } else {
            0nat
        }
    }
}

/// Positions in `boxes`, in increasing order, of the boxes that cover cell `(x, y, z)`.
pub open spec fn covering_ids(boxes: Seq<CellBox>, x: int, y: int, z: int) -> Seq<u32>
    decreases boxes.len(),
{
    if boxes.len() == 0 {
        Seq::empty()
    } else {
        let rest = covering_ids(boxes.drop_last(), x, y, z);
        if in_box(boxes.last().0, boxes.last().1, x, y, z) {
            rest.push((boxes.len() - 1) as u32)
        } else {
            rest
        }
    }
}

/// An occupancy count as a coarse cell stores it: the true count, stopping at 255.
pub open spec fn capped_count(c: nat) -> u8 {
    if c < 255 {
        c as u8
    } else {
        255
    }
}

/// The ids a fine cell keeps: the first `MAX_OBJECTS_PER_CELL` of those offered to it.
pub open spec fn first_ids(ids: Seq<u32>) -> Seq<u32> {
    if ids.len() <= MAX_OBJECTS_PER_CELL {
        ids
    } else {
        ids.take(MAX_OBJECTS_PER_CELL as int)
    }
}

/// The boxes of the first `n` objects in coarse level `l`.
pub open spec fn level_boxes(coarse_boxes: Seq<Vec<CellBox>>, l: int, n: int) -> Seq<CellBox> {
    Seq::new(n as nat, |j: int| coarse_boxes[j]@[l])
}

proof fn lemma_capped_step(c: nat)
    ensures
        saturating_inc(capped_count(c)) == capped_count(c + 1),
{
}

proof fn lemma_first_ids_step(ids: Seq<u32>, id: u32)
    ensures
        with_object(first_ids(ids), id) == first_ids(ids.push(id)),
{
    if ids.len() < MAX_OBJECTS_PER_CELL {
    } else {
        assert(ids.push(id).take(MAX_OBJECTS_PER_CELL as int) =~= first_ids(ids));
    }
}

/// Count and list every object in turn, object `j` with id `j`, in levels that start empty:
/// each coarse cell ends with the number of objects whose box in that level covers it
/// (stopping at 255), and each fine cell with the ids of the objects whose fine box covers
/// it, in increasing order, the first `MAX_OBJECTS_PER_CELL` of them.
pub fn assign_objects(
    coarse: &mut Vec<CoarseGridLevel>,
    fine: &mut FineGridLevel,
    coarse_boxes: &Vec<Vec<CellBox>>,
    fine_boxes: &Vec<CellBox>,
)
    requires
        coarse_boxes@.len() == fine_boxes@.len(),
        fine_boxes@.len() <= u32::MAX + 1,
        forall|j: int| 0 <= j < coarse_boxes@.len() ==> (#[trigger] coarse_boxes@[j])@.len() == old(coarse)@.len(),
        forall|l: int|
            #![trigger old(coarse)@[l]]
            0 <= l < old(coarse)@.len() ==> {
                &&& old(coarse)@[l].well_formed()
                &&& forall|i: int| 0 <= i < old(coarse)@[l].counts@.len() ==> old(coarse)@[l].counts@[i] == 0
            },
        old(fine).well_formed(),
        forall|i: int| 0 <= i < old(fine).cell_lists().len() ==> old(fine).cell_lists()[i].len() == 0,
    ensures
        final(coarse)@.len() == old(coarse)@.len(),
        forall|l: int|
            #![trigger final(coarse)@[l]]
            0 <= l < old(coarse)@.len() ==> {
                let g = old(coarse)@[l].grid_size;
                &&& final(coarse)@[l].well_formed()
                &&& final(coarse)@[l].grid_size == g
                &&& forall|x: int, y: int, z: int|
                    #![trigger cell_of(g, x, y, z)]
                    in_grid(g, x, y, z) ==> final(coarse)@[l].counts@[cell_of(g, x, y, z)]
                        == capped_count(covering_count(level_boxes(coarse_boxes@, l, coarse_boxes@.len() as int), x, y, z))
            },
        final(fine).well_formed(),
        final(fine).grid_size == old(fine).grid_size,
        forall|x: int, y: int, z: int|
            #![trigger cell_of(old(fine).grid_size, x, y, z)]
            in_grid(old(fine).grid_size, x, y, z) ==> final(fine).cell_lists()[cell_of(old(fine).grid_size, x, y, z)]
                == first_ids(covering_ids(fine_boxes@, x, y, z)),
{
    let ghost c0 = coarse@;
    let ghost gf = fine.grid_size;
    let n = fine_boxes.len();
    proof {
        assert forall|l: int|
            #![trigger coarse@[l]]
            0 <= l < c0.len() implies forall|x: int, y: int, z: int|
                #![trigger cell_of(c0[l].grid_size, x, y, z)]
                in_grid(c0[l].grid_size, x, y, z) ==> coarse@[l].counts@[cell_of(c0[l].grid_size, x, y, z)]
                    == capped_count(covering_count(level_boxes(coarse_boxes@, l, 0), x, y, z)) by {
            assert forall|x: int, y: int, z: int|
                #![trigger cell_of(c0[l].grid_size, x, y, z)]
                in_grid(c0[l].grid_size, x, y, z) implies coarse@[l].counts@[cell_of(c0[l].grid_size, x, y, z)]
                    == capped_count(covering_count(level_boxes(coarse_boxes@, l, 0), x, y, z)) by {
                lemma_cell_in_range(c0[l].grid_size, x, y, z);
            }
        }
        assert forall|x: int, y: int, z: int|
            #![trigger cell_of(gf, x, y, z)]
            in_grid(gf, x, y, z) implies fine.cell_lists()[cell_of(gf, x, y, z)]
                == first_ids(covering_ids(fine_boxes@.take(0), x, y, z)) by {
            lemma_cell_in_range(gf, x, y, z);
        }
    }
    let mut j: usize = 0;
    while j < n
        invariant
            n == fine_boxes@.len() == coarse_boxes@.len(),
            n <= u32::MAX + 1,
            j <= n,
            coarse@.len() == c0.len(),
            forall|k: int| 0 <= k < coarse_boxes@.len() ==> (#[trigger] coarse_boxes@[k])@.len() == c0.len(),
            forall|l: int|
                #![trigger coarse@[l]]
                0 <= l < c0.len() ==> {
                    let g = c0[l].grid_size;
                    &&& coarse@[l].well_formed()
                    &&& coarse@[l].grid_size == g
                    &&& forall|x: int, y: int, z: int|
                        #![trigger cell_of(g, x, y, z)]
                        in_grid(g, x, y, z) ==> coarse@[l].counts@[cell_of(g, x, y, z)]
                            == capped_count(covering_count(level_boxes(coarse_boxes@, l, j as int), x, y, z))
                },
            fine.well_formed(),
            fine.grid_size == gf,
            forall|x: int, y: int, z: int|
                #![trigger cell_of(gf, x, y, z)]
                in_grid(gf, x, y, z) ==> fine.cell_lists()[cell_of(gf, x, y, z)]
                    == first_ids(covering_ids(fine_boxes@.take(j as int), x, y, z)),
        decreases n - j,
    {
        let ghost cb = coarse@;
        let ghost fb = fine.cell_lists();
        let boxes = coarse_boxes[j].as_slice();
        assign_object(coarse, boxes, fine, fine_boxes[j], j as u32);
        proof {
            assert forall|l: int|
                #![trigger coarse@[l]]
                0 <= l < c0.len() implies forall|x: int, y: int, z: int|
                    #![trigger cell_of(c0[l].grid_size, x, y, z)]
                    in_grid(c0[l].grid_size, x, y, z) ==> coarse@[l].counts@[cell_of(c0[l].grid_size, x, y, z)]
                        == capped_count(covering_count(level_boxes(coarse_boxes@, l, j + 1), x, y, z)) by {
                let g = c0[l].grid_size;
                assert(level_boxes(coarse_boxes@, l, j + 1).drop_last() =~= level_boxes(coarse_boxes@, l, j as int));
                assert(level_boxes(coarse_boxes@, l, j + 1).last() == coarse_boxes@[j as int]@[l]);
                assert forall|x: int, y: int, z: int|
                    #![trigger cell_of(g, x, y, z)]
                    in_grid(g, x, y, z) implies coarse@[l].counts@[cell_of(g, x, y, z)]
                        == capped_count(covering_count(level_boxes(coarse_boxes@, l, j + 1), x, y, z)) by {
                    lemma_capped_step(covering_count(level_boxes(coarse_boxes@, l, j as int), x, y, z));
                }
            }
            assert forall|x: int, y: int, z: int|
                #![trigger cell_of(gf, x, y, z)]
                in_grid(gf, x, y, z) implies fine.cell_lists()[cell_of(gf, x, y, z)]
                    == first_ids(covering_ids(fine_boxes@.take(j + 1), x, y, z)) by {
                assert(fine_boxes@.take(j + 1).drop_last() =~= fine_boxes@.take(j as int));
                lemma_first_ids_step(covering_ids(fine_boxes@.take(j as int), x, y, z), j as u32);
            }
        }
        j = j + 1;
    }
    proof {
        assert(fine_boxes@.take(n as int) =~= fine_boxes@);
    }
}

} // verus!
