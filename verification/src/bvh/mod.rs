//! Bounding volume hierarchy over primitive indices.
//!
//! The tree shape, the partition of primitives between children and the flat layout are
//! decided here; measuring primitives (bounds and the choice of a split) is left to two
//! functions supplied by the caller.

pub mod partition;
pub mod laws;

use vstd::prelude::*;
use self::partition::{partition_primitives, partition_result, lemma_partition_run};

verus! {

/// Maximum primitives per leaf node before splitting.
pub const MAX_LEAF_SIZE: usize = 4;

/// BVH node: a leaf holding primitive indices, or an internal node with two children.
#[derive(Debug)]
pub enum BVHNode<B> {
    Leaf { bounds: B, primitive_indices: Vec<u32> },
    Internal { bounds: B, left: Box<BVHNode<B>>, right: Box<BVHNode<B>> },
}

/// `b` is a result that `node_bounds` may give for the primitives `indices`.
pub open spec fn bounds_by<B, F: Fn(&Vec<u32>) -> B>(node_bounds: F, indices: Seq<u32>, b: B) -> bool {
    exists|v: Vec<u32>| v@ == indices && #[trigger] call_ensures(node_bounds, (&v,), b)
}

/// `flags` is a result that `split_sides` may give for the primitives `indices` in a node
/// with bounds `b`.
pub open spec fn split_by<B, G: Fn(&Vec<u32>, &B) -> Vec<bool>>(split_sides: G, indices: Seq<u32>, b: B, flags: Seq<bool>) -> bool {
    exists|v: Vec<u32>, fv: Vec<bool>| v@ == indices && fv@ == flags && #[trigger] call_ensures(split_sides, (&v, &b), fv)
}

/// `n` is a tree built over `indices` from the measurements `node_bounds` and `split_sides`:
/// its bounds are what `node_bounds` gives for `indices`; a node of at most
/// [`MAX_LEAF_SIZE`] primitives, or whose split flags do not match its primitives, is a leaf
/// holding `indices`; otherwise the primitives are partitioned by the flags, and the node is
/// a leaf holding the partitioned indices when one side is empty, else an internal node whose
/// children are built over the two sides.
pub open spec fn follows_measurements<B, F: Fn(&Vec<u32>) -> B, G: Fn(&Vec<u32>, &B) -> Vec<bool>>(
    node_bounds: F,
    split_sides: G,
    n: BVHNode<B>,
    indices: Seq<u32>,
) -> bool
    decreases n,
{
    let len = indices.len();
    match n {
        BVHNode::Leaf { bounds, primitive_indices } => {
            &&& bounds_by(node_bounds, indices, bounds)
            &&& {
                ||| len <= MAX_LEAF_SIZE && primitive_indices@ == indices
                ||| len > MAX_LEAF_SIZE && exists|flags: Seq<bool>|
                    #![trigger split_by(split_sides, indices, bounds, flags)]
                    split_by(split_sides, indices, bounds, flags) && {
                        let pr = partition_result(indices, flags);
                        ||| flags.len() != len && primitive_indices@ == indices
                        ||| flags.len() == len && (pr.2 == 0 || pr.2 == len) && primitive_indices@ == pr.0
                    }
            }
        },
        BVHNode::Internal { bounds, left, right } => {
            &&& bounds_by(node_bounds, indices, bounds)
            &&& len > MAX_LEAF_SIZE
            &&& exists|flags: Seq<bool>|
                #![trigger split_by(split_sides, indices, bounds, flags)]
                split_by(split_sides, indices, bounds, flags) && flags.len() == len && {
                    let pr = partition_result(indices, flags);
                    &&& 0 < pr.2 < len
                    &&& follows_measurements(node_bounds, split_sides, *left, pr.0.subrange(0, pr.2))
                    &&& follows_measurements(node_bounds, split_sides, *right, pr.0.subrange(pr.2, len as int))
                }
        },
    }
}

/// BVH statistics gathered for profiling.
#[derive(Debug, Clone, Copy)]
pub struct BVHStats {
    pub num_nodes: usize,
    pub num_leaves: usize,
    pub max_depth: usize,
    pub total_primitives: usize,
}

/// GPU-oriented flat node: `prim_count == 0` marks an internal node whose right child sits at
/// `prim_offset`; a leaf stores its primitive count and first primitive index.
#[derive(Clone, Copy, Debug)]
pub struct FlatBVHNode<B> {
    pub bounds: B,
    pub prim_count: u32,
    pub prim_offset: u32,
}

/// Primitive indices of the leaves, left to right.
pub open spec fn leaf_indices<B>(n: BVHNode<B>) -> Seq<u32>
    decreases n,
{
    match n {
        BVHNode::Leaf { primitive_indices, .. } => primitive_indices@,
        BVHNode::Internal { left, right, .. } => leaf_indices(*left) + leaf_indices(*right),
    }
}

/// Number of nodes.
pub open spec fn node_count<B>(n: BVHNode<B>) -> nat
    decreases n,
{
    match n {
        BVHNode::Leaf { .. } => 1,
        BVHNode::Internal { left, right, .. } => 1 + node_count(*left) + node_count(*right),
    }
}

/// Number of leaves.
pub open spec fn leaf_count<B>(n: BVHNode<B>) -> nat
    decreases n,
{
    match n {
        BVHNode::Leaf { .. } => 1,
        BVHNode::Internal { left, right, .. } => leaf_count(*left) + leaf_count(*right),
    }
}

/// Depth of the deepest node below `n` (a leaf has height 0).
pub open spec fn height<B>(n: BVHNode<B>) -> nat
    decreases n,
{
    match n {
        BVHNode::Leaf { .. } => 0,
        BVHNode::Internal { left, right, .. } => 1 + if height(*left) >= height(*right) {
            height(*left)
        } else {
            height(*right)
        },
    }
}

/// Every leaf holds at least one primitive.
pub open spec fn well_formed<B>(n: BVHNode<B>) -> bool
    decreases n,
{
    match n {
        BVHNode::Leaf { primitive_indices, .. } => primitive_indices@.len() > 0,
        BVHNode::Internal { left, right, .. } => well_formed(*left) && well_formed(*right),
    }
}

/// The flat layout of `n` when its first node lands at position `base`: a node, then its
/// left subtree, then its right subtree.
pub open spec fn flat_nodes<B>(n: BVHNode<B>, base: int) -> Seq<FlatBVHNode<B>>
    decreases n,
{
    match n {
        BVHNode::Leaf { bounds, primitive_indices } => seq![
            FlatBVHNode {
                bounds,
                prim_count: primitive_indices@.len() as u32,
                prim_offset: primitive_indices@[0],
            },
        ],
        BVHNode::Internal { bounds, left, right } => {
            let l = flat_nodes(*left, base + 1);
            seq![FlatBVHNode { bounds, prim_count: 0, prim_offset: (base + 1 + l.len()) as u32 }]
                + l + flat_nodes(*right, base + 1 + l.len())
        },
    }
}

/// Bounding box of a node.
pub open spec fn node_bounds<B>(n: BVHNode<B>) -> B {
    match n {
        BVHNode::Leaf { bounds, .. } => bounds,
        BVHNode::Internal { bounds, .. } => bounds,
    }
}

/// The bounding boxes of all nodes in preorder: the node, then its left subtree, then its
/// right subtree.
pub open spec fn preorder_bounds<B>(n: BVHNode<B>) -> Seq<B>
    decreases n,
{
    match n {
        BVHNode::Leaf { bounds, .. } => seq![bounds],
        BVHNode::Internal { bounds, left, right } => seq![bounds] + preorder_bounds(*left) + preorder_bounds(
            *right,
        ),
    }
}

/// The indices `0, 1, ..., count - 1`.
pub open spec fn all_primitives(count: nat) -> Seq<u32> {
    Seq::new(count, |i: int| i as u32)
}

/// A tree has fewer levels than nodes.
pub proof fn lemma_height_below_count<B>(n: BVHNode<B>)
    ensures
        height(n) < node_count(n),
        leaf_count(n) <= node_count(n),
    decreases n,
{
    if let BVHNode::Internal { left, right, .. } = n {
        lemma_height_below_count(*left);
        lemma_height_below_count(*right);
    }
}

/// A tree has one node fewer than twice its leaves, since every internal node has two children.
pub proof fn lemma_node_count_from_leaves<B>(n: BVHNode<B>)
    ensures
        node_count(n) == 2 * leaf_count(n) - 1,
        leaf_count(n) >= 1,
    decreases n,
{
    if let BVHNode::Internal { left, right, .. } = n {
        lemma_node_count_from_leaves(*left);
        lemma_node_count_from_leaves(*right);
    }
}

/// In a tree whose leaves are all non-empty there are no more leaves than primitives.
pub proof fn lemma_leaves_at_most_primitives<B>(n: BVHNode<B>)
    requires
        well_formed(n),
    ensures
        leaf_count(n) <= leaf_indices(n).len(),
    decreases n,
{
    if let BVHNode::Internal { left, right, .. } = n {
        lemma_leaves_at_most_primitives(*left);
        lemma_leaves_at_most_primitives(*right);
    }
}

/// The flat layout has one entry per node.
pub proof fn lemma_flat_len<B>(n: BVHNode<B>, base: int)
    ensures
        flat_nodes(n, base).len() == node_count(n),
    decreases n,
{
    if let BVHNode::Internal { left, right, .. } = n {
        lemma_flat_len(*left, base + 1);
        lemma_flat_len(*right, base + 1 + flat_nodes(*left, base + 1).len());
    }
}

impl<B> BVHNode<B> {
    /// Build a BVH over primitives `0..count`, measuring nodes with `node_bounds` and
    /// splitting nodes of more than [`MAX_LEAF_SIZE`] primitives where the flags of
    /// `split_sides` (one per position, `true` for the left side) separate them.
    pub fn build<F: Fn(&Vec<u32>) -> B, G: Fn(&Vec<u32>, &B) -> Vec<bool>>(
        node_bounds: &F,
        split_sides: &G,
        count: usize,
    ) -> (n: Self)
        requires
            0 < count <= u32::MAX,
            forall|v: Vec<u32>| #[trigger] node_bounds.requires((&v,)),
            forall|v: Vec<u32>, b: B| #[trigger] split_sides.requires((&v, &b)),
        ensures
            well_formed(n),
            leaf_indices(n).to_multiset() == all_primitives(count as nat).to_multiset(),
            count <= MAX_LEAF_SIZE ==> n is Leaf && leaf_indices(n) == all_primitives(count as nat),
            follows_measurements(*node_bounds, *split_sides, n, all_primitives(count as nat)),
            leaf_indices(n).len() == count,
            node_count(n) < 2 * count,
    {
        let mut indices: Vec<u32> = Vec::new();
        let mut i: usize = 0;
        while i < count
            invariant
                i <= count <= u32::MAX,
                indices@ == all_primitives(i as nat),
            decreases count - i,
        {
            indices.push(i as u32);
            i = i + 1;
            assert(indices@ =~= all_primitives(i as nat));
        }
        let n = Self::build_recursive(node_bounds, split_sides, indices, 0);
        proof {
            broadcast use vstd::seq_lib::to_multiset_len;

            assert(leaf_indices(n).to_multiset().len() == leaf_indices(n).len());
            assert(all_primitives(count as nat).to_multiset().len() == count);
            lemma_node_count_from_leaves(n);
            lemma_leaves_at_most_primitives(n);
        }
        n
    }

    /// Build the subtree over `indices`.
    fn build_recursive<F: Fn(&Vec<u32>) -> B, G: Fn(&Vec<u32>, &B) -> Vec<bool>>(
        node_bounds: &F,
        split_sides: &G,
        indices: Vec<u32>,
        depth: usize,
    ) -> (n: Self)
        requires
            indices@.len() > 0,
            forall|v: Vec<u32>| #[trigger] node_bounds.requires((&v,)),
            forall|v: Vec<u32>, b: B| #[trigger] split_sides.requires((&v, &b)),
        ensures
            well_formed(n),
            leaf_indices(n).to_multiset() == indices@.to_multiset(),
            indices@.len() <= MAX_LEAF_SIZE ==> n is Leaf && leaf_indices(n) == indices@,
            follows_measurements(*node_bounds, *split_sides, n, indices@),
        decreases indices@.len(),
    {
        let bounds = node_bounds(&indices);
        assert(bounds_by(*node_bounds, indices@, bounds));
        let len = indices.len();
        if len <= MAX_LEAF_SIZE {
            return BVHNode::Leaf { bounds, primitive_indices: indices };
        }
        let mut flags = split_sides(&indices, &bounds);
        let ghost s_in = indices@;
        assert(split_by(*split_sides, s_in, bounds, flags@));
        if flags.len() != len {
            let n = BVHNode::Leaf { bounds, primitive_indices: indices };
            proof {
                let fl = flags@;
                let b0 = n->Leaf_bounds;
                assert(split_by(*split_sides, s_in, b0, fl) && fl.len() != len && n->primitive_indices@ == s_in);
                assert(exists|flags: Seq<bool>|
                    #![trigger split_by(*split_sides, s_in, b0, flags)]
                    split_by(*split_sides, s_in, b0, flags) && {
                        let pr = partition_result(s_in, flags);
                        ||| flags.len() != s_in.len() && n->primitive_indices@ == s_in
                        ||| flags.len() == s_in.len() && (pr.2 == 0 || pr.2 == s_in.len()) && n->primitive_indices@ == pr.0
                    });
                assert(follows_measurements(*node_bounds, *split_sides, n, s_in));
            }
            return n;
        }
        let ghost s0 = indices@;
        let ghost f0 = flags@;
        let mut indices = indices;
        let mid = partition_primitives(&mut indices, &mut flags);
        proof {
            lemma_partition_run(s0, f0, 0, s0.len() as int);
        }
        if mid == 0 || mid == len {
            let n = BVHNode::Leaf { bounds, primitive_indices: indices };
            proof {
                let pr = partition_result(s0, f0);
                let b0 = n->Leaf_bounds;
                assert(split_by(*split_sides, s0, b0, f0) && f0.len() == len && (pr.2 == 0 || pr.2 == len) && n->primitive_indices@ == pr.0);
                assert(exists|flags: Seq<bool>|
                    #![trigger split_by(*split_sides, s0, b0, flags)]
                    split_by(*split_sides, s0, b0, flags) && {
                        let pr = partition_result(s0, flags);
                        ||| flags.len() != s0.len() && n->primitive_indices@ == s0
                        ||| flags.len() == s0.len() && (pr.2 == 0 || pr.2 == s0.len()) && n->primitive_indices@ == pr.0
                    });
                assert(follows_measurements(*node_bounds, *split_sides, n, s0));
            }
            return n;
        }
        let ghost whole = indices@;
        let right_indices = indices.split_off(mid);
        let next_depth = if depth < usize::MAX { depth + 1 } else { depth };
        let ghost left_in = indices@;
        let ghost right_in = right_indices@;
        let left = Box::new(Self::build_recursive(node_bounds, split_sides, indices, next_depth));
        let right = Box::new(Self::build_recursive(node_bounds, split_sides, right_indices, next_depth));
        let n = BVHNode::Internal { bounds, left, right };
        proof {
            broadcast use vstd::seq_lib::lemma_multiset_commutative;

            assert(whole.subrange(0, mid as int) + whole.subrange(mid as int, len as int) =~= whole);
            let pr = partition_result(s0, f0);
            assert(left_in == pr.0.subrange(0, pr.2));
            assert(right_in == pr.0.subrange(pr.2, len as int));
            let b0 = n->Internal_bounds;
            assert(split_by(*split_sides, s0, b0, f0) && f0.len() == len && 0 < pr.2 < len
                && follows_measurements(*node_bounds, *split_sides, *n->left, pr.0.subrange(0, pr.2))
                && follows_measurements(*node_bounds, *split_sides, *n->right, pr.0.subrange(pr.2, len as int)));
            assert(exists|flags: Seq<bool>|
                #![trigger split_by(*split_sides, s0, b0, flags)]
                split_by(*split_sides, s0, b0, flags) && flags.len() == s0.len() && {
                    let pr = partition_result(s0, flags);
                    &&& 0 < pr.2 < s0.len()
                    &&& follows_measurements(*node_bounds, *split_sides, *n->left, pr.0.subrange(0, pr.2))
                    &&& follows_measurements(*node_bounds, *split_sides, *n->right, pr.0.subrange(pr.2, s0.len() as int))
                });
            assert(follows_measurements(*node_bounds, *split_sides, n, s0));
        }
        n
    }

    /// Bounding box of this node.
    pub fn bounds(&self) -> (b: &B)
        ensures
            b == match *self {
                BVHNode::Leaf { bounds, .. } => bounds,
                BVHNode::Internal { bounds, .. } => bounds,
            },
    {
        match self {
            BVHNode::Leaf { bounds, .. } => bounds,
            BVHNode::Internal { bounds, .. } => bounds,
        }
    }

    /// Gather node, leaf, depth and primitive counts.
    pub fn stats(&self) -> (s: BVHStats)
        requires
            node_count(*self) <= usize::MAX,
            leaf_indices(*self).len() <= usize::MAX,
        ensures
            s.num_nodes == node_count(*self),
            s.num_leaves == leaf_count(*self),
            s.max_depth == height(*self),
            s.total_primitives == leaf_indices(*self).len(),
    {
        let mut stats = BVHStats { num_nodes: 0, num_leaves: 0, max_depth: 0, total_primitives: 0 };
        proof {
            lemma_height_below_count(*self);
        }
        self.gather_stats(&mut stats, 0);
        stats
    }

    fn gather_stats(&self, stats: &mut BVHStats, depth: usize)
        requires
            old(stats).num_nodes + node_count(*self) <= usize::MAX,
            old(stats).num_leaves + leaf_count(*self) <= usize::MAX,
            old(stats).total_primitives + leaf_indices(*self).len() <= usize::MAX,
            depth + height(*self) <= usize::MAX,
        ensures
            final(stats).num_nodes == old(stats).num_nodes + node_count(*self),
            final(stats).num_leaves == old(stats).num_leaves + leaf_count(*self),
            final(stats).total_primitives == old(stats).total_primitives + leaf_indices(*self).len(),
            final(stats).max_depth == if old(stats).max_depth >= depth + height(*self) {
                old(stats).max_depth as int
            } else {
                depth + height(*self)
            },
        decreases *self,
    {
        proof {
            lemma_height_below_count(*self);
        }
        stats.num_nodes = stats.num_nodes + 1;
        if depth > stats.max_depth {
            stats.max_depth = depth;
        }
        match self {
            BVHNode::Leaf { primitive_indices, .. } => {
                stats.num_leaves = stats.num_leaves + 1;
                stats.total_primitives = stats.total_primitives + primitive_indices.len();
            },
            BVHNode::Internal { left, right, .. } => {
                left.gather_stats(stats, depth + 1);
                right.gather_stats(stats, depth + 1);
            },
        }
    }
}

impl<B: Copy> BVHNode<B> {
    /// Flatten the tree into its GPU layout, node before left subtree before right subtree.
    pub fn flatten(&self) -> (nodes: Vec<FlatBVHNode<B>>)
        requires
            well_formed(*self),
        ensures
            nodes@ == flat_nodes(*self, 0),
            nodes@.len() == preorder_bounds(*self).len(),
            forall|i: int| 0 <= i < nodes@.len() ==> #[trigger] nodes@[i].bounds == preorder_bounds(*self)[i],
            nodes@[0].bounds == node_bounds(*self),
    {
        let mut nodes: Vec<FlatBVHNode<B>> = Vec::new();
        self.flatten_recursive(&mut nodes);
        assert(nodes@ =~= flat_nodes(*self, 0));
        proof {
            self::laws::lemma_flat_bounds(*self, 0);
        }
        nodes
    }

    fn flatten_recursive(&self, nodes: &mut Vec<FlatBVHNode<B>>) -> (idx: u32)
        requires
            well_formed(*self),
        ensures
            final(nodes)@ == old(nodes)@ + flat_nodes(*self, old(nodes)@.len() as int),
            idx == old(nodes)@.len() as u32,
        decreases *self,
    {
        let node_idx = nodes.len() as u32;
        let ghost base = nodes@.len() as int;
        let ghost start = nodes@;
        match self {
            BVHNode::Leaf { bounds, primitive_indices } => {
                nodes.push(
                    FlatBVHNode {
                        bounds: *bounds,
                        prim_count: primitive_indices.len() as u32,
                        prim_offset: primitive_indices[0],
                    },
                );
                assert(nodes@ =~= start + flat_nodes(*self, base));
            },
            BVHNode::Internal { bounds, left, right } => {
                let slot = nodes.len();
                nodes.push(FlatBVHNode { bounds: *bounds, prim_count: 0, prim_offset: 0 });
                left.flatten_recursive(nodes);
                let ghost after_left = nodes@;
                let right_idx = right.flatten_recursive(nodes);
                nodes.set(slot, FlatBVHNode { bounds: *bounds, prim_count: 0, prim_offset: right_idx });
                proof {
                    let l = flat_nodes(**left, base + 1);
                    let r = flat_nodes(**right, base + 1 + l.len());
                    assert(after_left =~= start + seq![FlatBVHNode { bounds: *bounds, prim_count: 0u32, prim_offset: 0u32 }] + l);
                    assert(nodes@ =~= start + flat_nodes(*self, base));
                }
            },
        }
        node_idx
    }
}

} // verus!
