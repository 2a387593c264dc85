//! What a built hierarchy promises about its leaves and its flat layout.

use vstd::prelude::*;
use super::{BVHNode, FlatBVHNode, leaf_indices, all_primitives, flat_nodes, node_count, lemma_flat_len, node_bounds, preorder_bounds};

verus! {

/// A tree whose leaves hold the primitives `0..count` (what `BVHNode::build` returns) holds
/// each of them in exactly one leaf position, and holds nothing else.
pub proof fn lemma_each_primitive_in_one_leaf<B>(n: BVHNode<B>, count: nat)
    requires
        count <= u32::MAX,
        leaf_indices(n).to_multiset() == all_primitives(count).to_multiset(),
    ensures
        leaf_indices(n).len() == count,
        forall|i: u32| i < count ==> #[trigger] leaf_indices(n).to_multiset().count(i) == 1,
        forall|x: u32| #[trigger] leaf_indices(n).contains(x) ==> x < count,
{
    broadcast use vstd::seq_lib::to_multiset_contains;
    broadcast use vstd::seq_lib::to_multiset_len;

    let all = all_primitives(count);
    assert(all.no_duplicates()) by {
        assert forall|a: int, b: int| 0 <= a < all.len() && 0 <= b < all.len() && a != b implies all[a] != all[b] by {
            assert(all[a] == a as u32 && all[b] == b as u32);
        }
    }
    all.lemma_multiset_has_no_duplicates();
    assert(leaf_indices(n).to_multiset().len() == leaf_indices(n).len());
    assert(all.to_multiset().len() == all.len());
    assert forall|i: u32| i < count implies #[trigger] leaf_indices(n).to_multiset().count(i) == 1 by {
        assert(all[i as int] == i);
        assert(all.contains(i));
    }
    assert forall|x: u32| #[trigger] leaf_indices(n).contains(x) implies x < count by {
        assert(all.to_multiset().count(x) > 0);
        assert(all.contains(x));
        let k = choose|k: int| 0 <= k < all.len() && all[k] == x;
        assert(all[k] == k as u32);
    }
}

/// In the flat layout an internal node is followed by its left subtree, and its
/// `prim_offset` is the position of its right child, just past the left subtree.
pub proof fn lemma_flat_right_child<B>(n: BVHNode<B>, base: int)
    requires
        n is Internal,
    ensures
        ({
            let flat = flat_nodes(n, base);
            let left = *n->left;
            let right = *n->right;
            &&& flat[0].prim_count == 0
            &&& flat[0].prim_offset == (base + 1 + node_count(left)) as u32
            &&& flat.subrange(1, 1 + node_count(left) as int) == flat_nodes(left, base + 1)
            &&& flat.subrange(1 + node_count(left) as int, flat.len() as int)
                == flat_nodes(right, base + 1 + node_count(left))
        }),
{
    let left = *n->left;
    let right = *n->right;
    lemma_flat_len(left, base + 1);
    lemma_flat_len(right, base + 1 + node_count(left));
    let l = flat_nodes(left, base + 1);
    let r = flat_nodes(right, base + 1 + l.len());
    let flat = flat_nodes(n, base);
    let head = seq![FlatBVHNode { bounds: n->Internal_bounds, prim_count: 0u32, prim_offset: (base + 1 + l.len()) as u32 }];
    assert(flat == head + l + r);
    assert(flat.subrange(1, 1 + l.len() as int) =~= l);
    assert(flat.subrange(1 + l.len() as int, flat.len() as int) =~= r);
}

/// Each flat entry carries the bounds of the node it stands for: the entries, in order, have
/// the bounds of the nodes in preorder, so the first entry has the bounds of the node itself.
pub proof fn lemma_flat_bounds<B>(n: BVHNode<B>, base: int)
    ensures
        flat_nodes(n, base).len() == preorder_bounds(n).len(),
        forall|i: int|
            0 <= i < flat_nodes(n, base).len() ==> #[trigger] flat_nodes(n, base)[i].bounds == preorder_bounds(n)[i],
        flat_nodes(n, base)[0].bounds == node_bounds(n),
    decreases n,
{
    match n {
        BVHNode::Leaf { .. } => {},
        BVHNode::Internal { bounds, left, right } => {
            let l = flat_nodes(*left, base + 1);
            let r = flat_nodes(*right, base + 1 + l.len());
            lemma_flat_bounds(*left, base + 1);
            lemma_flat_bounds(*right, base + 1 + l.len());
            let head = seq![FlatBVHNode { bounds, prim_count: 0u32, prim_offset: (base + 1 + l.len()) as u32 }];
            let flat = flat_nodes(n, base);
            let pre = preorder_bounds(n);
            assert(flat == head + l + r);
            assert(pre == seq![bounds] + preorder_bounds(*left) + preorder_bounds(*right));
            assert forall|i: int| 0 <= i < flat.len() implies #[trigger] flat[i].bounds == pre[i] by {
                if i == 0 {
                } else if i < 1 + l.len() {
                    assert(flat[i] == l[i - 1]);
                } else {
                    assert(flat[i] == r[i - 1 - l.len()]);
                }
            }
        },
    }
}

/// In the flat layout an internal node's entry has its own bounds, the entry after it those
/// of its left child, and the entry its `prim_offset` points at those of its right child.
pub proof fn lemma_flat_children_bounds<B>(n: BVHNode<B>, base: int)
    requires
        n is Internal,
        0 <= base,
        base + node_count(n) <= u32::MAX,
    ensures
        ({
            let flat = flat_nodes(n, base);
            &&& flat[0].bounds == n->Internal_bounds
            &&& flat[1].bounds == node_bounds(*n->left)
            &&& flat[flat[0].prim_offset - base].bounds == node_bounds(*n->right)
        }),
{
    let left = *n->left;
    let right = *n->right;
    lemma_flat_right_child(n, base);
    lemma_flat_bounds(n, base);
    lemma_flat_bounds(left, base + 1);
    lemma_flat_bounds(right, base + 1 + node_count(left));
    lemma_flat_len(left, base + 1);
    lemma_flat_len(right, base + 1 + node_count(left));
    let flat = flat_nodes(n, base);
    let k = 1 + node_count(left) as int;
    assert(flat.subrange(1, k)[0] == flat[1]);
    assert(flat.subrange(k, flat.len() as int)[0] == flat[k]);
    assert(flat[0].prim_offset == base + k);
}

/// A leaf's flat entry records how many primitives it holds and the first of them.
pub proof fn lemma_flat_leaf<B>(n: BVHNode<B>, base: int)
    requires
        n is Leaf,
    ensures
        flat_nodes(n, base).len() == 1,
        flat_nodes(n, base)[0].prim_count == n->primitive_indices@.len() as u32,
        flat_nodes(n, base)[0].prim_offset == n->primitive_indices@[0],
{
}

} // verus!
