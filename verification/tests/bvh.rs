use ray_tracer::bvh::{BVHNode, MAX_LEAF_SIZE};

#[derive(Clone, Copy, Debug, PartialEq)]
struct TestAabb {
    min: [f32; 3],
    max: [f32; 3],
}

impl TestAabb {
    fn new(min: [f32; 3], max: [f32; 3]) -> Self {
        TestAabb { min, max }
    }

    fn union(&self, other: &TestAabb) -> TestAabb {
        let mut r = *self;
        for k in 0..3 {
            r.min[k] = r.min[k].min(other.min[k]);
            r.max[k] = r.max[k].max(other.max[k]);
        }
        r
    }

    fn center(&self, axis: usize) -> f32 {
        (self.min[axis] + self.max[axis]) * 0.5
    }
}

/// Primitives measured by their boxes; nodes split at the middle of their longest axis.
struct TestPrimitives {
    boxes: Vec<TestAabb>,
}

impl TestPrimitives {
    fn node_bounds(&self, indices: &Vec<u32>) -> TestAabb {
        let mut b = self.boxes[indices[0] as usize];
        for &i in indices.iter() {
            b = b.union(&self.boxes[i as usize]);
        }
        b
    }

    fn split_sides(&self, indices: &Vec<u32>, bounds: &TestAabb) -> Vec<bool> {
        let mut axis = 0;
        for k in 1..3 {
            if bounds.max[k] - bounds.min[k] > bounds.max[axis] - bounds.min[axis] {
                axis = k;
            }
        }
        let split = bounds.center(axis);
        indices.iter().map(|&i| self.boxes[i as usize].center(axis) < split).collect()
    }
}

fn build(prims: &TestPrimitives) -> BVHNode<TestAabb> {
    BVHNode::build(
        &|v: &Vec<u32>| prims.node_bounds(v),
        &|v: &Vec<u32>, b: &TestAabb| prims.split_sides(v, b),
        prims.boxes.len(),
    )
}

fn unit_box_at(x: f32) -> TestAabb {
    TestAabb::new([x, 0.0, 0.0], [x + 1.0, 1.0, 1.0])
}

fn leaves(node: &BVHNode<TestAabb>, out: &mut Vec<Vec<u32>>) {
    match node {
        BVHNode::Leaf { primitive_indices, .. } => out.push(primitive_indices.clone()),
        BVHNode::Internal { left, right, .. } => {
            leaves(left, out);
            leaves(right, out);
        }
    }
}

#[test]
fn test_bvh_single_primitive() {
    let prims = TestPrimitives { boxes: vec![TestAabb::new([0.0; 3], [1.0; 3])] };

    let bvh = build(&prims);
    match bvh {
        BVHNode::Leaf { primitive_indices, .. } => {
            assert_eq!(primitive_indices.len(), 1);
            assert_eq!(primitive_indices[0], 0);
        }
        _ => panic!("Expected leaf node"),
    }
}

#[test]
fn test_bvh_split() {
    let prims = TestPrimitives {
        boxes: vec![unit_box_at(0.0), unit_box_at(10.0), unit_box_at(20.0), unit_box_at(30.0), unit_box_at(40.0)],
    };

    let bvh = build(&prims);

    // Should create internal node since we have more than MAX_LEAF_SIZE primitives
    match bvh {
        BVHNode::Internal { .. } => {}
        BVHNode::Leaf { .. } => panic!("Expected internal node for 5 primitives"),
    }
}

#[test]
fn test_bvh_stats() {
    let prims = TestPrimitives { boxes: (0..10).map(|i| unit_box_at(i as f32 * 10.0)).collect() };

    let bvh = build(&prims);
    let stats = bvh.stats();

    assert_eq!(stats.total_primitives, 10);
    assert!(stats.num_leaves > 0);
    assert!(stats.max_depth > 0);
    let avg_leaf_size = stats.total_primitives as f32 / stats.num_leaves as f32;
    assert!(avg_leaf_size > 0.0);
}

#[test]
fn test_bvh_flatten() {
    let prims = TestPrimitives { boxes: vec![TestAabb::new([0.0; 3], [1.0; 3]), unit_box_at(10.0)] };

    let bvh = build(&prims);
    let flat = bvh.flatten();

    assert!(!flat.is_empty());
    // Root should have valid bounds
    assert!(flat[0].bounds.min[0] <= flat[0].bounds.max[0]);
    assert!(flat[0].bounds.min[1] <= flat[0].bounds.max[1]);
    assert!(flat[0].bounds.min[2] <= flat[0].bounds.max[2]);
}

#[test]
fn test_bounds_union_in_build() {
    let prims = TestPrimitives {
        boxes: vec![TestAabb::new([-5.0; 3], [0.0; 3]), TestAabb::new([0.0; 3], [5.0; 3])],
    };

    let bvh = build(&prims);
    let bounds = bvh.bounds();

    // Bounds should encompass both primitives
    assert_eq!(bounds.min, [-5.0, -5.0, -5.0]);
    assert_eq!(bounds.max, [5.0, 5.0, 5.0]);
}

#[test]
fn every_primitive_lands_in_exactly_one_leaf() {
    let prims = TestPrimitives { boxes: (0..37).map(|i| unit_box_at(((i * 17) % 37) as f32 * 3.0)).collect() };
    let bvh = build(&prims);
    let mut found = Vec::new();
    leaves(&bvh, &mut found);
    let mut all: Vec<u32> = found.iter().flatten().copied().collect();
    all.sort();
    assert_eq!(all, (0..37).collect::<Vec<u32>>());
    for leaf in &found {
        assert!(!leaf.is_empty());
    }
}

#[test]
fn stats_count_nodes_leaves_and_depth() {
    let prims = TestPrimitives { boxes: (0..8).map(|i| unit_box_at(i as f32 * 10.0)).collect() };
    let bvh = build(&prims);
    let stats = bvh.stats();
    // Eight boxes in a row split at the middle: two leaves of four under one root.
    assert_eq!(stats.num_nodes, 3);
    assert_eq!(stats.num_leaves, 2);
    assert_eq!(stats.max_depth, 1);
    assert_eq!(stats.total_primitives, 8);
}

#[test]
fn flat_layout_points_internal_nodes_at_their_right_child() {
    let prims = TestPrimitives { boxes: (0..8).map(|i| unit_box_at(i as f32 * 10.0)).collect() };
    let bvh = build(&prims);
    let flat = bvh.flatten();
    assert_eq!(flat.len(), 3);
    assert_eq!(flat[0].prim_count, 0);
    assert_eq!(flat[0].prim_offset, 2);
    assert_eq!(flat[1].prim_count, 4);
    assert_eq!(flat[2].prim_count, 4);
    let mut firsts = vec![flat[1].prim_offset, flat[2].prim_offset];
    firsts.sort();
    assert!(firsts[0] < 8 && firsts[1] < 8);
}

#[test]
fn small_sets_stay_in_one_leaf() {
    let prims = TestPrimitives { boxes: (0..MAX_LEAF_SIZE).map(|i| unit_box_at(i as f32 * 10.0)).collect() };
    let bvh = build(&prims);
    match bvh {
        BVHNode::Leaf { primitive_indices, .. } => assert_eq!(primitive_indices.len(), MAX_LEAF_SIZE),
        _ => panic!("Expected a single leaf"),
    }
}

/// A source whose split never separates anything: the node stays a leaf.
struct NoSplit;

impl NoSplit {
    fn node_bounds(&self, indices: &Vec<u32>) -> u32 {
        indices.len() as u32
    }

    fn split_sides(&self, indices: &Vec<u32>, _bounds: &u32) -> Vec<bool> {
        vec![true; indices.len()]
    }
}

#[test]
fn failed_split_makes_a_leaf() {
    let bvh = BVHNode::build(&|v: &Vec<u32>| NoSplit.node_bounds(v), &|v: &Vec<u32>, b: &u32| NoSplit.split_sides(v, b), 9);
    match bvh {
        BVHNode::Leaf { bounds, primitive_indices } => {
            assert_eq!(bounds, 9);
            assert_eq!(primitive_indices.len(), 9);
        }
        _ => panic!("Expected a leaf"),
    }
}

#[test]
fn five_boxes_split_at_the_middle_into_two_leaves() {
    let prims = TestPrimitives {
        boxes: vec![unit_box_at(0.0), unit_box_at(10.0), unit_box_at(20.0), unit_box_at(30.0), unit_box_at(40.0)],
    };
    match build(&prims) {
        BVHNode::Internal { bounds, left, right } => {
            assert_eq!(bounds, TestAabb::new([0.0, 0.0, 0.0], [41.0, 1.0, 1.0]));
            match (*left, *right) {
                (
                    BVHNode::Leaf { bounds: lb, primitive_indices: l },
                    BVHNode::Leaf { bounds: rb, primitive_indices: r },
                ) => {
                    assert_eq!(l, vec![0, 1]);
                    assert_eq!(r, vec![3, 4, 2]);
                    assert_eq!(lb, TestAabb::new([0.0, 0.0, 0.0], [11.0, 1.0, 1.0]));
                    assert_eq!(rb, TestAabb::new([20.0, 0.0, 0.0], [41.0, 1.0, 1.0]));
                }
                _ => panic!("Expected two leaves"),
            }
        }
        _ => panic!("Expected an internal node"),
    }
}
