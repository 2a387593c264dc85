//! Settings of the acceleration-structure benchmarks.

use vstd::prelude::*;

verus! {

/// How the benchmark primitives are laid out.
#[derive(Clone, Debug)]
pub enum SceneType {
    UniformGrid,
    Clustered,
    Random,
}

/// Configuration for acceleration structure benchmarks.
#[derive(Clone, Debug)]
pub struct BenchmarkConfig {
    pub num_primitives: usize,
    pub num_rays: usize,
    pub warmup_iterations: usize,
    pub test_iterations: usize,
    pub scene_type: SceneType,
}

impl Default for BenchmarkConfig {
    fn default() -> (c: Self)
        ensures
            c.num_primitives == 1000,
            c.num_rays == 10000,
            c.warmup_iterations == 5,
            c.test_iterations == 20,
            c.scene_type is Random,
    {
        BenchmarkConfig {
            num_primitives: 1000,
            num_rays: 10000,
            warmup_iterations: 5,
            test_iterations: 20,
            scene_type: SceneType::Random,
        }
    }
}

/// Number of clusters in a clustered benchmark scene.
pub const NUM_CLUSTERS: usize = 10;

/// Primitives placed in each cluster of a clustered scene of `count` primitives; the
/// remainder of the division is not placed.
pub fn per_cluster(count: usize) -> (n: usize)
    ensures
        n == count / NUM_CLUSTERS,
{
    count / NUM_CLUSTERS
}

/// Grid position of primitive `i` inside its cluster: `i` written in base ten, lowest digit first.
pub fn cluster_offset(i: usize) -> (o: (usize, usize, usize))
    ensures
        o.0 == i % 10,
        o.1 == (i / 10) % 10,
        o.2 == i / 100,
        o.0 + 10 * o.1 + 100 * o.2 == i,
{
    (i % 10, (i / 10) % 10, i / 100)
}

/// Height and depth steps of cluster `c` (each step is ten units).
pub fn cluster_steps(c: usize) -> (s: (usize, usize))
    requires
        c <= usize::MAX / 7,
    ensures
        s.0 == (c * 3) % 7,
        s.1 == (c * 7) % 11,
        s.0 < 7 && s.1 < 11,
{
    ((c * 3) % 7, (c * 7) % 11)
}

/// Scattered grid coordinates, each in `0..10000`, of primitive `i` of a random benchmark scene.
pub fn scatter_coords(i: usize) -> (c: (usize, usize, usize))
    requires
        i * 7919 <= usize::MAX,
    ensures
        c.0 == (i * 7919) % 10000,
        c.1 == (i * 6547) % 10000,
        c.2 == (i * 4231) % 10000,
        c.0 < 10000 && c.1 < 10000 && c.2 < 10000,
{
    ((i * 7919) % 10000, (i * 6547) % 10000, (i * 4231) % 10000)
}

/// Height step of ray `i` of `count` benchmark rays: `i * 997` reduced modulo `count`.
pub fn ray_height_step(i: usize, count: usize) -> (h: usize)
    requires
        count > 0,
        i * 997 <= usize::MAX,
    ensures
        h == (i * 997) % (count as int),
        h < count,
{
    (i * 997) % count
}

} // verus!
