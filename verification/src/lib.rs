//! Verified core of a GPU ray tracer for box and triangle scenes, and of its 2D canvas layers.

pub mod display_context;
pub mod canvas;
pub mod bvh;
pub mod timer;
pub mod clock;
pub mod perf;
pub mod controller;
pub mod camera;
pub mod grid;
pub mod gpu;
pub mod texture;
pub mod cli;
pub mod bench;
pub mod demo;
