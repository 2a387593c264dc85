//! Hierarchical uniform grids: per-cell occupancy counts and per-cell object lists.

pub mod cells;
pub mod levels;
pub mod pack;
pub mod assign;
pub mod walk;
