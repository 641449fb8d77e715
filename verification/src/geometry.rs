//! The geometric core: vectors, point masses, and the spatial tree.

pub mod bh_tree;
pub mod laws;
pub mod vec3d;
