//! The operations that make a mesh out of nothing but their properties.

pub mod cuboid;
pub mod cylinder;
