//! The operations that make a mesh out of another mesh.

pub mod extrude;
