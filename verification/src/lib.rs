//! A procedural-geometry engine: an authoring graph of parametric operations is
//! compiled into a template and evaluated, per instance, into polygon meshes.

pub mod vector;
pub mod mesh;
pub mod graph;
pub mod data_types;
pub mod script;
pub mod operations;
pub mod asset;
pub mod serialization;
