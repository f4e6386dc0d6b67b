//! Mesh export encoders and mesh topology helpers.
pub mod ply;
pub mod obj;
pub mod glb;
pub mod gltf_document;
pub mod grid;
pub mod adjacency;
pub mod dual_contour;
pub mod decimation;
