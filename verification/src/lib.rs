//! Verified integer core of an offline Monte-Carlo path tracer: how the image
//! is cut into render jobs and contributions are addressed in the frame
//! buffer, when a path stops, which primitive goes under which branch of the
//! bounding-volume hierarchy, how lattice noise and image textures are
//! indexed, which faces a mesh is made of, and how quantised pixels become
//! PPM text or RGB bytes.
pub mod bvh;
pub mod cli;
pub mod coordinator;
pub mod estimator;
pub mod mesh;
pub mod output;
pub mod perlin;
pub mod preset_scenes;
pub mod texture;
pub mod utils;
