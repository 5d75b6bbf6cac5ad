//! Batching and mesh assembly for a headless 2D vector compositor.
//!
//! Drawable elements carry a shader identity; consecutive elements with the
//! same identity are drawn as one batch whose meshes are merged into a single
//! vertex array and a single rebased index array.

pub mod batch;
pub mod compose;
pub mod mesh;
pub mod shader;
pub mod uniforms;

