//! Verified core of the `rein` rendering and physics toolkit.
//!
//! The modules hold the discrete logic of the toolkit: window configuration and
//! input state, camera-control input handling, mesh index generation and OBJ
//! parsing, the scene object store, render and culling bookkeeping, broadphase and
//! narrowphase decisions, and the URDF naming rules. Floating-point geometry and the
//! GPU / windowing glue live outside this crate.

pub mod window;
pub mod text;
pub mod obj;
pub mod scene;
pub mod render;
pub mod culling;
pub mod physics;
pub mod mesh;
pub mod terrain;
pub mod urdf;
pub mod control;
