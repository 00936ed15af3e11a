//! A minimal real-time rendering core: a text mesh parser that produces a
//! flat, interleaved vertex list ready for GPU upload, and the lifecycle
//! logic for the GPU objects (shader stages, program, vertex array and
//! buffer) that a host shell drives against a graphics driver.
//!
//! The host shell owns the window, the GPU context and every raw driver
//! call; this library owns the decisions: what a line of mesh text means,
//! which driver replies constitute success, which handles are live, and
//! which delete calls a teardown must issue, exactly once each.

pub mod mesh;
pub mod renderer;
pub mod shader;
