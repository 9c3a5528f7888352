//! A recursively branching fractal tree: its shape, the growth step that
//! extends every leaf by a fan of branches, and the flattening of a tree into
//! line primitives for a renderer.
//!
//! Geometry is kept exact. A segment's heading is a whole number of fan
//! steps away from the root's heading, and its length is the root's length
//! scaled once per generation, so every statement here is over integers.

pub mod config;
pub mod driver;
pub mod laws;
pub mod render;
pub mod shape;
pub mod tree;
