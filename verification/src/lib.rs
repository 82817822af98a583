//! Verified core of a grid-based raycasting maze renderer.
//!
//! The world is a rectangular grid of cells, `BLOCK_SIZE` world units per
//! cell. Positions are integers in world units; ray directions are
//! fixed-point unit vectors in per-mille units; angles are integers in
//! microradians. All rendering is done into an owned pixel buffer; window
//! presentation, asset decoding and input polling live outside the library.

pub mod caster;
pub mod color;
pub mod frame;
pub mod framebuffer;
pub mod geometry;
pub mod line;
pub mod maze;
pub mod menu;
pub mod player;
pub mod screens;
pub mod sprites;
pub mod textures;
pub mod visual_effects;

use vstd::prelude::*;

verus! {

/// World units per grid cell in the standard configuration.
pub const BLOCK_SIZE: usize = 100;

} // verus!
