//! The integer side of a small voxel-world ray tracer, with its contracts
//! proved: the framebuffer that holds display colors and packs them for a
//! window, the split of a frame into independent pixel jobs and their RGBA
//! encoding, and the layout of the boxes that make up the world.
use vstd::prelude::*;

pub mod framebuffer;
pub mod material;
pub mod render;
pub mod world;

verus! {

} // verus!
