//! Composite-image generation over ordered asset layers: parsing and ordering
//! of layer directories, Cartesian-product enumeration of asset choices, and
//! alpha-aware compositing of one image per choice.

pub mod layers;
pub mod naming;
pub mod permutations;
pub mod render;

use vstd::prelude::*;

verus! {

/// The side length, in pixels, of the square canvas every composite is drawn on.
pub const CANVAS_SIZE: u32 = 32;

} // verus!
