//! A verified 2D volumetric lighting engine for tile-based maps.
//!
//! All photometric quantities (irradiance, colors, reflectivity) are held in
//! fixed-point micro-units (one unit is 1/1_000_000), angles in millidegrees,
//! sub-tile positions in micro-tiles, and ray distances in steps of 1/20 of a
//! tile.  Light sources cast rays toward a perimeter of targets; ray
//! brightness falls off with distance according to precomputed lookup tables,
//! rays stop at sight-blocking tiles and may spawn child reflections up to a
//! configurable depth; per-source light fields are summed map-wide and tone
//! mapped to display colors.

use vstd::prelude::*;

pub mod fixed;
pub mod trig;
pub mod tables;
pub mod model;
pub mod angles;
pub mod field;
pub mod filter;
pub mod render;
pub mod video_tools;
pub mod rng;
pub mod mapgen;
pub mod object;

verus! {

} // verus!
