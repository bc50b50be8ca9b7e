//! Decision logic of a special-relativity scene viewer: scene validation,
//! the stage tracker that follows an object's path, the sample grids that
//! give objects extent, and the operator's control commands.
//!
//! The Lorentz kinematics themselves are floating-point arithmetic and live
//! with the program that drives this library; everything here works on
//! integers, booleans and strings.

use vstd::prelude::*;

pub mod command;
pub mod grid;
pub mod palette;
pub mod raster;
pub mod scene;
pub mod tracker;
mod text;

verus! {

} // verus!
