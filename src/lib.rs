//! Procedural terrain for a racing game: a height field classified into
//! surface bands, a seeded winding track, a road carved along it, and the
//! mesh that is drawn and collided with.
//!
//! Every length, coordinate and height is an integer number of `UNIT`ths of a
//! world unit, so that each step of the pipeline is exact.

use vstd::prelude::*;

pub mod arith;
pub mod section;
pub mod terrain;
pub mod road;
pub mod mesh;
pub mod track;
pub mod query;

verus! {

/// One world unit, in the integer units used for every length and height.
pub const UNIT: i32 = 1000;

} // verus!
