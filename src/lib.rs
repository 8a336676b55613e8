//! A grid ray-caster in fixed-point arithmetic.
//!
//! Positions are measured in units of `1 / SCALE` of a grid cell, angles in units of
//! `1 / TURN` of a full turn, and directions come from a table of scaled cosines and
//! sines. All traversal arithmetic is exact.
use vstd::prelude::*;

pub mod angle;
pub mod ray_lemmas;
pub mod caster;
pub mod frame;
pub mod grid;

verus! {

/// Fixed-point units per grid cell.
pub const SCALE: i64 = 65536;

/// Angle units per full turn.
pub const TURN: i64 = 65536;

/// Depth of field of the renderer, in cells: rays give up after this distance.
pub const DOF: i64 = 20;

/// The largest depth of field a caster accepts, in cells.
pub const MAX_DOF: i64 = 1048576;

} // verus!
