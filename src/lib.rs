//! Newtonian gravity among spherical bodies, on a fixed-point integer grid.
//!
//! Lengths, masses, speeds and times are integers counting `fixed::ONE`-ths of a unit,
//! each bounded by `fixed::LIMIT`. A tick runs two phases over the whole body set:
//! `gravity::apply_gravity` changes every velocity by the pull of all other bodies,
//! then `collision::resolve_collisions_and_move` reflects the velocities of
//! overlapping spheres and moves every body. Each phase reads only the state that the
//! set had when the phase began and resolves every body on its own. A body is left as
//! it is, and reported, where its result has no value on the grid: two distinct bodies
//! at one position have no direction between them, and a result beyond the grid's
//! bounds cannot be stored. No other body is affected.

pub mod fixed;
pub mod body;
pub mod gravity;
pub mod collision;
pub mod tick;
pub mod laws;
