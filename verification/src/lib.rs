//! Core of a 2D transit simulation: user-placed tracks connect stops
//! (stations and process nodes), and carriers shuttle along the tracks,
//! alternating between commuting and dwelling at a stop.
//!
//! The crate models world positions as integer coordinates and entity
//! references as validated handles into registries, so the placement
//! state machine, the elbow-path geometry and the carrier motion engine
//! are all verified. Rendering, windowing and input capture are outside
//! collaborators: they hand this crate cursor positions and click events,
//! and read back polylines, polygons and carrier transforms.

pub mod geometry;
pub mod stops;
pub mod track;
pub mod placement;
pub mod carrier;

use vstd::prelude::*;

verus! {

/// Half-extent of the world coordinate range. Keeping every position
/// within this bound lets squared distances and stroke offsets stay
/// inside `i64` arithmetic.
pub const WORLD_LIMIT: i64 = 1_000_000_000;

} // verus!
