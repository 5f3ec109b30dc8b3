//! Core of a top-down, grid-based prison-escape simulation: a sparse
//! walkability map over integer cells, shortest-path search between cells,
//! tick-based movement with wall-sliding collision response, and a waypoint
//! follower that steers an agent along a previously computed path.
//!
//! Continuous positions and velocities are held in fixed-point cell units
//! (see [`position::SCALE`]), so that every quantity the simulation computes
//! is an exact integer.

pub mod game;
pub mod map;
pub mod path;
pub mod position;

