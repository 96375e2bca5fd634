//! Core of a 2D tile-based platformer: fixed-timestep simulation of player
//! physics, drone pursuit AI, and bullets against a static block grid.
//!
//! The library holds the whole simulation step and the geometry it rests on;
//! windowing, input polling and rendering live outside it and talk to it
//! through plain values.
#![verifier::loop_isolation(false)]

pub mod bullets;
pub mod drone;
pub mod entities;
pub mod geometry;
pub mod physics;
pub mod player;
pub mod step;

pub use geometry::aabb_test;
pub use geometry::distance2d;
pub use geometry::line2box;
pub use geometry::line2line;
