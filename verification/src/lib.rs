//! The geometric core of a stick-snake simulation: a player-steered chain of line segments
//! that grows by touching free-floating segments.
//!
//! Every quantity is an exact fixed-point integer, so each step of the simulation is
//! deterministic and its contract can be stated without tolerances:
//!
//! * positions and lengths count sub-units, [`fixed::UNIT`] of them to one world unit;
//! * orientations and per-tick rotations are [`rotation::Rotation`] values, a cosine and
//!   a sine scaled by [`fixed::ONE`];
//! * elapsed time counts microseconds, angles count millionths of a degree.
//!
//! Trigonometry is the caller's business: the library hands out the angle a tick turns by
//! and takes the matching rotation back.
pub mod fixed;

pub mod algebra;

pub mod rotation;

pub mod intersection;

pub mod segment;

pub mod velocity;

pub mod world;

pub mod camera;

pub mod motion;

pub mod collision;

pub mod spawn;

pub mod tick;

pub mod history;
