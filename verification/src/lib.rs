//! The discrete rules of a flocking world: the obstacle border laid out on
//! the integer grid, the wraparound rule at the world's edges, and the
//! snapshot discipline of one simulation tick.
//!
//! The library is generic in the scalar type `T` of positions and
//! velocities. It never computes with a scalar: it carries them, hands them
//! to the caller's steering function, and decides from comparisons that the
//! caller has made.

pub mod boid;
pub mod environment;
pub mod obstacle;
pub mod vector;

pub use boid::{wrap_axis, Boid};
pub use environment::Environment;
pub use obstacle::{Edge, Obstacle, OBSTACLE_SPACING};
pub use vector::Vector2;
