//! A 2D stepper for circular bodies: pairwise gravity, semi-implicit Euler
//! integration with a speed cap, wall reflection, and elastic collisions with
//! push-back or time-backtrack separation, all in fixed-point integer units.
use vstd::prelude::*;

pub mod arith;
pub mod body;
pub mod collision;
pub mod forces;
pub mod laws;
pub mod motion;
pub mod order;
pub mod pass;
pub mod resolve;
pub mod simulation;
pub mod vector;

pub use body::{Body, Config, ConfigError, SeparationPolicy};
pub use simulation::Simulation;
pub use vector::Vector2D;

verus! {

} // verus!
