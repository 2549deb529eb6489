use vstd::prelude::*;

use crate::vector::Vector2D;

verus! {

/// Bound on coordinates, world size, speeds, the gravitational constant and
/// the force clamp, in the engine's fixed-point units.
pub const LIMIT: i64 = 268_435_456;

/// Bound on a body's mass.
pub const MASS_LIMIT: i64 = 1_048_576;

/// Bound on the number of bodies in one simulation.
pub const MAX_BODIES: usize = 1024;

/// Bound on the time advanced by one tick.
pub const DT_LIMIT: i64 = 1_048_576;

/// A circular point mass.
#[derive(Clone, Copy, Debug, PartialEq, Eq, Structural)]
pub struct Body {
    /// Current centre.
    pub position: Vector2D,
    /// Centre at the start of the last tick.
    pub previous_position: Vector2D,
    pub velocity: Vector2D,
    /// Acceleration applied in the last tick.
    pub acceleration: Vector2D,
    pub radius: i64,
    pub mass: i64,
    /// Display colour as packed RGBA; never read by the engine.
    pub color: u32,
}

/// How two overlapping bodies are moved apart before their impulse.
#[derive(Clone, Copy, Debug, PartialEq, Eq, Structural)]
pub enum SeparationPolicy {
    /// Step both centres back along their own velocities, one time unit at a
    /// time, until they no longer overlap.
    PushBack,
    /// Roll both bodies back along this tick's motion to the instant of
    /// contact, and forward again with the new velocities for the rest of the
    /// tick; falls back to push-back when no contact instant exists.
    TimeBacktrack,
}

/// What a simulation is configured with.
#[derive(Clone, Copy, Debug, PartialEq, Eq, Structural)]
pub struct Config {
    /// Extent of the world along x.
    pub width: i64,
    /// Extent of the world along y.
    pub height: i64,
    pub gravity_enabled: bool,
    pub gravitational_constant: i64,
    /// Clamp on the size of the pull between any two bodies.
    pub max_force_magnitude: i64,
    /// Cap on every body's speed.
    pub max_speed: i64,
    /// Factor between the time a caller hands to a tick and simulated time.
    pub time_factor: i64,
    pub separation: SeparationPolicy,
}

/// Why a simulation could not be built.
#[derive(Clone, Copy, Debug, PartialEq, Eq, Structural)]
pub enum ConfigError {
    /// Width or height is not positive.
    NonPositiveBounds,
    /// A configured value lies outside the range the engine computes in.
    OutOfRange,
    /// A body's mass is not positive.
    NonPositiveMass,
    /// A body's radius is not positive.
    NonPositiveRadius,
    /// A body's diameter exceeds the width or the height of the world.
    BodyTooLarge,
    /// More bodies than the engine holds.
    TooManyBodies,
}

impl Config {
    /// Every configured value lies in the range the engine computes in.
    pub open spec fn valid(self) -> bool {
        &&& 0 < self.width <= LIMIT
        &&& 0 < self.height <= LIMIT
        &&& 0 <= self.gravitational_constant <= LIMIT
        &&& 0 <= self.max_force_magnitude <= LIMIT
        &&& 0 <= self.max_speed <= LIMIT
        &&& 0 <= self.time_factor
    }
}

impl Body {
    /// The body is well formed for a world of configuration `c`.
    pub open spec fn valid(self, c: Config) -> bool {
        &&& 0 < self.radius
        &&& 2 * self.radius <= c.width
        &&& 2 * self.radius <= c.height
        &&& 0 < self.mass <= MASS_LIMIT
        &&& self.position.within(LIMIT as int)
        &&& self.previous_position.within(LIMIT as int)
        &&& self.velocity.within(LIMIT as int)
    }

    /// The body lies inside the world: `radius <= x <= width - radius`, and
    /// likewise along y.
    pub open spec fn inside(self, c: Config) -> bool {
        &&& self.radius <= self.position.x <= c.width - self.radius
        &&& self.radius <= self.position.y <= c.height - self.radius
    }
}

} // verus!
