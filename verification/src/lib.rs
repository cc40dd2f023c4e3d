//! Simulation core of a small two-faction arena shooter.
//!
//! Two teams of ships exchange projectile fire in a bounded, wrapping 2D
//! arena (positions are stored as 3D vectors whose depth component only
//! orders drawing). Each frame runs a fixed pipeline: intent (input or AI),
//! acceleration integration, position integration, boundary handling,
//! weapon cooldowns and projectile spawning, collision and damage, and a
//! final cleanup that removes dead entities.
//!
//! All quantities are integers: distances in world units, times in
//! milliseconds, speeds in world units per second.

pub mod intmath;
pub mod helpers;
pub mod components;
pub mod world;
