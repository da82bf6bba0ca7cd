//! Server-side simulation core of a small multiplayer arcade shooter.
//!
//! The world state (player ships, missiles, enemies, explosions) is advanced
//! tick by tick: per-entity physics and lifespan rules, a uniform-grid spatial
//! hash for broad-phase collision detection, exactly-once collision
//! resolution with damage and scoring, and a score-driven difficulty ladder
//! that selects enemy spawners.
//!
//! All world quantities are fixed-point integers so that every rule is exact:
//! - positions, radii and sizes are in milli-units (1/1000 of a world unit);
//! - velocities are in milli-units per second;
//! - angles are in milli-degrees, angular velocities in milli-degrees per second;
//! - health is in milli-points (full health is `100_000`);
//! - times are in milliseconds; enemy scales are in thousandths.
//!
//! Wall-clock time and randomness are injected: every state-changing
//! operation has an `*_at` form taking an explicit `now` timestamp, and the
//! random draws used by spawning are confined to small trusted helpers in
//! [`utils`].

pub mod collision;
pub mod enemy;
pub mod explosion;
pub mod missile;
pub mod ship;
pub mod spawn;
pub mod state;
pub mod trig;
pub mod utils;
