//! Bouncers: simple ballistic movers that deal no direct damage but knock
//! ships back hard.

use vstd::prelude::*;
use crate::collision::{Circle, circle_wf};
use crate::enemy::{ID, POS_AFTER_UPDATE, POS_LIMIT, VEL_LIMIT, OUT_OF_BOUNDS_PADDING};
use crate::enemy::{aim_from, aim_spec, opt_or, opt_or_exec, spawn_horizontal, spawn_vertical};
use crate::explosion::Explosion;
use crate::utils;
use crate::utils::{elapsed_spec, lemma_scaled_bound, scaled_spec};

verus! {

/// Bouncer collision radius in milli-units (a 256-pixel sprite at 0.3
/// scale, halved).
pub const RADIUS: i64 = 38_400;

/// Default spawn speed band in milli-units per second.
pub const DEFAULT_MIN_VEL: i64 = 50_000;

/// Default spawn speed band in milli-units per second.
pub const DEFAULT_MAX_VEL: i64 = 100_000;

/// Largest angular deviation from "straight at the center" at spawn, in
/// milli-degrees.
pub const ARC: i64 = 50_000;

/// One bouncer. Positions are milli-units, velocities milli-units per
/// second.
#[derive(Clone, Copy)]
pub struct Bouncer {
    pub id: ID,
    pub updated_at: i64,
    pub x: i64,
    pub y: i64,
    pub vel_x: i64,
    pub vel_y: i64,
}

impl Bouncer {
    /// Field bounds.
    pub open spec fn wf(self) -> bool {
        &&& -POS_LIMIT <= self.x <= POS_LIMIT
        &&& -POS_LIMIT <= self.y <= POS_LIMIT
        &&& -VEL_LIMIT <= self.vel_x <= VEL_LIMIT
        &&& -VEL_LIMIT <= self.vel_y <= VEL_LIMIT
    }

    /// Whether the bouncer has left the padded screen bounds.
    pub open spec fn oob_spec(self) -> bool {
        self.x < -OUT_OF_BOUNDS_PADDING || self.y < -OUT_OF_BOUNDS_PADDING || self.x
            > utils::WIDTH + OUT_OF_BOUNDS_PADDING || self.y > utils::HEIGHT
            + OUT_OF_BOUNDS_PADDING
    }

    /// Whether the bouncer has left the padded screen bounds.
    pub fn is_out_of_bounds(&self) -> (r: bool)
        ensures
            r == self.oob_spec(),
    {
        self.x < -OUT_OF_BOUNDS_PADDING || self.y < -OUT_OF_BOUNDS_PADDING || self.x
            > utils::WIDTH + OUT_OF_BOUNDS_PADDING || self.y > utils::HEIGHT
            + OUT_OF_BOUNDS_PADDING
    }

    /// The bouncer one clamped time step later.
    pub open spec fn updated_spec(self, now: i64) -> Bouncer {
        let dt = elapsed_spec(self.updated_at as int, now as int);
        Bouncer {
            updated_at: now,
            x: (self.x + scaled_spec(self.vel_x as int, dt)) as i64,
            y: (self.y + scaled_spec(self.vel_y as int, dt)) as i64,
            ..self
        }
    }

    /// Advance the bouncer by the clamped elapsed time.
    pub fn update(&mut self, now: i64)
        requires
            old(self).wf(),
            !old(self).oob_spec(),
        ensures
            *final(self) == old(self).updated_spec(now),
            final(self).wf(),
            -POS_AFTER_UPDATE <= final(self).x <= POS_AFTER_UPDATE,
            -POS_AFTER_UPDATE <= final(self).y <= POS_AFTER_UPDATE,
    {
        let dt = utils::elapsed_ms(self.updated_at, now);
        proof {
            lemma_scaled_bound(self.vel_x as int, dt as int, 500);
            lemma_scaled_bound(self.vel_y as int, dt as int, 500);
        }
        self.x = self.x + utils::scaled(self.vel_x, dt);
        self.y = self.y + utils::scaled(self.vel_y, dt);
        self.updated_at = now;
    }

    /// The bouncer's collision circle.
    pub fn circle(&self) -> (c: Circle)
        requires
            self.wf(),
        ensures
            c.x == self.x + RADIUS,
            c.y == self.y + RADIUS,
            c.r == RADIUS,
            circle_wf(c),
    {
        Circle { x: self.x + RADIUS, y: self.y + RADIUS, r: RADIUS }
    }

    /// The explosion left behind when this bouncer is destroyed by a
    /// collision.
    pub fn explode(&self) -> (e: Explosion)
        requires
            self.wf(),
        ensures
            e.x == self.x,
            e.y == self.y,
            e.size == 2 * RADIUS,
            e.lifespan == crate::explosion::LIFESPAN,
            e.wf(),
    {
        Explosion::spawn(self.x, self.y, 2 * RADIUS)
    }
}

/// Spawn a bouncer at a random screen edge, aimed roughly at the screen
/// center with a random angular deviation and a random speed in the given
/// band (milli-units per second).
pub fn spawn(min_vel: Option<i64>, max_vel: Option<i64>) -> (b: Bouncer)
    requires
        0 <= opt_or(min_vel, DEFAULT_MIN_VEL) < opt_or(max_vel, DEFAULT_MAX_VEL) <= 250_000,
    ensures
        b.wf(),
        !b.oob_spec(),
        ((b.x == -50_000 || b.x == utils::WIDTH + 50_000) && (b.y == 0 || b.y == utils::HEIGHT))
            || ((b.x == 0 || b.x == utils::WIDTH) && (b.y == -50_000 || b.y == utils::HEIGHT
            + 50_000)),
        -2 * opt_or(max_vel, DEFAULT_MAX_VEL) <= b.vel_x <= 2 * opt_or(max_vel, DEFAULT_MAX_VEL),
        -2 * opt_or(max_vel, DEFAULT_MAX_VEL) <= b.vel_y <= 2 * opt_or(max_vel, DEFAULT_MAX_VEL),
        exists|arc: int, speed: int|
            -ARC <= arc < ARC && opt_or(min_vel, DEFAULT_MIN_VEL) <= speed < opt_or(
                max_vel,
                DEFAULT_MAX_VEL,
            ) && b.vel_x == (#[trigger] aim_spec(b.x as int, b.y as int, arc, speed)).0
                && b.vel_y == aim_spec(b.x as int, b.y as int, arc, speed).1,
{
    let mn = opt_or_exec(&min_vel, DEFAULT_MIN_VEL);
    let mx = opt_or_exec(&max_vel, DEFAULT_MAX_VEL);
    let horizontal = utils::rand_range(0, 2) == 0;
    let (x, y) = if horizontal {
        spawn_horizontal()
    } else {
        spawn_vertical()
    };
    let arc = utils::rand_range(-ARC, ARC);
    let speed = utils::rand_range(mn, mx);
    let (vel_x, vel_y) = aim_from(x, y, arc, speed);
    let id = utils::new_uuid_as_u64_pair();
    let updated_at = utils::now_in_millis();
    let b = Bouncer { id, updated_at, x, y, vel_x, vel_y };
    proof {
        assert(b.vel_x == aim_spec(b.x as int, b.y as int, arc as int, speed as int).0
            && b.vel_y == aim_spec(b.x as int, b.y as int, arc as int, speed as int).1);
    }
    b
}

} // verus!
