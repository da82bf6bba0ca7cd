//! Rocks: ballistic movers whose scale drives their radius and damage, and
//! which split into four half-scale children when a large one is destroyed.

use vstd::prelude::*;
use crate::collision::{Circle, circle_wf};
use crate::enemy::{ID, POS_AFTER_UPDATE, POS_LIMIT, VEL_LIMIT, OUT_OF_BOUNDS_PADDING};
use crate::enemy::{aim_from, aim_spec, opt_or, opt_or_exec, spawn_horizontal, spawn_vertical};
use crate::explosion::Explosion;
use crate::trig;
use crate::trig::{cos_mdeg_spec, sin_mdeg_spec};
use crate::utils;
use crate::utils::{elapsed_spec, lemma_scaled_bound, lemma_tdiv_bound, scaled_spec, tdiv};

verus! {

/// Default (and split-threshold) scale, in thousandths.
pub const DEFAULT_SCALE: i64 = 750;

/// Smallest scale a spawned rock can have, in thousandths.
pub const MIN_SCALE: i64 = 300;

/// Damage dealt to a ship per thousandth of scale, in milli-health.
pub const BASE_DAMAGE: i64 = 5;

/// Radius per thousandth of scale, in milli-units.
pub const RADIUS_PER_SCALE: i64 = 45;

/// Default spawn speed band in milli-units per second.
pub const DEFAULT_MIN_VEL: i64 = 50_000;

/// Default spawn speed band in milli-units per second.
pub const DEFAULT_MAX_VEL: i64 = 100_000;

/// Largest angular deviation from "straight at the center" at spawn, in
/// milli-degrees.
pub const ARC: i64 = 50_000;

/// One rock. Positions are milli-units, velocities milli-units per second,
/// the scale in thousandths.
#[derive(Clone, Copy)]
pub struct Rock {
    pub id: ID,
    pub updated_at: i64,
    pub x: i64,
    pub y: i64,
    pub vel_x: i64,
    pub vel_y: i64,
    pub scale: i64,
}

impl Rock {
    /// Field bounds. Scales below 150 cannot arise: spawns start at 300 and
    /// only rocks strictly above 750 split in half.
    pub open spec fn wf(self) -> bool {
        &&& -POS_LIMIT <= self.x <= POS_LIMIT
        &&& -POS_LIMIT <= self.y <= POS_LIMIT
        &&& -VEL_LIMIT <= self.vel_x <= VEL_LIMIT
        &&& -VEL_LIMIT <= self.vel_y <= VEL_LIMIT
        &&& 150 <= self.scale <= 1500
    }

    /// Damage is proportional to scale.
    pub open spec fn damage_spec(self) -> i64 {
        (BASE_DAMAGE * self.scale) as i64
    }

    /// Damage dealt to a ship's health (milli-points).
    pub fn damage(&self) -> (d: i64)
        requires
            self.wf(),
        ensures
            d == self.damage_spec(),
            0 <= d <= 7_500,
    {
        BASE_DAMAGE * self.scale
    }

    /// The collision radius is proportional to scale.
    pub open spec fn radius_spec(self) -> i64 {
        (RADIUS_PER_SCALE * self.scale) as i64
    }

    /// The rock's collision radius in milli-units.
    pub fn radius(&self) -> (r: i64)
        requires
            self.wf(),
        ensures
            r == self.radius_spec(),
            0 <= r <= 67_500,
    {
        RADIUS_PER_SCALE * self.scale
    }

    /// Whether the rock has left the padded screen bounds.
    pub open spec fn oob_spec(self) -> bool {
        self.x < -OUT_OF_BOUNDS_PADDING || self.y < -OUT_OF_BOUNDS_PADDING || self.x
            > utils::WIDTH + OUT_OF_BOUNDS_PADDING || self.y > utils::HEIGHT
            + OUT_OF_BOUNDS_PADDING
    }

    /// Whether the rock has left the padded screen bounds.
    pub fn is_out_of_bounds(&self) -> (r: bool)
        ensures
            r == self.oob_spec(),
    {
        self.x < -OUT_OF_BOUNDS_PADDING || self.y < -OUT_OF_BOUNDS_PADDING || self.x
            > utils::WIDTH + OUT_OF_BOUNDS_PADDING || self.y > utils::HEIGHT
            + OUT_OF_BOUNDS_PADDING
    }

    /// The rock one clamped time step later.
    pub open spec fn updated_spec(self, now: i64) -> Rock {
        let dt = elapsed_spec(self.updated_at as int, now as int);
        Rock {
            updated_at: now,
            x: (self.x + scaled_spec(self.vel_x as int, dt)) as i64,
            y: (self.y + scaled_spec(self.vel_y as int, dt)) as i64,
            ..self
        }
    }

    /// Advance the rock by the clamped elapsed time.
    pub fn update(&mut self, now: i64)
        requires
            old(self).wf(),
            !old(self).oob_spec(),
        ensures
            *final(self) == old(self).updated_spec(now),
            final(self).wf(),
            -POS_AFTER_UPDATE <= final(self).x <= POS_AFTER_UPDATE,
            -POS_AFTER_UPDATE <= final(self).y <= POS_AFTER_UPDATE,
    {
        let dt = utils::elapsed_ms(self.updated_at, now);
        proof {
            lemma_scaled_bound(self.vel_x as int, dt as int, 500);
            lemma_scaled_bound(self.vel_y as int, dt as int, 500);
        }
        self.x = self.x + utils::scaled(self.vel_x, dt);
        self.y = self.y + utils::scaled(self.vel_y, dt);
        self.updated_at = now;
    }

    /// The rock's collision circle.
    pub fn circle(&self) -> (c: Circle)
        requires
            self.wf(),
        ensures
            c.x == self.x + self.radius_spec(),
            c.y == self.y + self.radius_spec(),
            c.r == self.radius_spec(),
            circle_wf(c),
    {
        let r = self.radius();
        Circle { x: self.x + r, y: self.y + r, r }
    }

    /// The explosion left behind when this rock is destroyed by a
    /// collision.
    pub fn explode(&self) -> (e: Explosion)
        requires
            self.wf(),
        ensures
            e.x == self.x,
            e.y == self.y,
            e.size == 2 * self.radius_spec(),
            e.lifespan == crate::explosion::LIFESPAN,
            e.wf(),
    {
        let r = self.radius();
        Explosion::spawn(self.x, self.y, 2 * r)
    }

    /// A split child's velocity: a fresh speed along the direction
    /// `base + k` quarter turns, in the crate's fixed-point model.
    pub open spec fn child_velocity(c: Rock, base: int, k: int, speed: int) -> bool {
        &&& c.vel_x == tdiv(speed * cos_mdeg_spec(base + k * 90_000), 1000)
        &&& c.vel_y == tdiv(speed * sin_mdeg_spec(base + k * 90_000), 1000)
    }

    /// Each split child flies at a fresh random speed in the default band,
    /// aimed `k` quarter turns past the shared base angle.
    pub open spec fn split_velocities(children: Seq<Rock>, base: int) -> bool {
        forall|k: int|
            0 <= k < children.len() ==> #[trigger] Rock::has_child_velocity(
                children[k],
                base,
                k,
            )
    }

    /// Some fresh speed in the default band gives this child its velocity.
    pub open spec fn has_child_velocity(c: Rock, base: int, k: int) -> bool {
        exists|speed: int|
            DEFAULT_MIN_VEL <= speed < DEFAULT_MAX_VEL && #[trigger] Rock::child_velocity(
                c,
                base,
                k,
                speed,
            )
    }

    /// A child produced by splitting this rock: half the parent's scale,
    /// placed at the parent's center.
    pub open spec fn child_of(self, c: Rock) -> bool {
        &&& c.scale == self.scale / 2
        &&& c.x == self.x + self.radius_spec()
        &&& c.y == self.y + self.radius_spec()
        &&& c.wf()
    }

    /// Destroying a rock above the split threshold yields exactly four
    /// half-scale children at quarter-turn offsets from one random base
    /// angle; a rock at or below the threshold yields none.
    #[verifier::loop_isolation(false)]
    pub fn split(&self) -> (children: Vec<Rock>)
        requires
            self.wf(),
            -POS_AFTER_UPDATE <= self.x <= POS_AFTER_UPDATE,
            -POS_AFTER_UPDATE <= self.y <= POS_AFTER_UPDATE,
        ensures
            self.scale <= DEFAULT_SCALE ==> children@.len() == 0,
            self.scale > DEFAULT_SCALE ==> children@.len() == 4,
            forall|k: int| 0 <= k < children@.len() ==> self.child_of(#[trigger] children@[k]),
            self.scale > DEFAULT_SCALE ==> exists|base: int|
                1_000 <= base < 360_000 && #[trigger] Rock::split_velocities(children@, base),
    {
        let mut children: Vec<Rock> = Vec::new();
        if self.scale > DEFAULT_SCALE {
            let base = utils::rand_range(1_000, 360_000);
            let cx = self.x + self.radius();
            let cy = self.y + self.radius();
            let half = self.scale / 2;
            let mut k: i64 = 0;
            while k < 4
                invariant
                    0 <= k <= 4,
                    children@.len() == k,
                    forall|t: int| 0 <= t < children@.len() ==> self.child_of(
                        #[trigger] children@[t],
                    ),
                    forall|t: int|
                        0 <= t < children@.len() ==> #[trigger] Rock::has_child_velocity(
                            children@[t],
                            base as int,
                            t,
                        ),
                decreases 4 - k,
            {
                let angle = base + k * 90_000;
                let speed = utils::rand_range(DEFAULT_MIN_VEL, DEFAULT_MAX_VEL);
                let c = trig::cos_mdeg(angle);
                let s = trig::sin_mdeg(angle);
                proof {
                    assert(-(100 * (1000 * 1000)) <= speed * c <= 100 * (1000 * 1000)
                        && -(100 * (1000 * 1000)) <= speed * s <= 100 * (1000 * 1000))
                        by (nonlinear_arith)
                        requires
                            0 <= speed <= 100_000,
                            -1000 <= c <= 1000,
                            -1000 <= s <= 1000,
                    ;
                    lemma_tdiv_bound(speed as int * c as int, 1000, 100_000);
                    lemma_tdiv_bound(speed as int * s as int, 1000, 100_000);
                }
                let vel_x = (speed * c) / 1000;
                let vel_y = (speed * s) / 1000;
                let id = utils::new_uuid_as_u64_pair();
                let updated_at = utils::now_in_millis();
                let child = Rock { id, updated_at, x: cx, y: cy, vel_x, vel_y, scale: half };
                let ghost prev = children@;
                children.push(child);
                proof {
                    assert(Rock::child_velocity(child, base as int, k as int, speed as int));
                    assert forall|t: int| 0 <= t < children@.len() implies self.child_of(
                        #[trigger] children@[t],
                    ) by {
                        if t < prev.len() {
                            assert(children@[t] == prev[t]);
                        } else {
                            assert(children@[t] == child);
                        }
                    }
                    assert forall|t: int| 0 <= t < children@.len() implies
                        #[trigger] Rock::has_child_velocity(children@[t], base as int, t) by {
                        if t < prev.len() {
                            assert(children@[t] == prev[t]);
                            assert(Rock::has_child_velocity(prev[t], base as int, t));
                        } else {
                            assert(children@[t] == child);
                            assert(Rock::child_velocity(
                                children@[t],
                                base as int,
                                t,
                                speed as int,
                            ));
                        }
                    }
                }
                k += 1;
            }
            proof {
                assert(Rock::split_velocities(children@, base as int));
            }
        }
        children
    }
}

/// Spawn a rock at a random screen edge, aimed roughly at the screen center
/// with a random angular deviation, a random speed in the given band, and a
/// random scale up to `max_scale` (thousandths).
pub fn spawn(max_scale: Option<i64>, min_vel: Option<i64>, max_vel: Option<i64>) -> (r: Rock)
    requires
        0 <= opt_or(min_vel, DEFAULT_MIN_VEL) < opt_or(max_vel, DEFAULT_MAX_VEL) <= 250_000,
        MIN_SCALE < opt_or(max_scale, DEFAULT_SCALE) <= 1500,
    ensures
        r.wf(),
        !r.oob_spec(),
        MIN_SCALE <= r.scale < opt_or(max_scale, DEFAULT_SCALE),
        ((r.x == -50_000 || r.x == utils::WIDTH + 50_000) && (r.y == 0 || r.y == utils::HEIGHT))
            || ((r.x == 0 || r.x == utils::WIDTH) && (r.y == -50_000 || r.y == utils::HEIGHT
            + 50_000)),
        -2 * opt_or(max_vel, DEFAULT_MAX_VEL) <= r.vel_x <= 2 * opt_or(max_vel, DEFAULT_MAX_VEL),
        -2 * opt_or(max_vel, DEFAULT_MAX_VEL) <= r.vel_y <= 2 * opt_or(max_vel, DEFAULT_MAX_VEL),
        exists|arc: int, speed: int|
            -ARC <= arc < ARC && opt_or(min_vel, DEFAULT_MIN_VEL) <= speed < opt_or(
                max_vel,
                DEFAULT_MAX_VEL,
            ) && r.vel_x == (#[trigger] aim_spec(r.x as int, r.y as int, arc, speed)).0
                && r.vel_y == aim_spec(r.x as int, r.y as int, arc, speed).1,
{
    let mn = opt_or_exec(&min_vel, DEFAULT_MIN_VEL);
    let mx = opt_or_exec(&max_vel, DEFAULT_MAX_VEL);
    let mxs = opt_or_exec(&max_scale, DEFAULT_SCALE);
    let horizontal = utils::rand_range(0, 2) == 0;
    let (x, y) = if horizontal {
        spawn_horizontal()
    } else {
        spawn_vertical()
    };
    let arc = utils::rand_range(-ARC, ARC);
    let speed = utils::rand_range(mn, mx);
    let (vel_x, vel_y) = aim_from(x, y, arc, speed);
    let scale = utils::rand_range(MIN_SCALE, mxs);
    let id = utils::new_uuid_as_u64_pair();
    let updated_at = utils::now_in_millis();
    let r = Rock { id, updated_at, x, y, vel_x, vel_y, scale };
    proof {
        assert(r.vel_x == aim_spec(r.x as int, r.y as int, arc as int, speed as int).0
            && r.vel_y == aim_spec(r.x as int, r.y as int, arc as int, speed as int).1);
    }
    r
}

} // verus!
