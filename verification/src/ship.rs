//! Player ships: screen-wrapped physics with friction, passive health
//! recharge, death and respawn, scoring, and the ship collection addressed
//! by player-supplied string ids.

use vstd::prelude::*;
use crate::collision::{Circle, circle_wf};
use crate::enemy::Enemy;
use crate::missile::Missile;
use crate::trig;
use crate::trig::{cos_mdeg_spec, isqrt_spec, sin_mdeg_spec};
use crate::utils;
use crate::utils::{
    clamp_spec, elapsed_spec, lemma_scaled_bound, lemma_tdiv_bound, scaled_spec, tdiv,
    wrap_dim_spec,
};

verus! {

/// Ship identity: the player-supplied string id.
pub type ID = String;

/// Full health in milli-points.
pub const MAX_HEALTH: i64 = 100_000;

/// How long after a thrust impulse the ship still counts as thrusting, in
/// milliseconds.
pub const THRUST_DURATION: i64 = 50;

/// Passive health recharge per tick, in milli-points.
pub const HEALTH_RECHARGE: i64 = 5;

/// A dead ship inactive for this long is flagged for removal (15 minutes,
/// in milliseconds).
pub const KICK_DELAY: i64 = 900_000;

/// Forward impulse per thrust command, in world units per second.
pub const ACCELERATION: i64 = 20;

/// Angular impulse per turn command, in milli-degrees per second.
pub const TURN_ACCELERATION: i64 = 300_000;

/// Score deducted on death, floored at zero.
pub const DEATH_PENALTY: i64 = 50;

/// Ship collision radius in milli-units.
pub const RADIUS: i64 = 45_000;

/// Linear velocity is saturated at this magnitude, milli-units per second.
pub const VEL_LIMIT: i64 = 2_000_000;

/// Angular velocity is saturated at this magnitude, milli-degrees per
/// second.
pub const AVEL_LIMIT: i64 = 10_000_000;

/// Scores saturate here, far beyond anything reachable in play.
pub const SCORE_CAP: i64 = 1_000_000_000_000;

/// One player ship. Positions are milli-units, velocities milli-units per
/// second, the facing angle milli-degrees in `[0, 360_000)`.
pub struct Ship {
    pub id: ID,
    pub name: Option<String>,
    pub updated_at: i64,
    pub x: i64,
    pub y: i64,
    pub vel_x: i64,
    pub vel_y: i64,
    pub angle: i64,
    pub vel_angle: i64,
    pub thrusted_at: i64,
    pub thrusting: bool,
    pub health: i64,
    pub score: i64,
    pub destroyed_at: Option<i64>,
    pub remove: bool,
}

impl Ship {
    /// Field bounds: the position is wrapped onto the screen band, the
    /// velocities are saturated, health and score stay in range.
    pub open spec fn wf(self) -> bool {
        &&& -RADIUS <= self.x <= utils::WIDTH
        &&& -RADIUS <= self.y <= utils::HEIGHT
        &&& -VEL_LIMIT <= self.vel_x <= VEL_LIMIT
        &&& -VEL_LIMIT <= self.vel_y <= VEL_LIMIT
        &&& -AVEL_LIMIT <= self.vel_angle <= AVEL_LIMIT
        &&& 0 <= self.angle < 360_000
        &&& 0 <= self.health <= MAX_HEALTH
        &&& 0 <= self.score <= SCORE_CAP
    }

    /// A dead ship has its destruction timestamp set; it stays in the
    /// collection until respawned or kicked.
    pub open spec fn is_dead_spec(self) -> bool {
        self.destroyed_at is Some
    }

    /// Whether the ship is dead.
    pub fn is_dead(&self) -> (r: bool)
        ensures
            r == self.is_dead_spec(),
    {
        self.destroyed_at.is_some()
    }

    /// The ship's collision radius in milli-units.
    pub fn radius(&self) -> (r: i64)
        ensures
            r == RADIUS,
    {
        RADIUS
    }

    /// The ship's collision circle.
    pub open spec fn circle_spec(self) -> Circle {
        Circle { x: (self.x + RADIUS) as i64, y: (self.y + RADIUS) as i64, r: RADIUS }
    }

    /// The ship's collision circle.
    pub fn circle(&self) -> (c: Circle)
        requires
            self.wf(),
        ensures
            c == self.circle_spec(),
            circle_wf(c),
    {
        Circle { x: self.x + RADIUS, y: self.y + RADIUS, r: RADIUS }
    }

    /// Copy of this ship (ships own strings, so they are not `Copy`).
    pub fn duplicate(&self) -> (s: Ship)
        ensures
            s == *self,
    {
        Ship {
            id: self.id.clone(),
            name: match &self.name {
                Some(n) => Some(n.clone()),
                None => None,
            },
            updated_at: self.updated_at,
            x: self.x,
            y: self.y,
            vel_x: self.vel_x,
            vel_y: self.vel_y,
            angle: self.angle,
            vel_angle: self.vel_angle,
            thrusted_at: self.thrusted_at,
            thrusting: self.thrusting,
            health: self.health,
            score: self.score,
            destroyed_at: self.destroyed_at,
            remove: self.remove,
        }
    }

    /// The ship after one turn command: an angular impulse, saturated.
    pub open spec fn turned_spec(self, clockwise: bool) -> Ship {
        let delta: int = if clockwise {
            TURN_ACCELERATION as int
        } else {
            -TURN_ACCELERATION as int
        };
        Ship {
            vel_angle: clamp_spec(
                self.vel_angle + delta,
                -AVEL_LIMIT as int,
                AVEL_LIMIT as int,
            ) as i64,
            ..self
        }
    }

    /// Adjust angular velocity by one turn impulse.
    pub fn turn(&mut self, clockwise: bool)
        requires
            old(self).wf(),
        ensures
            *final(self) == old(self).turned_spec(clockwise),
            final(self).wf(),
    {
        let delta: i64 = if clockwise {
            TURN_ACCELERATION
        } else {
            -TURN_ACCELERATION
        };
        let nv = self.vel_angle + delta;
        self.vel_angle = if nv > AVEL_LIMIT {
            AVEL_LIMIT
        } else if nv < -AVEL_LIMIT {
            -AVEL_LIMIT
        } else {
            nv
        };
    }

    /// The ship after one thrust command: a forward impulse along the
    /// facing angle, saturated, and the thrust timestamp recorded.
    pub open spec fn thrusted_spec(self, now: i64) -> Ship {
        Ship {
            thrusted_at: now,
            vel_x: clamp_spec(
                self.vel_x + ACCELERATION * cos_mdeg_spec(self.angle as int),
                -VEL_LIMIT as int,
                VEL_LIMIT as int,
            ) as i64,
            vel_y: clamp_spec(
                self.vel_y + ACCELERATION * sin_mdeg_spec(self.angle as int),
                -VEL_LIMIT as int,
                VEL_LIMIT as int,
            ) as i64,
            ..self
        }
    }

    /// Apply one forward thrust impulse along the current facing angle.
    pub fn thrust(&mut self, now: i64)
        requires
            old(self).wf(),
        ensures
            *final(self) == old(self).thrusted_spec(now),
            final(self).wf(),
    {
        let dvx = ACCELERATION * trig::cos_mdeg(self.angle);
        let dvy = ACCELERATION * trig::sin_mdeg(self.angle);
        let nx = self.vel_x + dvx;
        let ny = self.vel_y + dvy;
        self.vel_x = if nx > VEL_LIMIT {
            VEL_LIMIT
        } else if nx < -VEL_LIMIT {
            -VEL_LIMIT
        } else {
            nx
        };
        self.vel_y = if ny > VEL_LIMIT {
            VEL_LIMIT
        } else if ny < -VEL_LIMIT {
            -VEL_LIMIT
        } else {
            ny
        };
        self.thrusted_at = now;
    }

    /// The ship after one physics-and-health step: position advanced and
    /// wrapped across each axis, facing angle advanced and reduced to one
    /// turn, linear and angular friction applied; then, depending on state:
    /// a dead ship inactive beyond the kick delay is flagged for removal, a
    /// live ship at zero health dies (timestamp set, score penalized,
    /// floored at zero), and any other live ship recharges a little health.
    pub open spec fn updated_spec(self, now: i64) -> Ship {
        let dt = elapsed_spec(self.updated_at as int, now as int);
        let base = Ship {
            updated_at: now,
            x: wrap_dim_spec(self.x + scaled_spec(self.vel_x as int, dt), 640, RADIUS as int)
                as i64,
            y: wrap_dim_spec(self.y + scaled_spec(self.vel_y as int, dt), 480, RADIUS as int)
                as i64,
            angle: ((self.angle + scaled_spec(self.vel_angle as int, dt)) % 360_000) as i64,
            vel_x: tdiv(self.vel_x * 95, 100) as i64,
            vel_y: tdiv(self.vel_y * 95, 100) as i64,
            vel_angle: tdiv(self.vel_angle * 5, 100) as i64,
            thrusting: now - self.thrusted_at < THRUST_DURATION,
            ..self
        };
        match base.destroyed_at {
            Some(d) => if now - d > KICK_DELAY {
                Ship { remove: true, ..base }
            } else {
                base
            },
            None => if base.health == 0 {
                Ship {
                    destroyed_at: Some(now),
                    score: if base.score - DEATH_PENALTY > 0 {
                        (base.score - DEATH_PENALTY) as i64
                    } else {
                        0
                    },
                    ..base
                }
            } else {
                Ship {
                    health: if base.health + HEALTH_RECHARGE > MAX_HEALTH {
                        MAX_HEALTH
                    } else {
                        (base.health + HEALTH_RECHARGE) as i64
                    },
                    ..base
                }
            },
        }
    }

    /// Advance physics and health by one clamped time step.
    pub fn update(&mut self, now: i64)
        requires
            old(self).wf(),
        ensures
            *final(self) == old(self).updated_spec(now),
            final(self).wf(),
    {
        let dt = utils::elapsed_ms(self.updated_at, now);
        proof {
            lemma_scaled_bound(self.vel_x as int, dt as int, 2_000);
            lemma_scaled_bound(self.vel_y as int, dt as int, 2_000);
            lemma_scaled_bound(self.vel_angle as int, dt as int, 10_000);
            lemma_tdiv_bound(self.vel_x as int * 95, 100, VEL_LIMIT as int);
            lemma_tdiv_bound(self.vel_y as int * 95, 100, VEL_LIMIT as int);
            lemma_tdiv_bound(self.vel_angle as int * 5, 100, AVEL_LIMIT as int);
        }
        self.x = utils::wrap_dim(self.x + utils::scaled(self.vel_x, dt), utils::WIDTH / 1000, RADIUS);
        self.y = utils::wrap_dim(
            self.y + utils::scaled(self.vel_y, dt),
            utils::HEIGHT / 1000,
            RADIUS,
        );
        self.angle = utils::modulo(self.angle + utils::scaled(self.vel_angle, dt), 360_000);
        self.vel_x = (self.vel_x * 95) / 100;
        self.vel_y = (self.vel_y * 95) / 100;
        self.vel_angle = (self.vel_angle * 5) / 100;
        self.thrusting = (now as i128 - self.thrusted_at as i128) < THRUST_DURATION as i128;
        self.updated_at = now;
        match self.destroyed_at {
            Some(d) => {
                if (now as i128 - d as i128) > KICK_DELAY as i128 {
                    self.remove = true;
                }
            },
            None => {
                if self.health == 0 {
                    self.destroyed_at = Some(now);
                    self.score = if self.score - DEATH_PENALTY > 0 {
                        self.score - DEATH_PENALTY
                    } else {
                        0
                    };
                } else {
                    self.health = if self.health + HEALTH_RECHARGE > MAX_HEALTH {
                        MAX_HEALTH
                    } else {
                        self.health + HEALTH_RECHARGE
                    };
                }
            },
        }
    }

    /// Honored only while dead: clear the destruction timestamp and restore
    /// full health, leaving position and velocity untouched.
    pub fn respawn(&mut self)
        requires
            old(self).wf(),
        ensures
            old(self).is_dead_spec() ==> *final(self) == (Ship {
                destroyed_at: None,
                health: MAX_HEALTH,
                ..*old(self)
            }),
            !old(self).is_dead_spec() ==> *final(self) == *old(self),
            final(self).wf(),
    {
        if self.destroyed_at.is_some() {
            self.destroyed_at = None;
            self.health = MAX_HEALTH;
        }
    }

    /// The ship after colliding with an enemy: a knockback velocity aimed
    /// straight away from the enemy at the enemy's knockback speed, and the
    /// enemy's damage subtracted from health, floored at zero.
    pub open spec fn collided_with_spec(self, enemy: Enemy) -> Ship {
        let dx = enemy.x_spec() - self.x;
        let dy = enemy.y_spec() - self.y;
        let d = isqrt_spec(dx * dx + dy * dy);
        let repel = enemy.repel_vel_spec() as int;
        let vx: int = if d == 0 {
            -repel
        } else {
            -tdiv(repel * dx, d)
        };
        let vy: int = if d == 0 {
            0
        } else {
            -tdiv(repel * dy, d)
        };
        Ship {
            vel_x: vx as i64,
            vel_y: vy as i64,
            health: if self.health - enemy.damage_spec() > 0 {
                (self.health - enemy.damage_spec()) as i64
            } else {
                0
            },
            ..self
        }
    }

    /// Apply the knockback and damage of one collision with an enemy.
    pub fn collide_with(&mut self, enemy: &Enemy)
        requires
            old(self).wf(),
            enemy.wf(),
        ensures
            *final(self) == old(self).collided_with_spec(*enemy),
            final(self).wf(),
    {
        let dx = enemy.x() - self.x;
        let dy = enemy.y() - self.y;
        proof {
            assert(0 <= dx * dx <= 1_100_000_000_000_000 && 0 <= dy * dy
                <= 1_100_000_000_000_000) by (nonlinear_arith)
                requires
                    -33_000_000 <= dx <= 33_000_000,
                    -33_000_000 <= dy <= 33_000_000,
            ;
        }
        let d = trig::isqrt(dx * dx + dy * dy);
        let repel = enemy.repel_vel();
        if d == 0 {
            self.vel_x = -repel;
            self.vel_y = 0;
        } else {
            proof {
                trig::lemma_isqrt_dominates(d as int, dx as int, dy as int);
                assert(d <= 100_000_000) by (nonlinear_arith)
                    requires
                        0 <= d,
                        d * d <= 2_200_000_000_000_000,
                ;
                assert(-(repel * d) <= repel * dx <= repel * d && -(repel * d) <= repel * dy
                    <= repel * d && -100_000_000_000_000 <= repel * dx <= 100_000_000_000_000
                    && -100_000_000_000_000 <= repel * dy <= 100_000_000_000_000)
                    by (nonlinear_arith)
                    requires
                        0 <= repel <= 1_000_000,
                        0 < d <= 100_000_000,
                        -d <= dx <= d,
                        -d <= dy <= d,
                ;
                lemma_tdiv_bound(repel as int * dx as int, d as int, repel as int);
                lemma_tdiv_bound(repel as int * dy as int, d as int, repel as int);
            }
            self.vel_x = -((repel * dx) / d);
            self.vel_y = -((repel * dy) / d);
        }
        let damage = enemy.damage();
        self.health = if self.health - damage > 0 {
            self.health - damage
        } else {
            0
        };
    }

    /// The deterministic fields of a missile this ship fires: it appears
    /// near the ship's center with a small angle-derived offset, aimed along
    /// the ship's facing angle at the fixed missile speed.
    pub open spec fn missile_matches(self, m: Missile) -> bool {
        &&& m.shooter_id@ == self.id@
        &&& m.x == cos_mdeg_spec(45 * self.angle as int) + self.x + RADIUS
        &&& m.y == sin_mdeg_spec(45 * self.angle as int) + self.y + RADIUS
        &&& m.vel_x == crate::missile::VEL * cos_mdeg_spec(self.angle as int)
        &&& m.vel_y == crate::missile::VEL * sin_mdeg_spec(self.angle as int)
        &&& m.lifespan == crate::missile::LIFESPAN
    }

    /// Fire one missile from this ship.
    pub fn spawn_missile(&self) -> (m: Missile)
        requires
            self.wf(),
        ensures
            self.missile_matches(m),
            m.wf(),
    {
        // offset angle: the whole-unit ship radius times the facing angle
        let offset = (RADIUS / 1000) * self.angle;
        let mx = trig::cos_mdeg(offset) + self.x + RADIUS;
        let my = trig::sin_mdeg(offset) + self.y + RADIUS;
        Missile::spawn(self.id.clone(), mx, my, self.angle)
    }
}

/// A fresh ship with default state at the origin.
pub open spec fn spawn_spec(id: ID, name: Option<String>, now: i64) -> Ship {
    Ship {
        id,
        name,
        updated_at: now,
        x: 0,
        y: 0,
        vel_x: 0,
        vel_y: 0,
        angle: 0,
        vel_angle: 0,
        thrusted_at: (-THRUST_DURATION) as i64,
        thrusting: false,
        health: MAX_HEALTH,
        score: 0,
        destroyed_at: None,
        remove: false,
    }
}

/// Build a fresh ship with an explicit timestamp.
pub fn spawn_at(id: ID, name: Option<String>, now: i64) -> (s: Ship)
    ensures
        s == spawn_spec(id, name, now),
        s.wf(),
{
    Ship {
        id,
        name,
        updated_at: now,
        x: 0,
        y: 0,
        vel_x: 0,
        vel_y: 0,
        angle: 0,
        vel_angle: 0,
        thrusted_at: -THRUST_DURATION,
        thrusting: false,
        health: MAX_HEALTH,
        score: 0,
        destroyed_at: None,
        remove: false,
    }
}

/// Build a fresh ship stamped with the current wall clock.
pub fn spawn(id: ID, name: Option<String>) -> (s: Ship)
    ensures
        exists|now: i64| s == spawn_spec(id, name, now),
        s.wf(),
{
    let now = utils::now_in_millis();
    spawn_at(id, name, now)
}


/// The per-ship advance of one tick.
pub open spec fn ship_update_map(now: i64) -> spec_fn(Ship) -> Ship {
    |s: Ship| s.updated_spec(now)
}

/// The pruning predicate of one tick: a ship survives unless it was flagged
/// for removal.
pub open spec fn not_removed_pred() -> spec_fn(Ship) -> bool {
    |s: Ship| !s.remove
}

/// Ships whose id differs from `id`.
pub open spec fn id_differs(id: Seq<char>) -> spec_fn(Ship) -> bool {
    |s: Ship| s.id@ != id
}

/// No two ships share an id.
pub open spec fn ids_distinct(s: Seq<Ship>) -> bool {
    forall|i: int, j: int|
        0 <= i < j < s.len() ==> (#[trigger] s[i]).id@ != (#[trigger] s[j]).id@
}

/// The total of all ships' scores.
pub open spec fn sum_scores(s: Seq<Ship>) -> int
    decreases s.len(),
{
    if s.len() == 0 {
        0
    } else {
        sum_scores(s.drop_last()) + s.last().score
    }
}

/// Extending a summed prefix by one ship adds that ship's score.
proof fn lemma_sum_scores_step(s: Seq<Ship>, i: int)
    requires
        0 <= i < s.len(),
    ensures
        sum_scores(s.subrange(0, i + 1)) == sum_scores(s.subrange(0, i)) + s[i].score,
{
    assert(s.subrange(0, i + 1).drop_last() =~= s.subrange(0, i));
    assert(s.subrange(0, i + 1).last() == s[i]);
}

/// The ship collection, addressed by player-supplied string ids.
pub struct Ships {
    pub entities: Vec<Ship>,
}

impl Ships {
    /// Every ship is well-formed, ids are unique, and the collection is
    /// below the entity cap.
    pub open spec fn wf(self) -> bool {
        &&& forall|i: int| 0 <= i < self.entities@.len() ==> (#[trigger] self.entities@[i]).wf()
        &&& ids_distinct(self.entities@)
        &&& self.entities@.len() <= crate::missile::ENTITY_CAP
    }

    /// An empty collection.
    pub fn init() -> (r: Ships)
        ensures
            r.entities@ =~= Seq::<Ship>::empty(),
            r.wf(),
    {
        Ships { entities: Vec::new() }
    }

    /// Find the ship with the given id.
    fn find(&self, id: &String) -> (found: Option<usize>)
        ensures
            match found {
                Some(i) => i < self.entities@.len() && self.entities@[i as int].id@ == id@,
                None => forall|j: int|
                    0 <= j < self.entities@.len() ==> (#[trigger] self.entities@[j]).id@ != id@,
            },
    {
        let n = self.entities.len();
        let mut k: usize = 0;
        while k < n
            invariant
                k <= n == self.entities@.len(),
                forall|j: int| 0 <= j < k ==> (#[trigger] self.entities@[j]).id@ != id@,
            decreases n - k,
        {
            if self.entities[k].id == *id {
                return Some(k);
            }
            k += 1;
        }
        None
    }

    /// The summed score of all ships.
    #[verifier::loop_isolation(false)]
    pub fn total_score(&self) -> (total: i64)
        requires
            self.wf(),
        ensures
            total == sum_scores(self.entities@),
    {
        let ghost orig = self.entities@;
        let n = self.entities.len();
        let mut total: i64 = 0;
        let mut i: usize = 0;
        while i < n
            invariant
                i <= n,
                total == sum_scores(orig.subrange(0, i as int)),
                0 <= total <= i * SCORE_CAP,
            decreases n - i,
        {
            proof {
                lemma_sum_scores_step(orig, i as int);
            }
            total = total + self.entities[i].score;
            i += 1;
        }
        proof {
            assert(orig.subrange(0, n as int) =~= orig);
        }
        total
    }

    /// Add `points` to the score of the ship with this id, saturating at
    /// the score cap; no-op if the id is unknown.
    pub fn increase_score(&mut self, id: ID, points: i64)
        requires
            old(self).wf(),
            points >= 0,
        ensures
            final(self).wf(),
            final(self).entities@.len() == old(self).entities@.len(),
            forall|j: int|
                0 <= j < old(self).entities@.len() && (#[trigger] old(self).entities@[j]).id@
                    != id@ ==> final(self).entities@[j] == old(self).entities@[j],
            forall|j: int|
                0 <= j < old(self).entities@.len() && (#[trigger] old(self).entities@[j]).id@
                    == id@ ==> final(self).entities@[j] == (Ship {
                    score: clamp_spec(
                        old(self).entities@[j].score + points,
                        0,
                        SCORE_CAP as int,
                    ) as i64,
                    ..old(self).entities@[j]
                }),
    {
        match self.find(&id) {
            None => {},
            Some(i) => {
                let wide: i128 = self.entities[i].score as i128 + points as i128;
                let ns: i64 = if wide > SCORE_CAP as i128 {
                    SCORE_CAP
                } else {
                    wide as i64
                };
                let e = &mut self.entities[i];
                e.score = ns;
                proof {
                    assert forall|p: int, q: int|
                        0 <= p < q < self.entities@.len() implies (
                    #[trigger] self.entities@[p]).id@ != (#[trigger] self.entities@[q]).id@ by {
                        assert(self.entities@[p].id == old(self).entities@[p].id);
                        assert(self.entities@[q].id == old(self).entities@[q].id);
                    }
                    assert forall|j: int|
                        0 <= j < old(self).entities@.len() && (#[trigger] old(
                            self,
                        ).entities@[j]).id@ == id@ implies j == i as int by {
                        if j != i as int {
                            assert(old(self).entities@[j].id@ != old(self).entities@[
                                i as int
                            ].id@);
                        }
                    }
                }
            },
        }
    }

    /// Whether the ship with this id is dead, if it exists.
    pub fn is_dead(&self, id: &ID) -> (r: Option<bool>)
        ensures
            match r {
                Some(b) => exists|j: int|
                    0 <= j < self.entities@.len() && (#[trigger] self.entities@[j]).id@ == id@
                        && b == self.entities@[j].is_dead_spec(),
                None => forall|j: int|
                    0 <= j < self.entities@.len() ==> (#[trigger] self.entities@[j]).id@ != id@,
            },
    {
        match self.find(id) {
            None => None,
            Some(i) => Some(self.entities[i].is_dead()),
        }
    }

    /// Fire a missile from the ship with this id, if it exists.
    pub fn spawn_missile(&self, id: &ID) -> (r: Option<Missile>)
        requires
            self.wf(),
        ensures
            match r {
                Some(m) => m.wf() && exists|j: int|
                    0 <= j < self.entities@.len() && (#[trigger] self.entities@[j]).id@ == id@
                        && self.entities@[j].missile_matches(m),
                None => forall|j: int|
                    0 <= j < self.entities@.len() ==> (#[trigger] self.entities@[j]).id@ != id@,
            },
    {
        match self.find(id) {
            None => None,
            Some(i) => Some(self.entities[i].spawn_missile()),
        }
    }

    /// Drop every ship whose id matches, keeping the rest in order.
    fn remove_matching(&mut self, id: &String)
        requires
            old(self).wf(),
        ensures
            final(self).wf(),
            final(self).entities@ == old(self).entities@.filter(id_differs(id@)),
            forall|k: int|
                0 <= k < final(self).entities@.len() ==> (#[trigger] final(self).entities@[
                    k
                ]).id@ != id@,
    {
        let ghost orig = self.entities@;
        let n = self.entities.len();
        let mut kept: Vec<Ship> = Vec::new();
        let mut i: usize = 0;
        while i < n
            invariant
                i <= n == orig.len(),
                self.entities@ == orig,
                self.wf(),
                kept@ =~= orig.subrange(0, i as int).filter(id_differs(id@)),
                kept@.len() <= i,
                forall|k: int|
                    0 <= k < kept@.len() ==> exists|j: int|
                        0 <= j < i && #[trigger] kept@[k] == orig[j],
                forall|k: int| 0 <= k < kept@.len() ==> (#[trigger] kept@[k]).id@ != id@,
                forall|k: int| 0 <= k < kept@.len() ==> (#[trigger] kept@[k]).wf(),
                ids_distinct(kept@),
            decreases n - i,
        {
            proof {
                crate::utils::lemma_filter_step(orig, i as int, id_differs(id@));
            }
            if !(self.entities[i].id == *id) {
                let e = self.entities[i].duplicate();
                let ghost prev = kept@;
                kept.push(e);
                proof {
                    assert forall|k: int| 0 <= k < kept@.len() implies exists|j: int|
                        0 <= j < i + 1 && #[trigger] kept@[k] == orig[j] by {
                        if k < prev.len() {
                            assert(kept@[k] == prev[k]);
                            let j0 = choose|j0: int| 0 <= j0 < i && prev[k] == orig[j0];
                            assert(kept@[k] == orig[j0]);
                        } else {
                            assert(kept@[k] == orig[i as int]);
                        }
                    }
                    assert forall|p: int, q: int| 0 <= p < q < kept@.len() implies (
                    #[trigger] kept@[p]).id@ != (#[trigger] kept@[q]).id@ by {
                        if q == kept@.len() - 1 {
                            assert(kept@[p] == prev[p]);
                            let j0 = choose|j0: int| 0 <= j0 < i && prev[p] == orig[j0];
                            assert(orig[j0].id@ != orig[i as int].id@);
                        } else {
                            assert(kept@[p] == prev[p] && kept@[q] == prev[q]);
                        }
                    }
                    assert forall|k: int| 0 <= k < kept@.len() implies (#[trigger] kept@[k]).id@
                        != id@ && kept@[k].wf() by {
                        if k < prev.len() {
                            assert(kept@[k] == prev[k]);
                        } else {
                            assert(kept@[k] == orig[i as int]);
                        }
                    }
                }
            }
            i += 1;
        }
        proof {
            assert(orig.subrange(0, n as int) =~= orig);
            assert(kept@.len() <= orig.len());
        }
        self.entities = kept;
    }

    /// Delete the ship with this id immediately; no-op if unknown.
    pub fn remove(&mut self, id: &ID)
        requires
            old(self).wf(),
        ensures
            final(self).wf(),
            final(self).entities@ == old(self).entities@.filter(id_differs(id@)),
    {
        self.remove_matching(id);
    }

    /// Insert a fresh default ship under this id with an explicit
    /// timestamp, overwriting any ship that already used the id.
    pub fn spawn_at(&mut self, id: ID, name: Option<String>, now: i64)
        requires
            old(self).wf(),
        ensures
            final(self).wf(),
            old(self).entities@.filter(id_differs(id@)).len() < crate::missile::ENTITY_CAP
                ==> final(self).entities@ == old(self).entities@.filter(id_differs(id@)).push(
                spawn_spec(id, name, now),
            ),
    {
        self.remove_matching(&id);
        let fresh = spawn_at(id, name, now);
        if self.entities.len() < crate::missile::ENTITY_CAP {
            let ghost prev = self.entities@;
            self.entities.push(fresh);
            proof {
                assert forall|p: int, q: int| 0 <= p < q < self.entities@.len() implies (
                #[trigger] self.entities@[p]).id@ != (#[trigger] self.entities@[q]).id@ by {
                    if q == self.entities@.len() - 1 {
                        assert(self.entities@[p] == prev[p]);
                    } else {
                        assert(self.entities@[p] == prev[p] && self.entities@[q] == prev[q]);
                    }
                }
                assert forall|k: int| 0 <= k < self.entities@.len() implies (
                #[trigger] self.entities@[k]).wf() by {
                    if k < prev.len() {
                        assert(self.entities@[k] == prev[k]);
                    } else {
                        assert(self.entities@[k] == fresh);
                    }
                }
            }
        }
    }

    /// Insert a fresh default ship under this id, stamped with the current
    /// wall clock, overwriting any ship that already used the id.
    pub fn spawn(&mut self, id: ID, name: Option<String>)
        requires
            old(self).wf(),
        ensures
            final(self).wf(),
            old(self).entities@.filter(id_differs(id@)).len() < crate::missile::ENTITY_CAP
                ==> exists|now: i64|
                final(self).entities@ == old(self).entities@.filter(id_differs(id@)).push(
                    #[trigger] spawn_spec(id, name, now),
                ),
    {
        let now = utils::now_in_millis();
        self.spawn_at(id, name, now);
    }

    /// One tick: purge the ships flagged for removal, then advance each
    /// survivor's physics and health.
    #[verifier::loop_isolation(false)]
    pub fn update(&mut self, now: i64)
        requires
            old(self).wf(),
        ensures
            final(self).wf(),
            final(self).entities@ == old(self).entities@.filter(not_removed_pred()).map_values(
                ship_update_map(now),
            ),
    {
        let ghost orig = self.entities@;
        let n = self.entities.len();
        let mut kept: Vec<Ship> = Vec::new();
        let mut i: usize = 0;
        while i < n
            invariant
                i <= n == orig.len(),
                self.entities@ == orig,
                self.wf(),
                kept@ =~= orig.subrange(0, i as int).filter(not_removed_pred()).map_values(
                    ship_update_map(now),
                ),
                kept@.len() <= i,
                forall|k: int|
                    0 <= k < kept@.len() ==> exists|j: int|
                        0 <= j < i && #[trigger] kept@[k] == ship_update_map(now)(orig[j]),
                forall|k: int| 0 <= k < kept@.len() ==> (#[trigger] kept@[k]).wf(),
                ids_distinct(kept@),
            decreases n - i,
        {
            proof {
                crate::utils::lemma_filter_map_step(
                    orig,
                    i as int,
                    not_removed_pred(),
                    ship_update_map(now),
                );
            }
            if !self.entities[i].remove {
                let mut e = self.entities[i].duplicate();
                e.update(now);
                let ghost prev = kept@;
                kept.push(e);
                proof {
                    assert(e == ship_update_map(now)(orig[i as int]));
                    assert(e.id == orig[i as int].id);
                    assert forall|k: int| 0 <= k < kept@.len() implies exists|j: int|
                        0 <= j < i + 1 && #[trigger] kept@[k] == ship_update_map(now)(
                            orig[j],
                        ) by {
                        if k < prev.len() {
                            assert(kept@[k] == prev[k]);
                            let j0 = choose|j0: int|
                                0 <= j0 < i && prev[k] == ship_update_map(now)(orig[j0]);
                            assert(kept@[k] == ship_update_map(now)(orig[j0]));
                        } else {
                            assert(kept@[k] == ship_update_map(now)(orig[i as int]));
                        }
                    }
                    assert forall|p: int, q: int| 0 <= p < q < kept@.len() implies (
                    #[trigger] kept@[p]).id@ != (#[trigger] kept@[q]).id@ by {
                        if q == kept@.len() - 1 {
                            assert(kept@[p] == prev[p]);
                            let j0 = choose|j0: int|
                                0 <= j0 < i && prev[p] == ship_update_map(now)(orig[j0]);
                            assert(kept@[p].id@ == orig[j0].id@);
                            assert(orig[j0].id@ != orig[i as int].id@);
                        } else {
                            assert(kept@[p] == prev[p] && kept@[q] == prev[q]);
                        }
                    }
                    assert forall|k: int| 0 <= k < kept@.len() implies (#[trigger] kept@[
                        k
                    ]).wf() by {
                        if k < prev.len() {
                            assert(kept@[k] == prev[k]);
                        } else {
                            assert(kept@[k] == e);
                        }
                    }
                }
            }
            i += 1;
        }
        proof {
            assert(orig.subrange(0, n as int) =~= orig);
        }
        self.entities = kept;
    }

    /// Respawn the ship with this id, if it exists: honored only while
    /// dead.
    pub fn respawn(&mut self, id: ID)
        requires
            old(self).wf(),
        ensures
            final(self).wf(),
            final(self).entities@.len() == old(self).entities@.len(),
            forall|j: int|
                0 <= j < old(self).entities@.len() && (#[trigger] old(self).entities@[j]).id@
                    != id@ ==> final(self).entities@[j] == old(self).entities@[j],
            forall|j: int|
                0 <= j < old(self).entities@.len() && (#[trigger] old(self).entities@[j]).id@
                    == id@ ==> final(self).entities@[j] == (if old(
                    self,
                ).entities@[j].is_dead_spec() {
                    Ship { destroyed_at: None, health: MAX_HEALTH, ..old(self).entities@[j] }
                } else {
                    old(self).entities@[j]
                }),
    {
        match self.find(&id) {
            None => {},
            Some(i) => {
                let e = &mut self.entities[i];
                e.respawn();
                proof {
                    self.lemma_one_changed(*old(self), i as int, id@);
                }
            },
        }
    }

    /// Adjust the angular velocity of the ship with this id, if it exists.
    pub fn turn(&mut self, id: ID, clockwise: bool)
        requires
            old(self).wf(),
        ensures
            final(self).wf(),
            final(self).entities@.len() == old(self).entities@.len(),
            forall|j: int|
                0 <= j < old(self).entities@.len() && (#[trigger] old(self).entities@[j]).id@
                    != id@ ==> final(self).entities@[j] == old(self).entities@[j],
            forall|j: int|
                0 <= j < old(self).entities@.len() && (#[trigger] old(self).entities@[j]).id@
                    == id@ ==> final(self).entities@[j] == old(self).entities@[j].turned_spec(
                    clockwise,
                ),
    {
        match self.find(&id) {
            None => {},
            Some(i) => {
                let e = &mut self.entities[i];
                e.turn(clockwise);
                proof {
                    self.lemma_one_changed(*old(self), i as int, id@);
                }
            },
        }
    }

    /// Apply a thrust impulse to the ship with this id, if it exists, with
    /// an explicit timestamp.
    pub fn thrust_at(&mut self, id: ID, now: i64)
        requires
            old(self).wf(),
        ensures
            final(self).wf(),
            final(self).entities@.len() == old(self).entities@.len(),
            forall|j: int|
                0 <= j < old(self).entities@.len() && (#[trigger] old(self).entities@[j]).id@
                    != id@ ==> final(self).entities@[j] == old(self).entities@[j],
            forall|j: int|
                0 <= j < old(self).entities@.len() && (#[trigger] old(self).entities@[j]).id@
                    == id@ ==> final(self).entities@[j] == old(self).entities@[j].thrusted_spec(
                    now,
                ),
    {
        match self.find(&id) {
            None => {},
            Some(i) => {
                let e = &mut self.entities[i];
                e.thrust(now);
                proof {
                    self.lemma_one_changed(*old(self), i as int, id@);
                }
            },
        }
    }

    /// Apply a thrust impulse to the ship with this id, stamped with the
    /// current wall clock.
    pub fn thrust(&mut self, id: ID)
        requires
            old(self).wf(),
        ensures
            final(self).wf(),
            final(self).entities@.len() == old(self).entities@.len(),
            forall|j: int|
                0 <= j < old(self).entities@.len() && (#[trigger] old(self).entities@[j]).id@
                    != id@ ==> final(self).entities@[j] == old(self).entities@[j],
            forall|j: int|
                0 <= j < old(self).entities@.len() && (#[trigger] old(self).entities@[j]).id@
                    == id@ ==> exists|now: i64|
                    final(self).entities@[j] == #[trigger] old(self).entities@[j].thrusted_spec(
                        now,
                    ),
    {
        let now = utils::now_in_millis();
        self.thrust_at(id, now);
    }

    /// Apply one enemy collision to the ship with this id, if it exists.
    pub fn collide_with(&mut self, id: ID, enemy: &Enemy)
        requires
            old(self).wf(),
            enemy.wf(),
        ensures
            final(self).wf(),
            final(self).entities@.len() == old(self).entities@.len(),
            forall|j: int|
                0 <= j < old(self).entities@.len() && (#[trigger] old(self).entities@[j]).id@
                    != id@ ==> final(self).entities@[j] == old(self).entities@[j],
            forall|j: int|
                0 <= j < old(self).entities@.len() && (#[trigger] old(self).entities@[j]).id@
                    == id@ ==> final(self).entities@[j] == old(
                    self,
                ).entities@[j].collided_with_spec(*enemy),
    {
        match self.find(&id) {
            None => {},
            Some(i) => {
                let e = &mut self.entities[i];
                e.collide_with(enemy);
                proof {
                    self.lemma_one_changed(*old(self), i as int, id@);
                }
            },
        }
    }

    /// After updating the entity at `i` (which matched `id`) in place, the
    /// id layout is unchanged, so distinctness carries over and `i` is the
    /// only match.
    proof fn lemma_one_changed(self, pre: Ships, i: int, id: Seq<char>)
        requires
            pre.wf(),
            0 <= i < pre.entities@.len(),
            pre.entities@[i].id@ == id,
            self.entities@.len() == pre.entities@.len(),
            self.entities@[i].id == pre.entities@[i].id,
            forall|j: int|
                0 <= j < pre.entities@.len() && j != i ==> #[trigger] self.entities@[j]
                    == pre.entities@[j],
        ensures
            ids_distinct(self.entities@),
            forall|j: int|
                0 <= j < pre.entities@.len() && (#[trigger] pre.entities@[j]).id@ == id ==> j
                    == i,
    {
        assert forall|p: int, q: int| 0 <= p < q < self.entities@.len() implies (
        #[trigger] self.entities@[p]).id@ != (#[trigger] self.entities@[q]).id@ by {
            assert(self.entities@[p].id@ == pre.entities@[p].id@);
            assert(self.entities@[q].id@ == pre.entities@[q].id@);
        }
        assert forall|j: int|
            0 <= j < pre.entities@.len() && (#[trigger] pre.entities@[j]).id@ == id implies j
            == i by {
            if j != i {
                assert(pre.entities@[j].id@ != pre.entities@[i].id@);
            }
        }
    }
}

} // verus!
