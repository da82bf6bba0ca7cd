//! The state orchestrator: the whole game world and its tick pipeline.
//!
//! A tick advances and prunes missiles, enemies (with explosions and rock
//! splits) and ships, rebuilds the spatial hash from the survivors, collects
//! and deduplicates the enemy-missile and ship-enemy collision pairs, applies
//! their effects (removal marks, per-shooter scoring, knockback and damage),
//! and finally attempts at most one policy-driven enemy spawn.

use vstd::prelude::*;
use crate::collision::{collided_spec, new_spatial_hash, pair_in};
use crate::enemy;
use crate::enemy::{Enemies, Enemy};
use crate::missile;
use crate::missile::{Missiles, count_for};
use crate::ship;
use crate::ship::{Ship, Ships, sum_scores};
use crate::spawn::{Spawner, level_bracket, level_of_score, level_spawners, spawner_set_of};
use crate::utils;
use crate::utils::clamp_spec;

verus! {

/// Missile `m` overlaps enemy `e` in the given populations.
pub open spec fn seq_emc_hit(
    enemies: Seq<Enemy>,
    missiles: Seq<crate::missile::Missile>,
    e: int,
    m: int,
) -> bool {
    &&& 0 <= e < enemies.len()
    &&& 0 <= m < missiles.len()
    &&& collided_spec(enemies[e].circle_spec(), missiles[m].circle_spec())
}

/// Some missile with this id overlaps some enemy, in the given populations.
pub open spec fn missile_id_hit_in(
    enemies: Seq<Enemy>,
    missiles: Seq<crate::missile::Missile>,
    id: missile::ID,
) -> bool {
    exists|e: int, m: int|
        #[trigger] seq_emc_hit(enemies, missiles, e, m) && missiles[m].id == id
}

/// Some enemy with this id overlaps some missile, in the given populations.
pub open spec fn enemy_id_hit_in(
    enemies: Seq<Enemy>,
    missiles: Seq<crate::missile::Missile>,
    id: enemy::ID,
) -> bool {
    exists|e: int, m: int|
        #[trigger] seq_emc_hit(enemies, missiles, e, m) && enemies[e].id_spec() == id
}

/// Everything one tick at time `now` does, seen from the pre-tick state.
/// `mid_enemies` witnesses the enemy population after the tick's own
/// prune/advance/explode/split pass (split children carry random ids and
/// velocities), and `hit_ids` the ids of the missiles found overlapping an
/// enemy. Everything else is determined: the exact missile and ship
/// prune-and-advance, the explosion bookkeeping, removal marks set if and
/// only if the id overlaps the other kind, and each ship's score grown by
/// exactly the number of its own missiles that hit, saturated at the cap.
pub open spec fn tick_outcome(
    pre: State,
    post: State,
    now: i64,
    mid_enemies: Seq<Enemy>,
    hit_ids: Seq<missile::ID>,
) -> bool {
    let mid_missiles = pre.missiles.entities@.filter(pre.missiles.keep_pred()).map_values(
        missile::update_map(now),
    );
    let mid_ships = pre.ships.entities@.filter(ship::not_removed_pred()).map_values(
        ship::ship_update_map(now),
    );
    let kept = pre.enemies.kept_after(now);
    &&& post.missiles.entities@ == mid_missiles
    &&& mid_enemies.len() >= kept.len()
    &&& mid_enemies.subrange(0, kept.len() as int) == kept
    &&& mid_enemies.len() <= kept.len() + enemy::child_count(pre.enemies.exploded_after(now))
    &&& enemy::children_appended(mid_enemies, kept.len() as int, pre.enemies.exploded_after(now))
    &&& post.enemies.entities@.len() >= mid_enemies.len()
    &&& post.enemies.entities@.subrange(0, mid_enemies.len() as int) == mid_enemies
    &&& post.enemies.entities@.len() <= mid_enemies.len() + 1
    &&& post.enemies.explosions.entities@.len() == pre.enemies.explosions_after(now).len()
        + pre.enemies.exploded_after(now).len()
    &&& (forall|id: missile::ID|
        #[trigger] post.missiles.marked(id) <==> missile_id_hit_in(
            mid_enemies,
            mid_missiles,
            id,
        ))
    &&& (forall|id: enemy::ID|
        #[trigger] post.enemies.marked(id) <==> enemy_id_hit_in(mid_enemies, mid_missiles, id))
    &&& (forall|id: missile::ID|
        #[trigger] hit_ids.contains(id) <==> missile_id_hit_in(mid_enemies, mid_missiles, id))
    &&& post.ships.entities@.len() == mid_ships.len()
    &&& (forall|j: int|
        0 <= j < mid_ships.len() ==> (#[trigger] post.ships.entities@[j]).score == clamp_spec(
            mid_ships[j].score + count_for(mid_missiles, hit_ids, mid_ships[j].id@),
            0,
            ship::SCORE_CAP as int,
        ))
    &&& (forall|j: int|
        0 <= j < mid_ships.len() ==> ships_tick_frame(
            #[trigger] post.ships.entities@[j],
            mid_ships[j],
        ))
}

/// One ship-enemy collision pair applied: if some enemy carries the pair's
/// enemy id, the ship addressed by the pair takes that enemy's knockback
/// and damage; a pair whose enemy id no longer resolves changes nothing
/// (defensive lookup, no retries).
pub open spec fn apply_one_sec(
    enemies: Seq<Enemy>,
    ships: Seq<Ship>,
    sid: Seq<char>,
    eid: enemy::ID,
) -> Seq<Ship> {
    if exists|i: int| 0 <= i < enemies.len() && (#[trigger] enemies[i]).id_spec() == eid {
        let i = choose|i: int|
            0 <= i < enemies.len() && (#[trigger] enemies[i]).id_spec() == eid;
        Seq::new(
            ships.len(),
            |j: int|
                if ships[j].id@ == sid {
                    ships[j].collided_with_spec(enemies[i])
                } else {
                    ships[j]
                },
        )
    } else {
        ships
    }
}

/// A whole ship-enemy collision pass: the pairs applied in order.
pub open spec fn apply_sec_pairs(
    enemies: Seq<Enemy>,
    ships: Seq<Ship>,
    secs: Seq<(ship::ID, enemy::ID)>,
) -> Seq<Ship>
    decreases secs.len(),
{
    if secs.len() == 0 {
        ships
    } else {
        apply_one_sec(
            enemies,
            apply_sec_pairs(enemies, ships, secs.drop_last()),
            secs.last().0@,
            secs.last().1,
        )
    }
}

/// What a ship-enemy collision pass may change about one ship: only the
/// linear velocity and the health, and health only downward (floored at
/// zero). Everything else is untouched.
pub open spec fn ships_collision_frame(cur: Ship, orig: Ship) -> bool {
    &&& cur.id == orig.id
    &&& cur.name == orig.name
    &&& cur.updated_at == orig.updated_at
    &&& cur.x == orig.x
    &&& cur.y == orig.y
    &&& cur.angle == orig.angle
    &&& cur.vel_angle == orig.vel_angle
    &&& cur.thrusted_at == orig.thrusted_at
    &&& cur.thrusting == orig.thrusting
    &&& cur.score == orig.score
    &&& cur.destroyed_at == orig.destroyed_at
    &&& cur.remove == orig.remove
    &&& 0 <= cur.health <= orig.health
}

/// What one whole collision pass may change about one ship: velocity,
/// health (only downward, floored at zero) and score (only upward, capped).
pub open spec fn ships_tick_frame(cur: Ship, orig: Ship) -> bool {
    &&& cur.id == orig.id
    &&& cur.name == orig.name
    &&& cur.updated_at == orig.updated_at
    &&& cur.x == orig.x
    &&& cur.y == orig.y
    &&& cur.angle == orig.angle
    &&& cur.vel_angle == orig.vel_angle
    &&& cur.thrusted_at == orig.thrusted_at
    &&& cur.thrusting == orig.thrusting
    &&& cur.destroyed_at == orig.destroyed_at
    &&& cur.remove == orig.remove
    &&& 0 <= cur.health <= orig.health
    &&& orig.score <= cur.score <= ship::SCORE_CAP
}

/// The whole game world.
pub struct State {
    pub missiles: Missiles,
    pub enemies: Enemies,
    pub ships: Ships,
}

impl State {
    /// All three collections are well-formed.
    pub open spec fn wf(self) -> bool {
        &&& self.missiles.wf()
        &&& self.enemies.wf()
        &&& self.ships.wf()
    }

    /// Missile `m` currently overlaps enemy `e` (by index).
    pub open spec fn emc_hit(self, e: int, m: int) -> bool {
        seq_emc_hit(self.enemies.entities@, self.missiles.entities@, e, m)
    }

    /// Live ship `s` currently overlaps enemy `e` (by index).
    pub open spec fn sec_hit(self, s: int, e: int) -> bool {
        &&& 0 <= s < self.ships.entities@.len()
        &&& 0 <= e < self.enemies.entities@.len()
        &&& !self.ships.entities@[s].is_dead_spec()
        &&& collided_spec(
            self.ships.entities@[s].circle_spec(),
            self.enemies.entities@[e].circle_spec(),
        )
    }

    /// Some missile with this id currently overlaps some enemy.
    pub open spec fn missile_id_hit(self, id: (u64, u64)) -> bool {
        missile_id_hit_in(self.enemies.entities@, self.missiles.entities@, id)
    }

    /// Some enemy with this id currently overlaps some missile.
    pub open spec fn enemy_id_hit(self, id: enemy::ID) -> bool {
        enemy_id_hit_in(self.enemies.entities@, self.missiles.entities@, id)
    }

    /// The scoring outcome of one collision pass, witnessed by the id list
    /// of the missiles that hit: every ship's score grew by exactly the
    /// number of its own missiles whose id is in the list, saturated at the
    /// score cap.
    pub open spec fn scoring_outcome(self, post_ships: Seq<Ship>, hit_ids: Seq<missile::ID>) -> bool {
        &&& (forall|id: missile::ID| #[trigger] hit_ids.contains(id) <==> self.missile_id_hit(id))
        &&& (forall|j: int|
            0 <= j < self.ships.entities@.len() ==> (#[trigger] post_ships[j]).score == clamp_spec(
                self.ships.entities@[j].score + count_for(
                    self.missiles.entities@,
                    hit_ids,
                    self.ships.entities@[j].id@,
                ),
                0,
                ship::SCORE_CAP as int,
            ))
    }

    /// A fresh empty world.
    pub fn init() -> (r: State)
        ensures
            r.missiles.entities@ =~= Seq::<crate::missile::Missile>::empty(),
            r.missiles.remove_ids@ =~= Seq::<missile::ID>::empty(),
            r.enemies.entities@ =~= Seq::<Enemy>::empty(),
            r.enemies.remove_ids@ =~= Seq::<enemy::ID>::empty(),
            r.ships.entities@ =~= Seq::<Ship>::empty(),
            r.enemies.explosions.entities@ =~= Seq::<crate::explosion::Explosion>::empty(),
            r.wf(),
    {
        State { missiles: Missiles::init(), enemies: Enemies::init(), ships: Ships::init() }
    }

    /// The summed score of all ships.
    pub fn total_score(&self) -> (total: i64)
        requires
            self.wf(),
        ensures
            total == sum_scores(self.ships.entities@),
    {
        self.ships.total_score()
    }

    /// Insert a fresh default ship under this id (explicit timestamp),
    /// overwriting any ship that already used the id.
    pub fn spawn_ship_at(&mut self, id: String, name: Option<String>, now: i64)
        requires
            old(self).wf(),
        ensures
            final(self).wf(),
            final(self).missiles == old(self).missiles,
            final(self).enemies == old(self).enemies,
            old(self).ships.entities@.filter(ship::id_differs(id@)).len()
                < crate::missile::ENTITY_CAP ==> final(self).ships.entities@ == old(self).ships.entities@.filter(ship::id_differs(id@)).push(ship::spawn_spec(id, name, now)),
    {
        self.ships.spawn_at(id, name, now);
    }

    /// Insert a fresh default ship under this id, overwriting any ship that
    /// already used the id.
    pub fn spawn_ship(&mut self, id: String, name: Option<String>)
        requires
            old(self).wf(),
        ensures
            final(self).wf(),
            final(self).missiles == old(self).missiles,
            final(self).enemies == old(self).enemies,
            old(self).ships.entities@.filter(ship::id_differs(id@)).len()
                < crate::missile::ENTITY_CAP ==> exists|now: i64|
                final(self).ships.entities@ == old(self).ships.entities@.filter(
                    ship::id_differs(id@),
                ).push(#[trigger] ship::spawn_spec(id, name, now)),
    {
        let now = utils::now_in_millis();
        self.spawn_ship_at(id, name, now);
    }

    /// Adjust the angular velocity of the ship with this id; no-op if
    /// unknown.
    pub fn turn_ship(&mut self, id: String, clockwise: bool)
        requires
            old(self).wf(),
        ensures
            final(self).wf(),
            final(self).missiles == old(self).missiles,
            final(self).enemies == old(self).enemies,
            final(self).ships.entities@.len() == old(self).ships.entities@.len(),
            forall|j: int|
                0 <= j < old(self).ships.entities@.len() && (#[trigger] old(self).ships.entities@[j]).id@ != id@ ==> final(self).ships.entities@[j] == old(self).ships.entities@[j],
            forall|j: int|
                0 <= j < old(self).ships.entities@.len() && (#[trigger] old(self).ships.entities@[j]).id@ == id@ ==> final(self).ships.entities@[j] == old(self).ships.entities@[j].turned_spec(clockwise),
    {
        self.ships.turn(id, clockwise);
    }

    /// Apply a forward thrust impulse to the ship with this id (explicit
    /// timestamp); no-op if unknown.
    pub fn thrust_ship_at(&mut self, id: String, now: i64)
        requires
            old(self).wf(),
        ensures
            final(self).wf(),
            final(self).missiles == old(self).missiles,
            final(self).enemies == old(self).enemies,
            final(self).ships.entities@.len() == old(self).ships.entities@.len(),
            forall|j: int|
                0 <= j < old(self).ships.entities@.len() && (#[trigger] old(self).ships.entities@[j]).id@ != id@ ==> final(self).ships.entities@[j] == old(self).ships.entities@[j],
            forall|j: int|
                0 <= j < old(self).ships.entities@.len() && (#[trigger] old(self).ships.entities@[j]).id@ == id@ ==> final(self).ships.entities@[j] == old(self).ships.entities@[j].thrusted_spec(now),
    {
        self.ships.thrust_at(id, now);
    }

    /// Apply a forward thrust impulse to the ship with this id; no-op if
    /// unknown.
    pub fn thrust_ship(&mut self, id: String)
        requires
            old(self).wf(),
        ensures
            final(self).wf(),
            final(self).missiles == old(self).missiles,
            final(self).enemies == old(self).enemies,
            final(self).ships.entities@.len() == old(self).ships.entities@.len(),
            forall|j: int|
                0 <= j < old(self).ships.entities@.len() && (#[trigger] old(self).ships.entities@[j]).id@ != id@ ==> final(self).ships.entities@[j] == old(self).ships.entities@[j],
            forall|j: int|
                0 <= j < old(self).ships.entities@.len() && (#[trigger] old(self).ships.entities@[j]).id@ == id@ ==> exists|now: i64|
                    final(self).ships.entities@[j] == #[trigger] old(self).ships.entities@[j].thrusted_spec(now),
    {
        let now = utils::now_in_millis();
        self.thrust_ship_at(id, now);
    }

    /// Delete the ship with this id immediately; no-op if unknown.
    pub fn remove_ship(&mut self, id: &String)
        requires
            old(self).wf(),
        ensures
            final(self).wf(),
            final(self).missiles == old(self).missiles,
            final(self).enemies == old(self).enemies,
            final(self).ships.entities@ == old(self).ships.entities@.filter(
                ship::id_differs(id@),
            ),
    {
        self.ships.remove(id);
    }

    /// Insert one enemy directly, for hosts and harnesses that need a
    /// deterministic population; the enemy is dropped if its id is already
    /// taken or the collection is at the entity cap.
    pub fn add_enemy(&mut self, e: Enemy)
        requires
            old(self).wf(),
            e.wf(),
        ensures
            final(self).wf(),
            final(self).missiles == old(self).missiles,
            final(self).ships == old(self).ships,
            old(self).enemies.entities@.len() < crate::missile::ENTITY_CAP && !enemy::has_enemy_id(
                old(self).enemies.entities@,
                e.id_spec(),
            ) ==> final(self).enemies.entities@ == old(self).enemies.entities@.push(e),
            old(self).enemies.entities@.len() >= crate::missile::ENTITY_CAP
                || enemy::has_enemy_id(old(self).enemies.entities@, e.id_spec()) ==> final(self).enemies.entities@ == old(self).enemies.entities@,
            final(self).enemies.explosions == old(self).enemies.explosions,
            final(self).enemies.remove_ids@ == old(self).enemies.remove_ids@,
            final(self).enemies.last_spawned_at == old(self).enemies.last_spawned_at,
    {
        self.enemies.insert(e);
    }

    /// Fire a missile if the addressed ship is alive, respawn it if it is
    /// dead, and do nothing if the id is unknown.
    pub fn fire_missile_or_respawn(&mut self, id: String)
        requires
            old(self).wf(),
        ensures
            final(self).wf(),
            final(self).enemies == old(self).enemies,
            final(self).ships.entities@.len() == old(self).ships.entities@.len(),
            final(self).missiles.remove_ids@ == old(self).missiles.remove_ids@,
            forall|j: int|
                0 <= j < old(self).ships.entities@.len() && (#[trigger] old(self).ships.entities@[j]).id@ != id@ ==> final(self).ships.entities@[j] == old(self).ships.entities@[j],
            forall|j: int|
                0 <= j < old(self).ships.entities@.len() && (#[trigger] old(self).ships.entities@[j]).id@ == id@ && old(self).ships.entities@[j].is_dead_spec()
                    ==> final(self).ships.entities@[j] == (Ship {
                    destroyed_at: None,
                    health: ship::MAX_HEALTH,
                    ..old(self).ships.entities@[j]
                }) && final(self).missiles == old(self).missiles,
            forall|j: int|
                0 <= j < old(self).ships.entities@.len() && (#[trigger] old(self).ships.entities@[j]).id@ == id@ && !old(self).ships.entities@[j].is_dead_spec()
                    ==> final(self).ships.entities@[j] == old(self).ships.entities@[j]
                    && (exists|m: crate::missile::Missile|
                    #[trigger] old(self).ships.entities@[j].missile_matches(m) && m.wf() && ((old(self).missiles.entities@.len() < crate::missile::ENTITY_CAP && !missile::has_id(
                        old(self).missiles.entities@,
                        m.id,
                    ) && final(self).missiles.entities@ == old(self).missiles.entities@.push(m))
                        || ((old(self).missiles.entities@.len() >= crate::missile::ENTITY_CAP
                        || missile::has_id(old(self).missiles.entities@, m.id)) && final(self).missiles.entities@ == old(self).missiles.entities@))),
            (forall|j: int|
                0 <= j < old(self).ships.entities@.len() ==> (#[trigger] old(self).ships.entities@[j]).id@ != id@) ==> final(self).missiles == old(self).missiles
                && final(self).ships == old(self).ships,
    {
        let ghost pre = *self;
        match self.ships.is_dead(&id) {
            Some(false) => {
                match self.ships.spawn_missile(&id) {
                    Some(m) => {
                        self.missiles.add(m);
                        proof {
                            let j0 = choose|j0: int|
                                0 <= j0 < pre.ships.entities@.len() && (
                                #[trigger] pre.ships.entities@[j0]).id@ == id@
                                    && pre.ships.entities@[j0].missile_matches(m);
                            assert forall|j: int|
                                0 <= j < pre.ships.entities@.len() && (
                                #[trigger] pre.ships.entities@[j]).id@ == id@ implies j == j0 by {
                                if j != j0 {
                                    assert(pre.ships.entities@[j].id@
                                        != pre.ships.entities@[j0].id@);
                                }
                            }
                        }
                    },
                    None => {},
                }
            },
            Some(true) => {
                self.ships.respawn(id);
            },
            None => {},
        }
    }

    /// The level index, its score bracket, and its spawner set.
    fn level_with_spawner(&self) -> (r: (u32, (u32, Option<u32>), Vec<Spawner>))
        requires
            self.wf(),
        ensures
            r.0 == level_of_score(sum_scores(self.ships.entities@)),
            r.1 == level_bracket(sum_scores(self.ships.entities@)),
            r.2@ == spawner_set_of(sum_scores(self.ships.entities@)),
            forall|k: int| 0 <= k < r.2@.len() ==> (#[trigger] r.2@[k]).wf(),
            1 <= r.2@.len() <= 3,
    {
        let total = self.total_score();
        level_spawners(total)
    }

    /// The current difficulty level index.
    pub fn level(&self) -> (r: u32)
        requires
            self.wf(),
        ensures
            r == level_of_score(sum_scores(self.ships.entities@)),
    {
        self.level_with_spawner().0
    }

    /// The current level's score bracket: its starting score and, except on
    /// the terminal level, the score at which the next level starts.
    pub fn next_level_score(&self) -> (r: (u32, Option<u32>))
        requires
            self.wf(),
        ensures
            r == level_bracket(sum_scores(self.ships.entities@)),
    {
        self.level_with_spawner().1
    }

    /// Apply the effects of a deduplicated list of enemy-missile collision
    /// pairs: mark both sides for removal on the next tick, then credit each
    /// shooting ship with one point per one of its missiles that hit
    /// anything, saturating at the score cap.
    #[verifier::loop_isolation(false)]
    pub fn apply_enemy_missile_collisions(&mut self, emcs: Vec<(enemy::ID, missile::ID)>)
        requires
            old(self).wf(),
        ensures
            final(self).wf(),
            final(self).missiles.entities@ == old(self).missiles.entities@,
            final(self).enemies.entities@ == old(self).enemies.entities@,
            final(self).enemies.explosions == old(self).enemies.explosions,
            final(self).enemies.spawned_count == old(self).enemies.spawned_count,
            final(self).enemies.destroyed_count == old(self).enemies.destroyed_count,
            final(self).enemies.last_spawned_at == old(self).enemies.last_spawned_at,
            forall|id: missile::ID|
                #[trigger] final(self).missiles.marked(id) <==> old(self).missiles.marked(id)
                    || emcs@.map_values(|p: (enemy::ID, missile::ID)| p.1).contains(id),
            forall|id: enemy::ID|
                #[trigger] final(self).enemies.marked(id) <==> old(self).enemies.marked(id)
                    || emcs@.map_values(|p: (enemy::ID, missile::ID)| p.0).contains(id),
            final(self).ships.entities@.len() == old(self).ships.entities@.len(),
            forall|j: int|
                0 <= j < old(self).ships.entities@.len() ==> #[trigger] final(self).ships.entities@[j] == (Ship {
                    score: clamp_spec(
                        old(self).ships.entities@[j].score + count_for(
                            old(self).missiles.entities@,
                            emcs@.map_values(|p: (enemy::ID, missile::ID)| p.1),
                            old(self).ships.entities@[j].id@,
                        ),
                        0,
                        ship::SCORE_CAP as int,
                    ) as i64,
                    ..old(self).ships.entities@[j]
                }),
    {
        let ghost oldships = old(self).ships.entities@;
        let ghost oldmissiles = old(self).missiles.entities@;
        self.missiles.apply_enemy_collisions(&emcs);
        self.enemies.apply_missile_collisions(&emcs);
        let ghost missiles_mid = self.missiles;
        let ghost enemies_mid = self.enemies;
        // collect the missile ids once more for the per-shooter tally
        let n = emcs.len();
        let mut ids: Vec<missile::ID> = Vec::new();
        let mut k: usize = 0;
        while k < n
            invariant
                k <= n == emcs@.len(),
                ids@ =~= emcs@.subrange(0, k as int).map_values(
                    |p: (enemy::ID, missile::ID)| p.1,
                ),
            decreases n - k,
        {
            ids.push(emcs[k].1);
            proof {
                assert(emcs@.subrange(0, k as int + 1) =~= emcs@.subrange(0, k as int).push(
                    emcs@[k as int],
                ));
            }
            k += 1;
        }
        proof {
            assert(emcs@.subrange(0, n as int) =~= emcs@);
        }
        let ghost idseq = ids@;
        let counts = self.missiles.shooter_counts(&ids);
        let nc = counts.len();
        let ghost scored = |j: int|
            Ship {
                score: clamp_spec(
                    oldships[j].score + count_for(oldmissiles, idseq, oldships[j].id@),
                    0,
                    ship::SCORE_CAP as int,
                ) as i64,
                ..oldships[j]
            };
        let mut t: usize = 0;
        while t < nc
            invariant
                t <= nc == counts@.len(),
                self.missiles == missiles_mid,
                self.enemies == enemies_mid,
                self.missiles.entities@ == oldmissiles,
                self.missiles.wf(),
                self.ships.wf(),
                self.ships.entities@.len() == oldships.len(),
                forall|j: int|
                    0 <= j < oldships.len() && (exists|u: int|
                        0 <= u < t && (#[trigger] counts@[u]).0@ == oldships[j].id@) ==> (
                    #[trigger] self.ships.entities@[j]) == scored(j),
                forall|j: int|
                    0 <= j < oldships.len() && !(exists|u: int|
                        0 <= u < t && (#[trigger] counts@[u]).0@ == oldships[j].id@) ==> (
                    #[trigger] self.ships.entities@[j]) == oldships[j],
            decreases nc - t,
        {
            let ghost pre = self.ships.entities@;
            let name = counts[t].0.clone();
            let points = counts[t].1;
            self.ships.increase_score(name, points);
            proof {
                assert forall|j: int|
                    0 <= j < oldships.len() && (exists|u: int|
                        0 <= u < t + 1 && (#[trigger] counts@[u]).0@ == oldships[j].id@) implies (
                #[trigger] self.ships.entities@[j]) == scored(j) by {
                    let u0 = choose|u0: int|
                        0 <= u0 < t + 1 && (#[trigger] counts@[u0]).0@ == oldships[j].id@;
                    if u0 < t {
                        assert(pre[j] == scored(j));
                        if oldships[j].id@ == counts@[t as int].0@ {
                            assert((counts@[u0]).0@ == (counts@[t as int]).0@);
                            assert(false);
                        }
                        assert(self.ships.entities@[j] == pre[j]);
                    } else {
                        assert(pre[j] == oldships[j]);
                        assert(counts@[t as int].1 == count_for(
                            oldmissiles,
                            idseq,
                            oldships[j].id@,
                        ));
                        assert(self.ships.entities@[j] == (Ship {
                            score: clamp_spec(
                                pre[j].score + points,
                                0,
                                ship::SCORE_CAP as int,
                            ) as i64,
                            ..pre[j]
                        }));
                    }
                }
                assert forall|j: int|
                    0 <= j < oldships.len() && !(exists|u: int|
                        0 <= u < t + 1 && (#[trigger] counts@[u]).0@ == oldships[j].id@) implies (
                #[trigger] self.ships.entities@[j]) == oldships[j] by {
                    assert(!(exists|u: int|
                        0 <= u < t && (#[trigger] counts@[u]).0@ == oldships[j].id@));
                    assert(pre[j] == oldships[j]);
                    assert(oldships[j].id@ != counts@[t as int].0@);
                    assert(self.ships.entities@[j] == pre[j]);
                }
            }
            t += 1;
        }
        proof {
            assert forall|j: int| 0 <= j < oldships.len() implies #[trigger] self.ships.entities@[
                j
            ] == scored(j) by {
                if exists|u: int| 0 <= u < nc && (#[trigger] counts@[u]).0@ == oldships[j].id@ {
                } else {
                    crate::missile::lemma_count_for_bounds(oldmissiles, idseq, oldships[j].id@);
                    if count_for(oldmissiles, idseq, oldships[j].id@) >= 1 {
                        let u0 = choose|u0: int|
                            0 <= u0 < counts@.len() && (#[trigger] counts@[u0]).0@ == oldships[
                                j
                            ].id@;
                        assert(false);
                    }
                    assert(count_for(oldmissiles, idseq, oldships[j].id@) == 0);
                    assert(scored(j) == oldships[j]);
                }
            }
        }
    }

    /// Apply the effects of a deduplicated list of ship-enemy collision
    /// pairs: each pair knocks the ship away from the enemy and applies the
    /// enemy's damage. Pairs whose enemy id no longer resolves are skipped,
    /// and only velocity and health of the involved ships change.
    #[verifier::loop_isolation(false)]
    pub fn apply_ship_enemy_collisions(&mut self, secs: Vec<(ship::ID, enemy::ID)>)
        requires
            old(self).wf(),
        ensures
            final(self).wf(),
            final(self).missiles == old(self).missiles,
            final(self).enemies == old(self).enemies,
            final(self).ships.entities@.len() == old(self).ships.entities@.len(),
            final(self).ships.entities@ == apply_sec_pairs(
                old(self).enemies.entities@,
                old(self).ships.entities@,
                secs@,
            ),
            forall|j: int|
                0 <= j < old(self).ships.entities@.len() ==> ships_collision_frame(
                    #[trigger] final(self).ships.entities@[j],
                    old(self).ships.entities@[j],
                ),
    {
        let ghost oldships = old(self).ships.entities@;
        let ghost enemies0 = old(self).enemies.entities@;
        let n = secs.len();
        let mut k: usize = 0;
        while k < n
            invariant
                k <= n == secs@.len(),
                self.missiles == old(self).missiles,
                self.enemies == old(self).enemies,
                self.ships.wf(),
                self.enemies.wf(),
                self.ships.entities@.len() == oldships.len(),
                self.ships.entities@ =~= apply_sec_pairs(
                    enemies0,
                    oldships,
                    secs@.subrange(0, k as int),
                ),
                forall|j: int|
                    0 <= j < oldships.len() ==> ships_collision_frame(
                        #[trigger] self.ships.entities@[j],
                        oldships[j],
                    ),
            decreases n - k,
        {
            let ghost fold_pre = self.ships.entities@;
            proof {
                assert(secs@.subrange(0, k as int + 1).drop_last() =~= secs@.subrange(
                    0,
                    k as int,
                ));
                assert(secs@.subrange(0, k as int + 1).last() == secs@[k as int]);
            }
            match self.enemies.get_index(secs[k].1) {
                None => {
                    proof {
                        assert(!(exists|i: int|
                            0 <= i < enemies0.len() && (#[trigger] enemies0[i]).id_spec()
                                == secs@[k as int].1));
                        assert(apply_one_sec(
                            enemies0,
                            fold_pre,
                            secs@[k as int].0@,
                            secs@[k as int].1,
                        ) == fold_pre);
                    }
                },
                Some(i) => {
                    let ghost pre = self.ships.entities@;
                    let en = self.enemies.entities[i];
                    self.ships.collide_with(secs[k].0.clone(), &en);
                    proof {
                        assert forall|j: int|
                            0 <= j < oldships.len() implies ships_collision_frame(
                            #[trigger] self.ships.entities@[j],
                            oldships[j],
                        ) by {
                            if pre[j].id@ == secs@[k as int].0@ {
                                assert(self.ships.entities@[j] == pre[j].collided_with_spec(en));
                                assert(en.damage_spec() >= 0);
                            } else {
                                assert(self.ships.entities@[j] == pre[j]);
                            }
                        }
                        // the resolved index is the unique one with this id
                        let i2 = choose|i2: int|
                            0 <= i2 < enemies0.len() && (#[trigger] enemies0[i2]).id_spec()
                                == secs@[k as int].1;
                        if i2 != i as int {
                            assert(enemies0[i2].id_spec() != enemies0[i as int].id_spec());
                        }
                        assert(enemies0[i2] == en);
                        assert(self.ships.entities@ =~= apply_one_sec(
                            enemies0,
                            pre,
                            secs@[k as int].0@,
                            secs@[k as int].1,
                        ));
                    }
                },
            }
            k += 1;
        }
        proof {
            assert(secs@.subrange(0, n as int) =~= secs@);
        }
    }

    /// Rebuild the spatial hash from the current entities, collect and
    /// deduplicate the enemy-missile and ship-enemy collision pairs, and
    /// apply their effects. A pair is found and applied exactly once per
    /// tick however many grid cells it spans: afterwards a missile or enemy
    /// id is marked for removal if and only if it was already marked or one
    /// of its entities overlaps an entity of the other kind, and each ship
    /// is credited with exactly one point per one of its missiles that
    /// overlaps some enemy.
    #[verifier::loop_isolation(false)]
    pub fn update_collisions(&mut self)
        requires
            old(self).wf(),
        ensures
            final(self).wf(),
            final(self).missiles.entities@ == old(self).missiles.entities@,
            final(self).enemies.entities@ == old(self).enemies.entities@,
            final(self).enemies.explosions == old(self).enemies.explosions,
            final(self).enemies.spawned_count == old(self).enemies.spawned_count,
            final(self).enemies.destroyed_count == old(self).enemies.destroyed_count,
            final(self).enemies.last_spawned_at == old(self).enemies.last_spawned_at,
            forall|id: missile::ID|
                #[trigger] final(self).missiles.marked(id) <==> old(self).missiles.marked(id)
                    || old(self).missile_id_hit(id),
            forall|id: enemy::ID|
                #[trigger] final(self).enemies.marked(id) <==> old(self).enemies.marked(id)
                    || old(self).enemy_id_hit(id),
            final(self).ships.entities@.len() == old(self).ships.entities@.len(),
            exists|hit_ids: Seq<missile::ID>|
                #[trigger] old(self).scoring_outcome(final(self).ships.entities@, hit_ids),
            forall|j: int|
                0 <= j < old(self).ships.entities@.len() ==> ships_tick_frame(
                    #[trigger] final(self).ships.entities@[j],
                    old(self).ships.entities@[j],
                ),
    {
        let ghost msnap = self.missiles.entities@;
        let ghost esnap = self.enemies.entities@;
        let ghost ssnap = self.ships.entities@;
        // build the broad-phase index over the current circles
        let mut sh = new_spatial_hash();
        let nm = self.missiles.entities.len();
        let mut i: usize = 0;
        while i < nm
            invariant
                i <= nm,
                sh.inv(),
                sh.missiles@.len() == i,
                forall|k: int|
                    0 <= k < i ==> #[trigger] sh.missiles@[k] == msnap[k].circle_spec(),
                sh.enemies@.len() == 0,
                sh.ships@.len() == 0,
            decreases nm - i,
        {
            let c = self.missiles.entities[i].circle();
            sh.insert_missile(c);
            i += 1;
        }
        let ne = self.enemies.entities.len();
        let mut j: usize = 0;
        while j < ne
            invariant
                j <= ne,
                sh.inv(),
                sh.missiles@.len() == nm,
                forall|k: int|
                    0 <= k < nm ==> #[trigger] sh.missiles@[k] == msnap[k].circle_spec(),
                sh.enemies@.len() == j,
                forall|k: int|
                    0 <= k < j ==> #[trigger] sh.enemies@[k] == esnap[k].circle_spec(),
                sh.ships@.len() == 0,
            decreases ne - j,
        {
            let c = self.enemies.entities[j].circle();
            sh.insert_enemy(c);
            j += 1;
        }
        let ns = self.ships.entities.len();
        let mut u: usize = 0;
        while u < ns
            invariant
                u <= ns,
                sh.inv(),
                sh.missiles@.len() == nm,
                forall|k: int|
                    0 <= k < nm ==> #[trigger] sh.missiles@[k] == msnap[k].circle_spec(),
                sh.enemies@.len() == ne,
                forall|k: int|
                    0 <= k < ne ==> #[trigger] sh.enemies@[k] == esnap[k].circle_spec(),
                sh.ships@.len() == u,
                sh.ships_alive@.len() == u,
                forall|k: int| 0 <= k < u ==> #[trigger] sh.ships@[k] == ssnap[k].circle_spec(),
                forall|k: int|
                    0 <= k < u ==> #[trigger] sh.ships_alive@[k] == !ssnap[k].is_dead_spec(),
            decreases ns - u,
        {
            let c = self.ships.entities[u].circle();
            let alive = !self.ships.entities[u].is_dead();
            sh.insert_ship(c, alive);
            u += 1;
        }
        // collect the deduplicated pairs
        let emc_idx = sh.enemy_missile_collisions();
        let sec_idx = sh.ship_enemy_collisions();
        proof {
            assert forall|t: int| 0 <= t < emc_idx@.len() implies {
                let p = #[trigger] emc_idx@[t];
                &&& (p.0 as int) < esnap.len()
                &&& (p.1 as int) < msnap.len()
                &&& self.emc_hit(p.0 as int, p.1 as int)
            } by {
                let p = emc_idx@[t];
                assert(emc_idx@[t] == (p.0, p.1));
                assert(emc_idx@.contains((p.0, p.1)));
                assert(pair_in(emc_idx@, p.0, p.1));
                assert(sh.emc_ok(p.0, p.1));
            }
            assert forall|t: int| 0 <= t < sec_idx@.len() implies {
                let p = #[trigger] sec_idx@[t];
                &&& (p.0 as int) < ssnap.len()
                &&& (p.1 as int) < esnap.len()
            } by {
                let p = sec_idx@[t];
                assert(sec_idx@[t] == (p.0, p.1));
                assert(sec_idx@.contains((p.0, p.1)));
                assert(pair_in(sec_idx@, p.0, p.1));
                assert(sh.sec_ok(p.0, p.1));
            }
        }
        // turn index pairs into id pairs
        let npairs = emc_idx.len();
        let mut emcs: Vec<(enemy::ID, missile::ID)> = Vec::new();
        let mut k: usize = 0;
        while k < npairs
            invariant
                k <= npairs == emc_idx@.len(),
                emcs@.len() == k,
                forall|t: int|
                    0 <= t < k ==> #[trigger] emcs@[t] == (
                        esnap[emc_idx@[t].0 as int].id_spec(),
                        msnap[emc_idx@[t].1 as int].id,
                    ),
            decreases npairs - k,
        {
            let (e, m) = emc_idx[k];
            let eid = self.enemies.entities[e].id();
            let mid = self.missiles.entities[m].id;
            emcs.push((eid, mid));
            k += 1;
        }
        let nsec = sec_idx.len();
        let mut secs: Vec<(ship::ID, enemy::ID)> = Vec::new();
        let mut w: usize = 0;
        while w < nsec
            invariant
                w <= nsec == sec_idx@.len(),
                secs@.len() == w,
            decreases nsec - w,
        {
            let (si, ei) = sec_idx[w];
            let sid = self.ships.entities[si].id.clone();
            let eid = self.enemies.entities[ei].id();
            secs.push((sid, eid));
            w += 1;
        }
        // the mapped missile ids are exactly the ids of hit missiles
        let ghost mapped_m = emcs@.map_values(|p: (enemy::ID, missile::ID)| p.1);
        let ghost mapped_e = emcs@.map_values(|p: (enemy::ID, missile::ID)| p.0);
        proof {
            assert forall|id: missile::ID| #[trigger] mapped_m.contains(id) implies
                self.missile_id_hit(id) by {
                let t = choose|t: int| 0 <= t < mapped_m.len() && mapped_m[t] == id;
                let p = emc_idx@[t];
                assert(seq_emc_hit(
                    self.enemies.entities@,
                    self.missiles.entities@,
                    p.0 as int,
                    p.1 as int,
                ));
                assert(self.missiles.entities@[p.1 as int].id == id);
            }
            assert forall|id: missile::ID| self.missile_id_hit(id) implies mapped_m.contains(
                id,
            ) by {
                let (e, m) = choose|e: int, m: int|
                    #[trigger] seq_emc_hit(self.enemies.entities@, self.missiles.entities@, e, m)
                        && self.missiles.entities@[m].id == id;
                assert(sh.emc_ok(e as usize, m as usize));
                assert(pair_in(emc_idx@, e as usize, m as usize));
                let t = choose|t: int|
                    0 <= t < emc_idx@.len() && emc_idx@[t] == (e as usize, m as usize);
                assert(emcs@[t].1 == id);
                assert(mapped_m[t] == id);
            }
            assert forall|id: enemy::ID| #[trigger] mapped_e.contains(id) implies
                self.enemy_id_hit(id) by {
                let t = choose|t: int| 0 <= t < mapped_e.len() && mapped_e[t] == id;
                let p = emc_idx@[t];
                assert(seq_emc_hit(
                    self.enemies.entities@,
                    self.missiles.entities@,
                    p.0 as int,
                    p.1 as int,
                ));
                assert(self.enemies.entities@[p.0 as int].id_spec() == id);
            }
            assert forall|id: enemy::ID| self.enemy_id_hit(id) implies mapped_e.contains(id) by {
                let (e, m) = choose|e: int, m: int|
                    #[trigger] seq_emc_hit(self.enemies.entities@, self.missiles.entities@, e, m)
                        && self.enemies.entities@[e].id_spec() == id;
                assert(sh.emc_ok(e as usize, m as usize));
                assert(pair_in(emc_idx@, e as usize, m as usize));
                let t = choose|t: int|
                    0 <= t < emc_idx@.len() && emc_idx@[t] == (e as usize, m as usize);
                assert(emcs@[t].0 == id);
                assert(mapped_e[t] == id);
            }
        }
        // apply the effects
        let ghost mid_state = *self;
        self.apply_enemy_missile_collisions(emcs);
        let ghost after_emc = self.ships.entities@;
        self.apply_ship_enemy_collisions(secs);
        proof {
            assert forall|j: int| 0 <= j < ssnap.len() implies (#[trigger] final(self).ships.entities@[j]).score == clamp_spec(
                ssnap[j].score + count_for(msnap, mapped_m, ssnap[j].id@),
                0,
                ship::SCORE_CAP as int,
            ) && ships_tick_frame(final(self).ships.entities@[j], ssnap[j]) by {
                assert(after_emc[j] == (Ship {
                    score: clamp_spec(
                        ssnap[j].score + count_for(msnap, mapped_m, ssnap[j].id@),
                        0,
                        ship::SCORE_CAP as int,
                    ) as i64,
                    ..ssnap[j]
                }));
                assert(ships_collision_frame(self.ships.entities@[j], after_emc[j]));
                crate::missile::lemma_count_for_bounds(msnap, mapped_m, ssnap[j].id@);
            }
            assert(old(self).scoring_outcome(self.ships.entities@, mapped_m));
        }
    }

    /// Attempt the tick's single policy-driven enemy spawn.
    fn spawn_enemies(&mut self, now: i64)
        requires
            old(self).wf(),
        ensures
            final(self).wf(),
            final(self).missiles == old(self).missiles,
            final(self).ships == old(self).ships,
            final(self).enemies.entities@.len() >= old(self).enemies.entities@.len(),
            final(self).enemies.entities@.len() <= old(self).enemies.entities@.len() + 1,
            final(self).enemies.entities@.subrange(0, old(self).enemies.entities@.len() as int)
                == old(self).enemies.entities@,
            final(self).enemies.explosions == old(self).enemies.explosions,
            final(self).enemies.remove_ids@ == old(self).enemies.remove_ids@,
    {
        let sets = self.level_with_spawner().2;
        let ghost pre = self.enemies;
        self.enemies.spawn(sets, now);
        proof {
            if self.enemies.entities@ == pre.entities@ {
                assert(self.enemies.entities@.subrange(0, pre.entities@.len() as int)
                    =~= pre.entities@);
            }
        }
    }

    /// Advance the whole world by one tick at an explicit time: advance and
    /// prune missiles, enemies (exploding and splitting the previously
    /// marked ones) and ships; rebuild the spatial hash; resolve and apply
    /// the collision pairs exactly once each; and attempt one policy-driven
    /// enemy spawn.
    pub fn update_at(&mut self, now: i64)
        requires
            old(self).wf(),
        ensures
            final(self).wf(),
            final(self).missiles.entities@ == old(self).missiles.entities@.filter(
                old(self).missiles.keep_pred(),
            ).map_values(missile::update_map(now)),
            final(self).ships.entities@.len() == old(self).ships.entities@.filter(
                ship::not_removed_pred(),
            ).len(),
            forall|j: int|
                0 <= j < final(self).ships.entities@.len() ==> ships_tick_frame(
                    #[trigger] final(self).ships.entities@[j],
                    old(self).ships.entities@.filter(ship::not_removed_pred()).map_values(
                        ship::ship_update_map(now),
                    )[j],
                ),
            final(self).enemies.entities@.len() >= old(self).enemies.kept_after(now).len(),
            final(self).enemies.entities@.subrange(
                0,
                old(self).enemies.kept_after(now).len() as int,
            ) == old(self).enemies.kept_after(now),
            final(self).enemies.explosions.entities@.len() == old(self).enemies.explosions_after(
                now,
            ).len() + old(self).enemies.exploded_after(now).len(),
            exists|mid_enemies: Seq<Enemy>, hit_ids: Seq<missile::ID>|
                #[trigger] tick_outcome(*old(self), *final(self), now, mid_enemies, hit_ids),
    {
        self.missiles.update(now);
        self.enemies.update(now);
        let ghost mid_en = self.enemies.entities@;
        self.ships.update(now);
        let ghost mid_state = *self;
        self.update_collisions();
        let ghost post_uc = *self;
        let ghost before_spawn = self.enemies.entities@;
        self.spawn_enemies(now);
        proof {
            let klen = old(self).enemies.kept_after(now).len() as int;
            assert(before_spawn.subrange(0, klen) == old(self).enemies.kept_after(now));
            assert(self.enemies.entities@.subrange(0, klen) =~= before_spawn.subrange(0, klen));
            // assemble the tick bundle from the per-pass contracts
            let hid = choose|h: Seq<missile::ID>|
                #[trigger] mid_state.scoring_outcome(post_uc.ships.entities@, h);
            assert(before_spawn == mid_en);
            assert(self.enemies.entities@.subrange(0, mid_en.len() as int) =~= mid_en);
            assert(forall|id: missile::ID| !#[trigger] mid_state.missiles.marked(id));
            assert(forall|id: enemy::ID| !#[trigger] mid_state.enemies.marked(id));
            let mid_missiles = old(self).missiles.entities@.filter(
                old(self).missiles.keep_pred(),
            ).map_values(missile::update_map(now));
            let mid_ships = old(self).ships.entities@.filter(ship::not_removed_pred()).map_values(
                ship::ship_update_map(now),
            );
            let kept = old(self).enemies.kept_after(now);
            assert(mid_state.missiles.entities@ == mid_missiles);
            assert(mid_state.ships.entities@ == mid_ships);
            assert(mid_state.enemies.entities@ == mid_en);
            assert(self.missiles.entities@ == mid_missiles);
            assert(mid_en.len() >= kept.len());
            assert(mid_en.subrange(0, kept.len() as int) == kept);
            assert(mid_en.len() <= kept.len() + enemy::child_count(
                old(self).enemies.exploded_after(now),
            ));
            assert(enemy::children_appended(
                mid_en,
                kept.len() as int,
                old(self).enemies.exploded_after(now),
            ));
            assert(self.enemies.entities@.len() >= mid_en.len());
            assert(self.enemies.entities@.len() <= mid_en.len() + 1);
            assert(self.enemies.explosions.entities@.len() == old(
                self,
            ).enemies.explosions_after(now).len() + old(self).enemies.exploded_after(now).len());
            assert forall|id: missile::ID|
                #[trigger] self.missiles.marked(id) <==> missile_id_hit_in(
                mid_en,
                mid_missiles,
                id,
            ) by {
                assert(post_uc.missiles.marked(id) <==> mid_state.missiles.marked(id)
                    || mid_state.missile_id_hit(id));
                assert(self.missiles.marked(id) == post_uc.missiles.marked(id));
                assert(mid_state.missile_id_hit(id) == missile_id_hit_in(
                    mid_en,
                    mid_missiles,
                    id,
                ));
            }
            assert forall|id: enemy::ID|
                #[trigger] self.enemies.marked(id) <==> enemy_id_hit_in(
                mid_en,
                mid_missiles,
                id,
            ) by {
                assert(post_uc.enemies.marked(id) <==> mid_state.enemies.marked(id)
                    || mid_state.enemy_id_hit(id));
                assert(self.enemies.marked(id) == post_uc.enemies.marked(id));
                assert(mid_state.enemy_id_hit(id) == enemy_id_hit_in(mid_en, mid_missiles, id));
            }
            assert forall|id: missile::ID|
                #[trigger] hid.contains(id) <==> missile_id_hit_in(mid_en, mid_missiles, id) by {
                assert(mid_state.missile_id_hit(id) == missile_id_hit_in(
                    mid_en,
                    mid_missiles,
                    id,
                ));
            }
            assert(self.ships.entities@.len() == mid_ships.len());
            assert(forall|j: int|
                0 <= j < mid_ships.len() ==> (#[trigger] self.ships.entities@[j]).score
                    == clamp_spec(
                    mid_ships[j].score + count_for(mid_missiles, hid, mid_ships[j].id@),
                    0,
                    ship::SCORE_CAP as int,
                ));
            assert(forall|j: int|
                0 <= j < mid_ships.len() ==> ships_tick_frame(
                    #[trigger] self.ships.entities@[j],
                    mid_ships[j],
                ));
            assert(tick_outcome(*old(self), *final(self), now, mid_en, hid));
        }
    }

    /// Advance the whole world by one tick at the current wall-clock time.
    pub fn update(&mut self)
        requires
            old(self).wf(),
        ensures
            final(self).wf(),
            final(self).ships.entities@.len() == old(self).ships.entities@.filter(
                ship::not_removed_pred(),
            ).len(),
            exists|now: i64, mid_enemies: Seq<Enemy>, hit_ids: Seq<missile::ID>|
                #[trigger] tick_outcome(*old(self), *final(self), now, mid_enemies, hit_ids),
    {
        let now = utils::now_in_millis();
        self.update_at(now);
    }
}

} // verus!
