//! Missiles: straight-line projectiles fired by ships, with a fixed speed, a
//! short lifespan, and collision-driven removal marks applied on the next
//! tick's prune step.

use vstd::prelude::*;
use crate::collision::{Circle, circle_wf};
use crate::trig;
use crate::utils;
use crate::utils::{elapsed_spec, lemma_filter_map_step, lemma_scaled_bound, scaled_spec};

verus! {

/// Missile identity: the two 64-bit halves of a freshly drawn UUID.
pub type ID = (u64, u64);

/// Initial missile lifespan in milliseconds.
pub const LIFESPAN: i64 = 1000;

/// Missile speed in world units per second.
pub const VEL: i64 = 500;

/// Missile collision radius in milli-units.
pub const RADIUS: i64 = 5_000;

/// Largest magnitude of a missile's spawn coordinate, in milli-units.
pub const SPAWN_COORD_LIMIT: i64 = 2_000_000;

/// One missile. Positions are milli-units, velocities milli-units per
/// second, the lifespan milliseconds.
pub struct Missile {
    pub id: ID,
    /// Id of the ship that fired this missile: a weak reference, resolved by
    /// lookup each time it is used.
    pub shooter_id: String,
    pub updated_at: i64,
    pub x: i64,
    pub y: i64,
    pub vel_x: i64,
    pub vel_y: i64,
    pub lifespan: i64,
}

impl Missile {
    /// Field bounds. A missile travels at most [`VEL`] units per second, so
    /// its distance from the spawn region is bounded by the lifespan it has
    /// used up.
    pub open spec fn wf(self) -> bool {
        &&& -(utils::MAX_STEP_MS as int) < self.lifespan <= LIFESPAN
        &&& -500_000 <= self.vel_x <= 500_000
        &&& -500_000 <= self.vel_y <= 500_000
        &&& -(SPAWN_COORD_LIMIT + 500 * (LIFESPAN - self.lifespan)) <= self.x <= SPAWN_COORD_LIMIT
            + 500 * (LIFESPAN - self.lifespan)
        &&& -(SPAWN_COORD_LIMIT + 500 * (LIFESPAN - self.lifespan)) <= self.y <= SPAWN_COORD_LIMIT
            + 500 * (LIFESPAN - self.lifespan)
    }

    /// The missile one clamped time step later: it advances by its velocity
    /// and its lifespan shrinks by the elapsed time.
    pub open spec fn updated_spec(self, now: i64) -> Missile {
        let dt = elapsed_spec(self.updated_at as int, now as int);
        Missile {
            updated_at: now,
            x: (self.x + scaled_spec(self.vel_x as int, dt)) as i64,
            y: (self.y + scaled_spec(self.vel_y as int, dt)) as i64,
            lifespan: (self.lifespan - dt) as i64,
            ..self
        }
    }

    /// Build a missile with an explicit timestamp and id, aimed along
    /// `angle` (milli-degrees) at the fixed missile speed.
    pub fn spawn_at(shooter_id: String, x: i64, y: i64, angle: i64, now: i64, id: ID) -> (m:
        Missile)
        requires
            -SPAWN_COORD_LIMIT <= x <= SPAWN_COORD_LIMIT,
            -SPAWN_COORD_LIMIT <= y <= SPAWN_COORD_LIMIT,
            -100_000_000_000 <= angle <= 100_000_000_000,
        ensures
            m.id == id,
            m.shooter_id == shooter_id,
            m.updated_at == now,
            m.x == x,
            m.y == y,
            m.vel_x == VEL * trig::cos_mdeg_spec(angle as int),
            m.vel_y == VEL * trig::sin_mdeg_spec(angle as int),
            m.lifespan == LIFESPAN,
            m.wf(),
    {
        let vel_x = VEL * trig::cos_mdeg(angle);
        let vel_y = VEL * trig::sin_mdeg(angle);
        Missile { id, shooter_id, updated_at: now, x, y, vel_x, vel_y, lifespan: LIFESPAN }
    }

    /// Build a missile stamped with the current wall clock and a fresh id.
    pub fn spawn(shooter_id: String, x: i64, y: i64, angle: i64) -> (m: Missile)
        requires
            -SPAWN_COORD_LIMIT <= x <= SPAWN_COORD_LIMIT,
            -SPAWN_COORD_LIMIT <= y <= SPAWN_COORD_LIMIT,
            -100_000_000_000 <= angle <= 100_000_000_000,
        ensures
            m.shooter_id == shooter_id,
            m.x == x,
            m.y == y,
            m.vel_x == VEL * trig::cos_mdeg_spec(angle as int),
            m.vel_y == VEL * trig::sin_mdeg_spec(angle as int),
            m.lifespan == LIFESPAN,
            m.wf(),
    {
        let now = utils::now_in_millis();
        let id = utils::new_uuid_as_u64_pair();
        Missile::spawn_at(shooter_id, x, y, angle, now, id)
    }

    /// Advance position and lifespan by the clamped elapsed time.
    pub fn update(&mut self, now: i64)
        requires
            old(self).wf(),
            old(self).lifespan >= 1,
        ensures
            *final(self) == old(self).updated_spec(now),
            final(self).wf(),
    {
        let dt = utils::elapsed_ms(self.updated_at, now);
        proof {
            lemma_scaled_bound(self.vel_x as int, dt as int, 500);
            lemma_scaled_bound(self.vel_y as int, dt as int, 500);
        }
        self.x = self.x + utils::scaled(self.vel_x, dt);
        self.y = self.y + utils::scaled(self.vel_y, dt);
        self.lifespan = self.lifespan - dt;
        self.updated_at = now;
    }

    /// The missile's collision circle.
    pub open spec fn circle_spec(self) -> Circle {
        Circle { x: (self.x + RADIUS) as i64, y: (self.y + RADIUS) as i64, r: RADIUS }
    }

    /// The missile's collision circle.
    pub fn circle(&self) -> (c: Circle)
        requires
            self.wf(),
        ensures
            c == self.circle_spec(),
            circle_wf(c),
    {
        Circle { x: self.x + RADIUS, y: self.y + RADIUS, r: RADIUS }
    }

    /// Copy of this missile (missiles own a `String` shooter id, so they are
    /// not `Copy`).
    pub fn duplicate(&self) -> (m: Missile)
        ensures
            m == *self,
    {
        Missile {
            id: self.id,
            shooter_id: self.shooter_id.clone(),
            updated_at: self.updated_at,
            x: self.x,
            y: self.y,
            vel_x: self.vel_x,
            vel_y: self.vel_y,
            lifespan: self.lifespan,
        }
    }
}

/// More entities than this are never stored; the cap keeps counts inside
/// `i64` and is far beyond anything a running game reaches.
pub const ENTITY_CAP: usize = 1_000_000;

/// No two missiles share an id.
pub open spec fn mids_distinct(s: Seq<Missile>) -> bool {
    forall|i: int, j: int| 0 <= i < j < s.len() ==> (#[trigger] s[i]).id != (#[trigger] s[j]).id
}

/// Some missile in the sequence has this id.
pub open spec fn has_id(s: Seq<Missile>, id: ID) -> bool {
    exists|i: int| 0 <= i < s.len() && (#[trigger] s[i]).id == id
}

/// How many missiles in `entities`, among those whose id is in `ids`, were
/// fired by `shooter`.
pub open spec fn count_for(entities: Seq<Missile>, ids: Seq<ID>, shooter: Seq<char>) -> int
    decreases entities.len(),
{
    if entities.len() == 0 {
        0
    } else {
        count_for(entities.drop_last(), ids, shooter) + if ids.contains(entities.last().id)
            && entities.last().shooter_id@ == shooter {
            1int
        } else {
            0int
        }
    }
}

/// The per-shooter count is never negative and never exceeds the number of
/// missiles.
pub proof fn lemma_count_for_bounds(entities: Seq<Missile>, ids: Seq<ID>, shooter: Seq<char>)
    ensures
        0 <= count_for(entities, ids, shooter) <= entities.len(),
    decreases entities.len(),
{
    if entities.len() > 0 {
        lemma_count_for_bounds(entities.drop_last(), ids, shooter);
    }
}

/// No listed id matches any missile: the tally ignores the whole list.
proof fn lemma_count_for_id_absent(
    entities: Seq<Missile>,
    ids: Seq<ID>,
    shooter: Seq<char>,
    id: ID,
)
    requires
        forall|j: int| 0 <= j < entities.len() ==> (#[trigger] entities[j]).id != id,
    ensures
        count_for(entities, ids.push(id), shooter) == count_for(entities, ids, shooter),
    decreases entities.len(),
{
    if entities.len() > 0 {
        assert forall|j: int| 0 <= j < entities.drop_last().len() implies (
        #[trigger] entities.drop_last()[j]).id != id by {
            assert(entities.drop_last()[j] == entities[j]);
        }
        lemma_count_for_id_absent(entities.drop_last(), ids, shooter, id);
        assert(entities.last() == entities[entities.len() - 1]);
        assert(ids.push(id).contains(entities.last().id) == ids.contains(entities.last().id)) by {
            if ids.push(id).contains(entities.last().id) {
                let t = choose|t: int|
                    0 <= t < ids.push(id).len() && ids.push(id)[t] == entities.last().id;
                if t < ids.len() {
                    assert(ids[t] == entities.last().id);
                }
            } else {
                if ids.contains(entities.last().id) {
                    let t = choose|t: int| 0 <= t < ids.len() && ids[t] == entities.last().id;
                    assert(ids.push(id)[t] == entities.last().id);
                }
            }
        }
    }
}

/// Listing one more id raises the shooter's tally by exactly one, when the
/// id is fresh in the list and is the id of one of the shooter's missiles.
proof fn lemma_count_for_one_more(
    entities: Seq<Missile>,
    ids: Seq<ID>,
    shooter: Seq<char>,
    id: ID,
)
    requires
        mids_distinct(entities),
        !ids.contains(id),
        exists|j: int|
            0 <= j < entities.len() && (#[trigger] entities[j]).id == id
                && entities[j].shooter_id@ == shooter,
    ensures
        count_for(entities, ids.push(id), shooter) == count_for(entities, ids, shooter) + 1,
    decreases entities.len(),
{
    let j0 = choose|j0: int|
        0 <= j0 < entities.len() && (#[trigger] entities[j0]).id == id
            && entities[j0].shooter_id@ == shooter;
    let e = entities.last();
    assert(e == entities[entities.len() - 1]);
    assert(ids.push(id).contains(id)) by {
        assert(ids.push(id)[ids.len() as int] == id);
    }
    if e.id == id {
        // the last missile is the unique one with this id
        assert(j0 == entities.len() - 1);
        assert forall|j: int| 0 <= j < entities.drop_last().len() implies (
        #[trigger] entities.drop_last()[j]).id != id by {
            assert(entities.drop_last()[j] == entities[j]);
            assert(entities[j].id != entities[entities.len() - 1].id);
        }
        lemma_count_for_id_absent(entities.drop_last(), ids, shooter, id);
        assert(!ids.contains(e.id));
    } else {
        assert(j0 < entities.len() - 1);
        assert forall|p: int, q: int| 0 <= p < q < entities.drop_last().len() implies (
        #[trigger] entities.drop_last()[p]).id != (#[trigger] entities.drop_last()[q]).id by {
            assert(entities.drop_last()[p] == entities[p]);
            assert(entities.drop_last()[q] == entities[q]);
        }
        assert(entities.drop_last()[j0] == entities[j0]);
        lemma_count_for_one_more(entities.drop_last(), ids, shooter, id);
        assert(ids.push(id).contains(e.id) == ids.contains(e.id)) by {
            if ids.push(id).contains(e.id) {
                let t = choose|t: int| 0 <= t < ids.push(id).len() && ids.push(id)[t] == e.id;
                if t < ids.len() {
                    assert(ids[t] == e.id);
                }
            } else {
                if ids.contains(e.id) {
                    let t = choose|t: int| 0 <= t < ids.len() && ids[t] == e.id;
                    assert(ids.push(id)[t] == e.id);
                }
            }
        }
    }
}

/// Firing a volley that all hits: when the listed hit ids are distinct and
/// each is the id of one of the shooter's missiles, the shooter's tally is
/// exactly the number of listed ids. With the collection's unique ids this
/// is what turns "N missiles each hit a distinct enemy" into "score grows
/// by exactly N".
pub proof fn lemma_count_for_distinct_hits(
    entities: Seq<Missile>,
    ids: Seq<ID>,
    shooter: Seq<char>,
)
    requires
        mids_distinct(entities),
        forall|p: int, q: int|
            0 <= p < q < ids.len() ==> #[trigger] ids[p] != #[trigger] ids[q],
        forall|p: int|
            #![trigger ids[p]]
            0 <= p < ids.len() ==> exists|j: int|
                0 <= j < entities.len() && (#[trigger] entities[j]).id == ids[p]
                    && entities[j].shooter_id@ == shooter,
    ensures
        count_for(entities, ids, shooter) == ids.len(),
    decreases ids.len(),
{
    if ids.len() == 0 {
        assert(ids =~= Seq::<ID>::empty());
        lemma_count_for_empty(entities, shooter);
    } else {
        let rest = ids.drop_last();
        let id = ids.last();
        assert(id == ids[ids.len() - 1]);
        assert forall|p: int, q: int|
            0 <= p < q < rest.len() implies #[trigger] rest[p] != #[trigger] rest[q] by {
            assert(rest[p] == ids[p] && rest[q] == ids[q]);
        }
        assert forall|p: int| #![trigger rest[p]] 0 <= p < rest.len() implies exists|j: int|
            0 <= j < entities.len() && (#[trigger] entities[j]).id == rest[p]
                && entities[j].shooter_id@ == shooter by {
            assert(rest[p] == ids[p]);
        }
        lemma_count_for_distinct_hits(entities, rest, shooter);
        assert(!rest.contains(id)) by {
            if rest.contains(id) {
                let t = choose|t: int| 0 <= t < rest.len() && rest[t] == id;
                assert(ids[t] == ids[ids.len() - 1]);
            }
        }
        lemma_count_for_one_more(entities, rest, shooter, id);
        assert(rest.push(id) =~= ids);
    }
}

/// An empty id list tallies zero.
proof fn lemma_count_for_empty(entities: Seq<Missile>, shooter: Seq<char>)
    ensures
        count_for(entities, Seq::<ID>::empty(), shooter) == 0,
    decreases entities.len(),
{
    if entities.len() > 0 {
        lemma_count_for_empty(entities.drop_last(), shooter);
    }
}

/// Extending the counted prefix by one missile raises exactly the counts of
/// that missile's shooter, by one if its id is in `ids`.
proof fn lemma_count_for_step(s: Seq<Missile>, i: int, ids: Seq<ID>)
    requires
        0 <= i < s.len(),
    ensures
        forall|shooter: Seq<char>|
            #[trigger] count_for(s.subrange(0, i + 1), ids, shooter) == count_for(
                s.subrange(0, i),
                ids,
                shooter,
            ) + if ids.contains(s[i].id) && s[i].shooter_id@ == shooter {
                1int
            } else {
                0int
            },
{
    assert forall|shooter: Seq<char>|
        #[trigger] count_for(s.subrange(0, i + 1), ids, shooter) == count_for(
            s.subrange(0, i),
            ids,
            shooter,
        ) + if ids.contains(s[i].id) && s[i].shooter_id@ == shooter {
            1int
        } else {
            0int
        } by {
        assert(s.subrange(0, i + 1).drop_last() =~= s.subrange(0, i));
        assert(s.subrange(0, i + 1).last() == s[i]);
    }
}

/// Linear scan for a missile id.
fn contains_id(ids: &Vec<ID>, id: ID) -> (found: bool)
    ensures
        found == ids@.contains(id),
{
    let n = ids.len();
    let mut k: usize = 0;
    while k < n
        invariant
            k <= n == ids@.len(),
            forall|t: int| 0 <= t < k ==> #[trigger] ids@[t] != id,
        decreases n - k,
    {
        if ids[k].0 == id.0 && ids[k].1 == id.1 {
            assert(ids@[k as int] == id);
            return true;
        }
        k += 1;
    }
    assert(!ids@.contains(id));
    false
}

/// Linear scan for a shooter's entry in the per-shooter counts.
fn find_shooter(counts: &Vec<(String, i64)>, name: &String) -> (found: Option<usize>)
    ensures
        match found {
            Some(k) => k < counts@.len() && counts@[k as int].0@ == name@,
            None => forall|t: int| 0 <= t < counts@.len() ==> (#[trigger] counts@[t]).0@ != name@,
        },
{
    let n = counts.len();
    let mut k: usize = 0;
    while k < n
        invariant
            k <= n == counts@.len(),
            forall|t: int| 0 <= t < k ==> (#[trigger] counts@[t]).0@ != name@,
        decreases n - k,
    {
        if counts[k].0 == *name {
            return Some(k);
        }
        k += 1;
    }
    None
}

/// The per-missile advance of one tick.
pub open spec fn update_map(now: i64) -> spec_fn(Missile) -> Missile {
    |m: Missile| m.updated_spec(now)
}

/// The missile collection, with the ids marked for removal on the next
/// update.
pub struct Missiles {
    pub entities: Vec<Missile>,
    pub remove_ids: Vec<ID>,
}

impl Missiles {
    /// Every entity is well-formed, entity ids are unique within the
    /// collection, and the collection is below the entity cap.
    pub open spec fn wf(self) -> bool {
        &&& forall|i: int| 0 <= i < self.entities@.len() ==> (#[trigger] self.entities@[i]).wf()
        &&& mids_distinct(self.entities@)
        &&& self.entities@.len() <= ENTITY_CAP
    }

    /// Whether `id` is marked for removal.
    pub open spec fn marked(self, id: ID) -> bool {
        self.remove_ids@.contains(id)
    }

    /// The pruning predicate of one tick: a missile survives if its lifespan
    /// is still positive and it is not marked for removal.
    pub open spec fn keep_pred(self) -> spec_fn(Missile) -> bool {
        |m: Missile| m.lifespan > 0 && !self.marked(m.id)
    }

    /// An empty collection.
    pub fn init() -> (r: Missiles)
        ensures
            r.entities@ =~= Seq::<Missile>::empty(),
            r.remove_ids@ =~= Seq::<ID>::empty(),
            r.wf(),
    {
        Missiles { entities: Vec::new(), remove_ids: Vec::new() }
    }

    /// Append one missile. The missile is dropped if its id is already
    /// taken (ids are unique within the collection) or the collection is at
    /// the entity cap.
    #[verifier::loop_isolation(false)]
    pub fn add(&mut self, missile: Missile)
        requires
            old(self).wf(),
            missile.wf(),
        ensures
            final(self).wf(),
            final(self).remove_ids@ == old(self).remove_ids@,
            old(self).entities@.len() < ENTITY_CAP && !has_id(old(self).entities@, missile.id)
                ==> final(self).entities@ == old(self).entities@.push(missile),
            old(self).entities@.len() >= ENTITY_CAP || has_id(old(self).entities@, missile.id)
                ==> final(self).entities@ == old(self).entities@,
    {
        let n = self.entities.len();
        let mut k: usize = 0;
        while k < n
            invariant
                k <= n == self.entities@.len(),
                *self == *old(self),
                forall|t: int| 0 <= t < k ==> (#[trigger] self.entities@[t]).id != missile.id,
            decreases n - k,
        {
            if self.entities[k].id.0 == missile.id.0 && self.entities[k].id.1 == missile.id.1 {
                proof {
                    assert(has_id(self.entities@, missile.id));
                }
                return ;
            }
            k += 1;
        }
        proof {
            assert(!has_id(self.entities@, missile.id));
        }
        if self.entities.len() < ENTITY_CAP {
            let ghost prev = self.entities@;
            self.entities.push(missile);
            proof {
                assert forall|i: int, j: int| 0 <= i < j < self.entities@.len() implies (
                #[trigger] self.entities@[i]).id != (#[trigger] self.entities@[j]).id by {
                    if j == self.entities@.len() - 1 {
                        assert(self.entities@[i] == prev[i]);
                    } else {
                        assert(self.entities@[i] == prev[i] && self.entities@[j] == prev[j]);
                    }
                }
                assert forall|i: int| 0 <= i < self.entities@.len() implies (
                #[trigger] self.entities@[i]).wf() by {
                    if i < prev.len() {
                        assert(self.entities@[i] == prev[i]);
                    } else {
                        assert(self.entities@[i] == missile);
                    }
                }
            }
        }
    }

    /// Mark each listed id for removal on the next update.
    pub fn remove(&mut self, ids: Vec<ID>)
        requires
            old(self).wf(),
        ensures
            final(self).wf(),
            final(self).entities@ == old(self).entities@,
            final(self).remove_ids@ == old(self).remove_ids@ + ids@,
            forall|id: ID|
                #[trigger] final(self).marked(id) <==> old(self).marked(id) || ids@.contains(id),
    {
        let ghost orig = self.remove_ids@;
        let n = ids.len();
        let mut k: usize = 0;
        while k < n
            invariant
                k <= n == ids@.len(),
                self.entities@ == old(self).entities@,
                self.remove_ids@ =~= orig + ids@.subrange(0, k as int),
            decreases n - k,
        {
            self.remove_ids.push(ids[k]);
            proof {
                assert(ids@.subrange(0, k as int).push(ids@[k as int]) =~= ids@.subrange(
                    0,
                    k as int + 1,
                ));
            }
            k += 1;
        }
        proof {
            assert(ids@.subrange(0, n as int) =~= ids@);
            assert forall|id: ID| #[trigger] (orig + ids@).contains(id) implies orig.contains(id)
                || ids@.contains(id) by {
                let t = choose|t: int| 0 <= t < (orig + ids@).len() && (orig + ids@)[t] == id;
                if t < orig.len() {
                    assert(orig[t] == id);
                } else {
                    assert(ids@[t - orig.len()] == id);
                }
            }
            assert forall|id: ID| orig.contains(id) || ids@.contains(id) implies #[trigger] (orig
                + ids@).contains(id) by {
                if orig.contains(id) {
                    let t = choose|t: int| 0 <= t < orig.len() && orig[t] == id;
                    assert((orig + ids@)[t] == id);
                } else {
                    let t = choose|t: int| 0 <= t < ids@.len() && ids@[t] == id;
                    assert((orig + ids@)[orig.len() + t] == id);
                }
            }
        }
    }

    /// One tick: drop expired and marked missiles, advance the survivors,
    /// and clear the marks.
    #[verifier::loop_isolation(false)]
    pub fn update(&mut self, now: i64)
        requires
            old(self).wf(),
        ensures
            final(self).entities@ == old(self).entities@.filter(old(self).keep_pred()).map_values(
                update_map(now),
            ),
            final(self).remove_ids@ =~= Seq::<ID>::empty(),
            final(self).wf(),
    {
        let ghost orig = self.entities@;
        let ghost pred = self.keep_pred();
        let ghost f = update_map(now);
        let ghost marks = self.remove_ids@;
        let n = self.entities.len();
        let mut kept: Vec<Missile> = Vec::new();
        let mut i: usize = 0;
        while i < n
            invariant
                i <= n == orig.len(),
                self.entities@ == orig,
                self.remove_ids@ == marks,
                self.wf(),
                kept@ =~= orig.subrange(0, i as int).filter(pred).map_values(f),
                kept@.len() <= i,
                forall|k: int| 0 <= k < kept@.len() ==> (#[trigger] kept@[k]).wf(),
                forall|k: int|
                    0 <= k < kept@.len() ==> exists|j: int|
                        0 <= j < i && #[trigger] kept@[k] == f(orig[j]),
                mids_distinct(kept@),
            decreases n - i,
        {
            proof {
                lemma_filter_map_step(orig, i as int, pred, f);
            }
            let alive = self.entities[i].lifespan > 0;
            let is_marked = contains_id(&self.remove_ids, self.entities[i].id);
            if alive && !is_marked {
                let mut m = self.entities[i].duplicate();
                m.update(now);
                let ghost prev = kept@;
                kept.push(m);
                proof {
                    assert(m == f(orig[i as int]));
                    assert(m.id == orig[i as int].id);
                    assert forall|k: int| 0 <= k < kept@.len() implies (#[trigger] kept@[
                        k
                    ]).wf() by {
                        if k < prev.len() {
                            assert(kept@[k] == prev[k]);
                        } else {
                            assert(kept@[k] == m);
                        }
                    }
                    assert forall|k: int| 0 <= k < kept@.len() implies exists|j: int|
                        0 <= j < i + 1 && #[trigger] kept@[k] == f(orig[j]) by {
                        if k < prev.len() {
                            assert(kept@[k] == prev[k]);
                            let j0 = choose|j0: int| 0 <= j0 < i && prev[k] == f(orig[j0]);
                            assert(kept@[k] == f(orig[j0]));
                        } else {
                            assert(kept@[k] == f(orig[i as int]));
                        }
                    }
                    assert forall|p: int, q: int| 0 <= p < q < kept@.len() implies (
                    #[trigger] kept@[p]).id != (#[trigger] kept@[q]).id by {
                        if q == kept@.len() - 1 {
                            assert(kept@[p] == prev[p]);
                            let j0 = choose|j0: int| 0 <= j0 < i && prev[p] == f(orig[j0]);
                            assert(kept@[p].id == orig[j0].id);
                            assert(orig[j0].id != orig[i as int].id);
                        } else {
                            assert(kept@[p] == prev[p] && kept@[q] == prev[q]);
                        }
                    }
                }
            }
            i += 1;
        }
        proof {
            assert(orig.subrange(0, n as int) =~= orig);
            assert(kept@.len() <= ENTITY_CAP);
        }
        self.entities = kept;
        self.remove_ids = Vec::new();
    }

    /// Mark the missile of every enemy-missile collision pair for removal.
    pub fn apply_enemy_collisions(&mut self, emcs: &Vec<((u64, u64), ID)>)
        requires
            old(self).wf(),
        ensures
            final(self).wf(),
            final(self).entities@ == old(self).entities@,
            forall|id: ID|
                #[trigger] final(self).marked(id) <==> old(self).marked(id) || emcs@.map_values(
                    |p: ((u64, u64), ID)| p.1,
                ).contains(id),
    {
        let n = emcs.len();
        let mut ids: Vec<ID> = Vec::new();
        let mut k: usize = 0;
        while k < n
            invariant
                k <= n == emcs@.len(),
                ids@ =~= emcs@.subrange(0, k as int).map_values(|p: ((u64, u64), ID)| p.1),
            decreases n - k,
        {
            ids.push(emcs[k].1);
            proof {
                assert(emcs@.subrange(0, k as int + 1) =~= emcs@.subrange(0, k as int).push(
                    emcs@[k as int],
                ));
            }
            k += 1;
        }
        proof {
            assert(emcs@.subrange(0, n as int) =~= emcs@);
        }
        self.remove(ids);
    }

    /// Tally, per shooter, how many missiles in this collection with an id
    /// in `ids` that shooter fired. Every listed shooter has a positive
    /// count, and every shooter with a positive count is listed exactly
    /// once.
    #[verifier::loop_isolation(false)]
    pub fn shooter_counts(&self, ids: &Vec<ID>) -> (counts: Vec<(String, i64)>)
        requires
            self.wf(),
        ensures
            forall|k: int, l: int| 0 <= k < l < counts@.len() ==> (#[trigger] counts@[k]).0@ != (
            #[trigger] counts@[l]).0@,
            forall|k: int|
                0 <= k < counts@.len() ==> (#[trigger] counts@[k]).1 == count_for(
                    self.entities@,
                    ids@,
                    counts@[k].0@,
                ) && counts@[k].1 >= 1,
            forall|shooter: Seq<char>|
                count_for(self.entities@, ids@, shooter) >= 1 ==> exists|k: int|
                    0 <= k < counts@.len() && (#[trigger] counts@[k]).0@ == shooter,
    {
        let ghost orig = self.entities@;
        let n = self.entities.len();
        let mut counts: Vec<(String, i64)> = Vec::new();
        let mut i: usize = 0;
        while i < n
            invariant
                i <= n == orig.len(),
                self.entities@ == orig,
                forall|k: int, l: int|
                    0 <= k < l < counts@.len() ==> (#[trigger] counts@[k]).0@ != (
                    #[trigger] counts@[l]).0@,
                forall|k: int|
                    0 <= k < counts@.len() ==> (#[trigger] counts@[k]).1 == count_for(
                        orig.subrange(0, i as int),
                        ids@,
                        counts@[k].0@,
                    ) && 1 <= counts@[k].1 <= i,
                forall|shooter: Seq<char>|
                    count_for(orig.subrange(0, i as int), ids@, shooter) >= 1 ==> exists|k: int|
                        0 <= k < counts@.len() && (#[trigger] counts@[k]).0@ == shooter,
            decreases n - i,
        {
            proof {
                lemma_count_for_step(orig, i as int, ids@);
            }
            let hit = contains_id(ids, self.entities[i].id);
            if hit {
                let ghost prev = counts@;
                match find_shooter(&counts, &self.entities[i].shooter_id) {
                    Some(k) => {
                        let entry = &mut counts[k];
                        entry.1 = entry.1 + 1;
                        proof {
                            assert(counts@ =~= prev.update(
                                k as int,
                                (prev[k as int].0, (prev[k as int].1 + 1) as i64),
                            ));
                            assert forall|t: int| 0 <= t < counts@.len() implies (
                            #[trigger] counts@[t]).1 == count_for(
                                orig.subrange(0, i as int + 1),
                                ids@,
                                counts@[t].0@,
                            ) && 1 <= counts@[t].1 <= i + 1 by {
                                if t != k as int {
                                    assert(counts@[t] == prev[t]);
                                    assert(prev[t].0@ != prev[k as int].0@);
                                }
                            }
                            assert(counts@[k as int].0@ == orig[i as int].shooter_id@);
                        }
                    },
                    None => {
                        counts.push((self.entities[i].shooter_id.clone(), 1));
                        proof {
                            let sh = orig[i as int].shooter_id@;
                            assert(count_for(orig.subrange(0, i as int), ids@, sh) >= 1
                                ==> exists|k: int|
                                0 <= k < prev.len() && (#[trigger] prev[k]).0@ == sh);
                            lemma_count_for_bounds(orig.subrange(0, i as int), ids@, sh);
                            assert(count_for(orig.subrange(0, i as int), ids@, sh) == 0);
                            assert forall|t: int| 0 <= t < counts@.len() implies (
                            #[trigger] counts@[t]).1 == count_for(
                                orig.subrange(0, i as int + 1),
                                ids@,
                                counts@[t].0@,
                            ) && 1 <= counts@[t].1 <= i + 1 by {
                                if t < prev.len() {
                                    assert(counts@[t] == prev[t]);
                                    assert(prev[t].0@ != sh);
                                } else {
                                    assert(counts@[t].0@ == sh && counts@[t].1 == 1);
                                }
                            }
                            assert forall|t: int, l: int| 0 <= t < l < counts@.len() implies (
                            #[trigger] counts@[t]).0@ != (#[trigger] counts@[l]).0@ by {
                                if l < prev.len() {
                                    assert(counts@[t] == prev[t] && counts@[l] == prev[l]);
                                } else {
                                    assert(counts@[t] == prev[t] && counts@[l].0@ == sh);
                                }
                            }
                            assert(counts@[counts@.len() - 1].0@ == sh);
                        }
                    },
                }
                proof {
                    let sh_i = orig[i as int].shooter_id@;
                    assert(exists|k: int|
                        0 <= k < counts@.len() && (#[trigger] counts@[k]).0@ == sh_i);
                    assert forall|shooter: Seq<char>|
                        #[trigger] count_for(orig.subrange(0, i as int + 1), ids@, shooter)
                            >= 1 implies
                        exists|k: int|
                            0 <= k < counts@.len() && (#[trigger] counts@[k]).0@ == shooter by {
                        lemma_count_for_step(orig, i as int, ids@);
                        if !(ids@.contains(orig[i as int].id) && sh_i == shooter) {
                            assert(count_for(orig.subrange(0, i as int), ids@, shooter) >= 1);
                            let k0 = choose|k0: int|
                                0 <= k0 < prev.len() && (#[trigger] prev[k0]).0@ == shooter;
                            assert(counts@[k0].0@ == shooter);
                        }
                    }
                }
            } else {
                proof {
                    assert forall|shooter: Seq<char>|
                        #[trigger] count_for(orig.subrange(0, i as int + 1), ids@, shooter)
                            >= 1 implies
                        exists|k: int|
                            0 <= k < counts@.len() && (#[trigger] counts@[k]).0@ == shooter by {
                        lemma_count_for_step(orig, i as int, ids@);
                        assert(count_for(orig.subrange(0, i as int), ids@, shooter) >= 1);
                    }
                }
            }
            i += 1;
        }
        proof {
            assert(orig.subrange(0, n as int) =~= orig);
        }
        counts
    }
}

} // verus!
