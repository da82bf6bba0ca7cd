//! Explosions: transient records spawned when an enemy is destroyed by a
//! collision, with a pure lifespan countdown and no motion.

use vstd::prelude::*;
use crate::utils;
use crate::utils::{elapsed_spec, lemma_filter_map_step};
use crate::enemy::Enemy;

verus! {

/// Initial explosion lifespan in milliseconds.
pub const LIFESPAN: i64 = 1000;

/// One explosion: position and size in milli-units, lifespan in
/// milliseconds.
pub struct Explosion {
    pub id: String,
    pub updated_at: i64,
    pub x: i64,
    pub y: i64,
    /// Collision diameter of the entity that exploded, used for display
    /// scale.
    pub size: i64,
    pub lifespan: i64,
}

impl Explosion {
    /// Field bounds: an explosion sits where an enemy was, never moves, and
    /// its lifespan only counts down from [`LIFESPAN`] in clamped steps.
    pub open spec fn wf(self) -> bool {
        &&& -(utils::MAX_STEP_MS as int) < self.lifespan <= LIFESPAN
        &&& -32_000_000 <= self.x <= 32_000_000
        &&& -32_000_000 <= self.y <= 32_000_000
        &&& 0 <= self.size <= 1_000_000
    }

    /// The explosion one clamped time step later: only the clock and the
    /// lifespan change.
    pub open spec fn updated_spec(self, now: i64) -> Explosion {
        Explosion {
            updated_at: now,
            lifespan: (self.lifespan - elapsed_spec(self.updated_at as int, now as int)) as i64,
            ..self
        }
    }

    /// Build an explosion with an explicit timestamp and id.
    pub fn spawn_at(x: i64, y: i64, size: i64, now: i64, id: String) -> (e: Explosion)
        requires
            -32_000_000 <= x <= 32_000_000,
            -32_000_000 <= y <= 32_000_000,
            0 <= size <= 1_000_000,
        ensures
            e == (Explosion { id, updated_at: now, x, y, size, lifespan: LIFESPAN }),
            e.wf(),
    {
        Explosion { id, updated_at: now, x, y, size, lifespan: LIFESPAN }
    }

    /// Build an explosion stamped with the current wall clock and a fresh id.
    pub fn spawn(x: i64, y: i64, size: i64) -> (e: Explosion)
        requires
            -32_000_000 <= x <= 32_000_000,
            -32_000_000 <= y <= 32_000_000,
            0 <= size <= 1_000_000,
        ensures
            e.x == x,
            e.y == y,
            e.size == size,
            e.lifespan == LIFESPAN,
            e.wf(),
    {
        let now = utils::now_in_millis();
        let id = utils::new_uuid();
        Explosion::spawn_at(x, y, size, now, id)
    }

    /// Advance the lifespan countdown by the clamped elapsed time.
    pub fn update(&mut self, now: i64)
        requires
            old(self).wf(),
            old(self).lifespan >= 1,
        ensures
            *final(self) == old(self).updated_spec(now),
            final(self).wf(),
    {
        let dt = utils::elapsed_ms(self.updated_at, now);
        self.lifespan = self.lifespan - dt;
        self.updated_at = now;
    }

    /// Copy of this explosion (explosions own a `String` id, so they are not
    /// `Copy`).
    pub fn duplicate(&self) -> (e: Explosion)
        ensures
            e == *self,
    {
        Explosion {
            id: self.id.clone(),
            updated_at: self.updated_at,
            x: self.x,
            y: self.y,
            size: self.size,
            lifespan: self.lifespan,
        }
    }
}

/// The explosion collection.
pub struct Explosions {
    pub entities: Vec<Explosion>,
}

/// The pruning predicate of one tick: an explosion survives while its
/// lifespan is still positive.
pub open spec fn alive_pred() -> spec_fn(Explosion) -> bool {
    |e: Explosion| e.lifespan > 0
}

/// The per-explosion advance of one tick.
pub open spec fn update_map(now: i64) -> spec_fn(Explosion) -> Explosion {
    |e: Explosion| e.updated_spec(now)
}

impl Explosions {
    /// Every entity is well-formed.
    pub open spec fn wf(self) -> bool {
        forall|i: int| 0 <= i < self.entities@.len() ==> (#[trigger] self.entities@[i]).wf()
    }

    /// An empty collection.
    pub fn init() -> (r: Explosions)
        ensures
            r.entities@ =~= Seq::<Explosion>::empty(),
            r.wf(),
    {
        Explosions { entities: Vec::new() }
    }

    /// Append one explosion.
    pub fn add(&mut self, e: Explosion)
        requires
            old(self).wf(),
            e.wf(),
        ensures
            final(self).entities@ == old(self).entities@.push(e),
            final(self).wf(),
    {
        self.entities.push(e);
    }

    /// Append the explosion a destroyed enemy leaves behind: at the
    /// enemy's position, sized by its collision diameter.
    pub fn spawn(&mut self, enemy: &Enemy)
        requires
            old(self).wf(),
            enemy.wf(),
        ensures
            final(self).wf(),
            final(self).entities@.len() == old(self).entities@.len() + 1,
            final(self).entities@.subrange(0, old(self).entities@.len() as int) == old(
                self,
            ).entities@,
            final(self).entities@.last().x == enemy.x_spec(),
            final(self).entities@.last().y == enemy.y_spec(),
            final(self).entities@.last().size == 2 * enemy.radius_spec(),
            final(self).entities@.last().lifespan == LIFESPAN,
    {
        let e = enemy.explode();
        self.entities.push(e);
        proof {
            assert(self.entities@.subrange(0, old(self).entities@.len() as int) =~= old(
                self,
            ).entities@);
        }
    }

    /// One tick: drop the explosions whose lifespan has run out, then
    /// advance the survivors' countdowns.
    #[verifier::loop_isolation(false)]
    pub fn update(&mut self, now: i64)
        requires
            old(self).wf(),
        ensures
            final(self).entities@ == old(self).entities@.filter(alive_pred()).map_values(
                update_map(now),
            ),
            final(self).wf(),
    {
        let ghost orig = self.entities@;
        let ghost f = update_map(now);
        let n = self.entities.len();
        let mut kept: Vec<Explosion> = Vec::new();
        let mut i: usize = 0;
        while i < n
            invariant
                i <= n == orig.len(),
                self.entities@ == orig,
                self.wf(),
                kept@ =~= orig.subrange(0, i as int).filter(alive_pred()).map_values(f),
                forall|k: int| 0 <= k < kept@.len() ==> (#[trigger] kept@[k]).wf(),
            decreases n - i,
        {
            proof {
                lemma_filter_map_step(orig, i as int, alive_pred(), f);
            }
            if self.entities[i].lifespan > 0 {
                let mut e = self.entities[i].duplicate();
                e.update(now);
                let ghost prev = kept@;
                kept.push(e);
                proof {
                    assert forall|k: int| 0 <= k < kept@.len() implies (#[trigger] kept@[
                        k
                    ]).wf() by {
                        if k < prev.len() {
                            assert(kept@[k] == prev[k]);
                        } else {
                            assert(kept@[k] == e);
                        }
                    }
                }
            }
            i += 1;
        }
        proof {
            assert(orig.subrange(0, n as int) =~= orig);
        }
        self.entities = kept;
    }
}

} // verus!
