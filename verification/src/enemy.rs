//! Enemies: a closed tagged variant over the two enemy kinds, and the
//! enemy collection with its removal, explosion and rock-splitting logic.

pub mod bouncer;
pub mod rock;

use vstd::prelude::*;
use crate::collision::{Circle, circle_wf};
use crate::explosion::{Explosion, Explosions, alive_pred};
use crate::missile::ENTITY_CAP;
use crate::spawn::{Spawner, SpawnerKind};
use crate::trig;
use crate::trig::{cos_mdeg_spec, isqrt_spec, sin_mdeg_spec};
use crate::utils;
use crate::utils::{lemma_filter_step, lemma_tdiv_bound, tdiv};

verus! {

/// Enemy identity: the two 64-bit halves of a freshly drawn UUID.
pub type ID = (u64, u64);

/// Hard bound on any enemy coordinate magnitude, in milli-units.
pub const POS_LIMIT: i64 = 31_000_000;

/// Bound on an enemy coordinate right after one update of an in-bounds
/// enemy: the out-of-bounds band plus one clamped step of travel.
pub const POS_AFTER_UPDATE: i64 = 30_800_000;

/// Bound on any enemy velocity component, in milli-units per second.
pub const VEL_LIMIT: i64 = 500_000;

/// Enemies are pruned silently once they are this far outside the screen,
/// in milli-units.
pub const OUT_OF_BOUNDS_PADDING: i64 = 100_000;

/// An optional override with its default.
pub open spec fn opt_or(o: Option<i64>, d: i64) -> i64 {
    match o {
        Some(v) => v,
        None => d,
    }
}

/// An optional override with its default.
pub fn opt_or_exec(o: &Option<i64>, d: i64) -> (r: i64)
    ensures
        r == opt_or(*o, d),
{
    match o {
        Some(v) => *v,
        None => d,
    }
}

/// A random spawn point on the left or right screen edge (just off screen
/// horizontally, at the top or bottom corner band vertically).
pub fn spawn_horizontal() -> (p: (i64, i64))
    ensures
        p.0 == -50_000 || p.0 == utils::WIDTH + 50_000,
        p.1 == 0 || p.1 == utils::HEIGHT,
{
    let x = if utils::rand_range(0, 2) == 0 {
        -50_000
    } else {
        utils::WIDTH + 50_000
    };
    let y = if utils::rand_range(0, 2) == 0 {
        0
    } else {
        utils::HEIGHT
    };
    (x, y)
}

/// A random spawn point on the top or bottom screen edge.
pub fn spawn_vertical() -> (p: (i64, i64))
    ensures
        p.0 == 0 || p.0 == utils::WIDTH,
        p.1 == -50_000 || p.1 == utils::HEIGHT + 50_000,
{
    let x = if utils::rand_range(0, 2) == 0 {
        0
    } else {
        utils::WIDTH
    };
    let y = if utils::rand_range(0, 2) == 0 {
        -50_000
    } else {
        utils::HEIGHT + 50_000
    };
    (x, y)
}

/// The spawn-velocity formula: the vector from `(x, y)` toward the screen
/// center, rotated by `arc` milli-degrees, normalized with the integer
/// square root, and scaled to `speed` — or straight along the x axis when
/// the spawn point is exactly the center.
pub open spec fn aim_spec(x: int, y: int, arc: int, speed: int) -> (int, int) {
    let dx = utils::WIDTH as int / 2 - x;
    let dy = utils::HEIGHT as int / 2 - y;
    let d = isqrt_spec(dx * dx + dy * dy);
    if d == 0 {
        (speed, 0)
    } else {
        (
            tdiv(speed * (dx * cos_mdeg_spec(arc) - dy * sin_mdeg_spec(arc)), 1000 * d),
            tdiv(speed * (dx * sin_mdeg_spec(arc) + dy * cos_mdeg_spec(arc)), 1000 * d),
        )
    }
}

/// A velocity of magnitude roughly `speed`, aimed from `(x, y)` at the
/// screen center and then rotated by `arc` milli-degrees: exactly
/// [`aim_spec`], with each component bounded by twice the speed.
pub fn aim_from(x: i64, y: i64, arc: i64, speed: i64) -> (v: (i64, i64))
    requires
        -1_000_000 <= x <= 1_000_000,
        -1_000_000 <= y <= 1_000_000,
        -360_000 <= arc <= 360_000,
        0 <= speed <= 250_000,
    ensures
        v.0 == aim_spec(x as int, y as int, arc as int, speed as int).0,
        v.1 == aim_spec(x as int, y as int, arc as int, speed as int).1,
        -2 * speed <= v.0 <= 2 * speed,
        -2 * speed <= v.1 <= 2 * speed,
{
    let dx = utils::WIDTH / 2 - x;
    let dy = utils::HEIGHT / 2 - y;
    proof {
        assert(0 <= dx * dx <= 4_000_000_000_000 && 0 <= dy * dy <= 4_000_000_000_000)
            by (nonlinear_arith)
            requires
                -2_000_000 <= dx <= 2_000_000,
                -2_000_000 <= dy <= 2_000_000,
        ;
    }
    let d = trig::isqrt(dx * dx + dy * dy);
    proof {
        assert(d <= 3_000_000) by (nonlinear_arith)
            requires
                0 <= d,
                d * d <= 8_000_000_000_000,
        ;
    }
    if d == 0 {
        (speed, 0)
    } else {
        proof {
            trig::lemma_isqrt_dominates(d as int, dx as int, dy as int);
        }
        let c = trig::cos_mdeg(arc);
        let s = trig::sin_mdeg(arc);
        proof {
            assert(-2_000_000_000 <= dx * c <= 2_000_000_000 && -2_000_000_000 <= dy * s
                <= 2_000_000_000 && -2_000_000_000 <= dx * s <= 2_000_000_000
                && -2_000_000_000 <= dy * c <= 2_000_000_000) by (nonlinear_arith)
                requires
                    -1000 <= c <= 1000,
                    -1000 <= s <= 1000,
                    -2_000_000 <= dx <= 2_000_000,
                    -2_000_000 <= dy <= 2_000_000,
            ;
        }
        let num_x = dx * c - dy * s;
        let num_y = dx * s + dy * c;
        proof {
            assert(-2000 * d <= num_x <= 2000 * d && -2000 * d <= num_y <= 2000 * d)
                by (nonlinear_arith)
                requires
                    -1000 <= c <= 1000,
                    -1000 <= s <= 1000,
                    -d <= dx <= d,
                    -d <= dy <= d,
                    num_x == dx * c - dy * s,
                    num_y == dx * s + dy * c,
            ;
            assert(-(2 * speed * (1000 * d)) <= speed * num_x <= 2 * speed * (1000 * d)
                && -(2 * speed * (1000 * d)) <= speed * num_y <= 2 * speed * (1000 * d)
                && -2_000_000_000_000_000 <= speed * num_x <= 2_000_000_000_000_000
                && -2_000_000_000_000_000 <= speed * num_y <= 2_000_000_000_000_000)
                by (nonlinear_arith)
                requires
                    0 <= speed <= 250_000,
                    0 < d <= 3_000_000,
                    -2000 * d <= num_x <= 2000 * d,
                    -2000 * d <= num_y <= 2000 * d,
            ;
            lemma_tdiv_bound(speed as int * num_x as int, 1000 * d as int, 2 * speed as int);
            lemma_tdiv_bound(speed as int * num_y as int, 1000 * d as int, 2 * speed as int);
        }
        let vx = (speed * num_x) / (1000 * d);
        let vy = (speed * num_y) / (1000 * d);
        (vx, vy)
    }
}

/// The two enemy kinds.
#[derive(Clone, Copy)]
pub enum Enemy {
    Bouncer(bouncer::Bouncer),
    Rock(rock::Rock),
}

impl Enemy {
    /// Field bounds of the wrapped entity.
    pub open spec fn wf(self) -> bool {
        match self {
            Enemy::Bouncer(b) => b.wf(),
            Enemy::Rock(r) => r.wf(),
        }
    }

    /// The entity's id.
    pub open spec fn id_spec(self) -> ID {
        match self {
            Enemy::Bouncer(b) => b.id,
            Enemy::Rock(r) => r.id,
        }
    }

    /// The entity's id.
    pub fn id(&self) -> (r: ID)
        ensures
            r == self.id_spec(),
    {
        match self {
            Enemy::Bouncer(b) => b.id,
            Enemy::Rock(r) => r.id,
        }
    }

    /// The entity's x coordinate (top-left corner, milli-units).
    pub open spec fn x_spec(self) -> i64 {
        match self {
            Enemy::Bouncer(b) => b.x,
            Enemy::Rock(r) => r.x,
        }
    }

    /// The entity's x coordinate.
    pub fn x(&self) -> (r: i64)
        ensures
            r == self.x_spec(),
    {
        match self {
            Enemy::Bouncer(b) => b.x,
            Enemy::Rock(r) => r.x,
        }
    }

    /// The entity's y coordinate (top-left corner, milli-units).
    pub open spec fn y_spec(self) -> i64 {
        match self {
            Enemy::Bouncer(b) => b.y,
            Enemy::Rock(r) => r.y,
        }
    }

    /// The entity's y coordinate.
    pub fn y(&self) -> (r: i64)
        ensures
            r == self.y_spec(),
    {
        match self {
            Enemy::Bouncer(b) => b.y,
            Enemy::Rock(r) => r.y,
        }
    }

    /// Knockback speed dealt to a ship, in milli-units per second: bouncers
    /// knock much harder than rocks.
    pub open spec fn repel_vel_spec(self) -> i64 {
        match self {
            Enemy::Bouncer(_) => 1_000_000,
            Enemy::Rock(_) => 200_000,
        }
    }

    /// Knockback speed dealt to a ship.
    pub fn repel_vel(&self) -> (r: i64)
        ensures
            r == self.repel_vel_spec(),
    {
        match self {
            Enemy::Bouncer(_) => 1_000_000,
            Enemy::Rock(_) => 200_000,
        }
    }

    /// Damage dealt to a ship's health (milli-points): zero for a bouncer,
    /// scale-proportional for a rock.
    pub open spec fn damage_spec(self) -> i64 {
        match self {
            Enemy::Bouncer(_) => 0,
            Enemy::Rock(r) => r.damage_spec(),
        }
    }

    /// Damage dealt to a ship's health.
    pub fn damage(&self) -> (d: i64)
        requires
            self.wf(),
        ensures
            d == self.damage_spec(),
            0 <= d <= 7_500,
    {
        match self {
            Enemy::Bouncer(_) => 0,
            Enemy::Rock(r) => r.damage(),
        }
    }

    /// The entity's collision radius in milli-units.
    pub open spec fn radius_spec(self) -> i64 {
        match self {
            Enemy::Bouncer(_) => bouncer::RADIUS,
            Enemy::Rock(r) => r.radius_spec(),
        }
    }

    /// The entity's collision circle.
    pub open spec fn circle_spec(self) -> Circle {
        Circle {
            x: (self.x_spec() + self.radius_spec()) as i64,
            y: (self.y_spec() + self.radius_spec()) as i64,
            r: self.radius_spec(),
        }
    }

    /// The entity's collision circle.
    pub fn circle(&self) -> (c: Circle)
        requires
            self.wf(),
        ensures
            c == self.circle_spec(),
            circle_wf(c),
    {
        match self {
            Enemy::Bouncer(b) => b.circle(),
            Enemy::Rock(r) => r.circle(),
        }
    }

    /// Whether the entity has left the padded screen bounds.
    pub open spec fn oob_spec(self) -> bool {
        self.x_spec() < -OUT_OF_BOUNDS_PADDING || self.y_spec() < -OUT_OF_BOUNDS_PADDING
            || self.x_spec() > utils::WIDTH + OUT_OF_BOUNDS_PADDING || self.y_spec()
            > utils::HEIGHT + OUT_OF_BOUNDS_PADDING
    }

    /// Whether the entity has left the padded screen bounds.
    pub fn is_out_of_bounds(&self) -> (r: bool)
        ensures
            r == self.oob_spec(),
    {
        match self {
            Enemy::Bouncer(b) => b.is_out_of_bounds(),
            Enemy::Rock(r) => r.is_out_of_bounds(),
        }
    }

    /// The entity one clamped time step later.
    pub open spec fn updated_spec(self, now: i64) -> Enemy {
        match self {
            Enemy::Bouncer(b) => Enemy::Bouncer(b.updated_spec(now)),
            Enemy::Rock(r) => Enemy::Rock(r.updated_spec(now)),
        }
    }

    /// Advance the entity by the clamped elapsed time. Updates happen only
    /// on entities that are still in bounds, which keeps positions bounded.
    pub fn update(&mut self, now: i64)
        requires
            old(self).wf(),
            !old(self).oob_spec(),
        ensures
            *final(self) == old(self).updated_spec(now),
            final(self).wf(),
            -POS_AFTER_UPDATE <= final(self).x_spec() <= POS_AFTER_UPDATE,
            -POS_AFTER_UPDATE <= final(self).y_spec() <= POS_AFTER_UPDATE,
    {
        match self {
            Enemy::Bouncer(b) => b.update(now),
            Enemy::Rock(r) => r.update(now),
        }
    }

    /// The explosion left behind when this enemy is destroyed by a
    /// collision: at the enemy's position, sized by its collision diameter.
    pub fn explode(&self) -> (e: Explosion)
        requires
            self.wf(),
        ensures
            e.x == self.x_spec(),
            e.y == self.y_spec(),
            e.size == 2 * self.radius_spec(),
            e.lifespan == crate::explosion::LIFESPAN,
            e.wf(),
    {
        match self {
            Enemy::Bouncer(b) => b.explode(),
            Enemy::Rock(r) => r.explode(),
        }
    }
}


/// The survival predicate of the tick's first pass: the enemy is still
/// inside the padded bounds.
pub open spec fn in_bounds_pred() -> spec_fn(Enemy) -> bool {
    |e: Enemy| !e.oob_spec()
}

/// The per-enemy advance of one tick.
pub open spec fn update_map(now: i64) -> spec_fn(Enemy) -> Enemy {
    |e: Enemy| e.updated_spec(now)
}

/// Membership of an enemy's id in a removal mark list.
pub open spec fn marked_in(marks: Seq<ID>) -> spec_fn(Enemy) -> bool {
    |e: Enemy| marks.contains(e.id_spec())
}

/// The complement of [`marked_in`].
pub open spec fn unmarked_in(marks: Seq<ID>) -> spec_fn(Enemy) -> bool {
    |e: Enemy| !marks.contains(e.id_spec())
}

/// No two enemies share an id.
pub open spec fn eids_distinct(s: Seq<Enemy>) -> bool {
    forall|i: int, j: int|
        0 <= i < j < s.len() ==> (#[trigger] s[i]).id_spec() != (#[trigger] s[j]).id_spec()
}

/// Some enemy in the sequence has this id.
pub open spec fn has_enemy_id(s: Seq<Enemy>, id: ID) -> bool {
    exists|i: int| 0 <= i < s.len() && (#[trigger] s[i]).id_spec() == id
}

/// A rock large enough that destroying it spawns children.
pub open spec fn is_big_rock(e: Enemy) -> bool {
    match e {
        Enemy::Rock(r) => r.scale > rock::DEFAULT_SCALE,
        Enemy::Bouncer(_) => false,
    }
}

/// `c` is a split child of the rock wrapped in `p`.
pub open spec fn child_enemy_of(c: Enemy, p: Enemy) -> bool {
    match (c, p) {
        (Enemy::Rock(cr), Enemy::Rock(pr)) => pr.child_of(cr),
        _ => false,
    }
}

/// Everything in `kept` from position `base` on is a split child of some
/// destroyed large rock in `exploded`.
pub open spec fn children_appended(kept: Seq<Enemy>, base: int, exploded: Seq<Enemy>) -> bool {
    forall|k: int|
        base <= k < kept.len() ==> exists|t2: int|
            0 <= t2 < exploded.len() && is_big_rock(exploded[t2]) && child_enemy_of(
                #[trigger] kept[k],
                exploded[t2],
            )
}

/// How many split children the enemies in `s` leave behind when destroyed:
/// four per rock above the split threshold.
pub open spec fn child_count(s: Seq<Enemy>) -> int
    decreases s.len(),
{
    if s.len() == 0 {
        0
    } else {
        child_count(s.drop_last()) + if is_big_rock(s.last()) {
            4int
        } else {
            0int
        }
    }
}

/// The child count of a sequence is nonnegative.
pub proof fn lemma_child_count_nonneg(s: Seq<Enemy>)
    ensures
        0 <= child_count(s),
    decreases s.len(),
{
    if s.len() > 0 {
        lemma_child_count_nonneg(s.drop_last());
    }
}

/// Extending a prefix by one enemy adds its own child count.
proof fn lemma_child_count_step(s: Seq<Enemy>, i: int)
    requires
        0 <= i < s.len(),
    ensures
        child_count(s.subrange(0, i + 1)) == child_count(s.subrange(0, i)) + if is_big_rock(
            s[i],
        ) {
            4int
        } else {
            0int
        },
{
    assert(s.subrange(0, i + 1).drop_last() =~= s.subrange(0, i));
    assert(s.subrange(0, i + 1).last() == s[i]);
}

/// A prefix never has more children than the whole sequence.
proof fn lemma_child_count_mono(s: Seq<Enemy>, i: int)
    requires
        0 <= i <= s.len(),
    ensures
        child_count(s.subrange(0, i)) <= child_count(s),
    decreases s.len() - i,
{
    if i == s.len() {
        assert(s.subrange(0, i) =~= s);
    } else {
        lemma_child_count_step(s, i);
        lemma_child_count_mono(s, i + 1);
    }
}

/// Whether an enemy is of the archetype a spawner kind produces.
pub open spec fn kind_matches(e: Enemy, k: SpawnerKind) -> bool {
    match (e, k) {
        (Enemy::Bouncer(_), SpawnerKind::Bouncers) => true,
        (Enemy::Rock(_), SpawnerKind::Rocks) => true,
        _ => false,
    }
}

/// An explosion left behind by one destroyed enemy: at its position, sized
/// by its collision diameter, with a fresh full lifespan.
pub open spec fn explosion_for(x: Explosion, e: Enemy) -> bool {
    &&& x.x == e.x_spec()
    &&& x.y == e.y_spec()
    &&& x.size == 2 * e.radius_spec()
    &&& x.lifespan == crate::explosion::LIFESPAN
}

/// Linear scan for an enemy id.
fn contains_eid(ids: &Vec<ID>, id: ID) -> (found: bool)
    ensures
        found == ids@.contains(id),
{
    let n = ids.len();
    let mut k: usize = 0;
    while k < n
        invariant
            k <= n == ids@.len(),
            forall|t: int| 0 <= t < k ==> #[trigger] ids@[t] != id,
        decreases n - k,
    {
        if ids[k].0 == id.0 && ids[k].1 == id.1 {
            assert(ids@[k as int] == id);
            return true;
        }
        k += 1;
    }
    assert(!ids@.contains(id));
    false
}

/// Linear scan of an enemy vector for an id.
fn vec_has_enemy_id(v: &Vec<Enemy>, id: ID) -> (found: bool)
    ensures
        found == has_enemy_id(v@, id),
{
    let n = v.len();
    let mut k: usize = 0;
    while k < n
        invariant
            k <= n == v@.len(),
            forall|t: int| 0 <= t < k ==> (#[trigger] v@[t]).id_spec() != id,
        decreases n - k,
    {
        let eid = v[k].id();
        if eid.0 == id.0 && eid.1 == id.1 {
            assert(v@[k as int].id_spec() == id);
            return true;
        }
        k += 1;
    }
    assert(!has_enemy_id(v@, id));
    false
}

/// The enemy collection: the live enemies, their pending removal marks, the
/// explosions they leave behind, and the spawn throttle state.
pub struct Enemies {
    pub spawned_count: i64,
    pub destroyed_count: i64,
    pub entities: Vec<Enemy>,
    pub explosions: Explosions,
    pub remove_ids: Vec<ID>,
    pub last_spawned_at: i64,
}

impl Enemies {
    /// Every entity is well-formed, entity ids are unique within the
    /// collection, the population is bounded, and the explosion collection
    /// is well-formed.
    pub open spec fn wf(self) -> bool {
        &&& forall|i: int| 0 <= i < self.entities@.len() ==> (#[trigger] self.entities@[i]).wf()
        &&& eids_distinct(self.entities@)
        &&& self.entities@.len() <= ENTITY_CAP
        &&& self.explosions.wf()
    }

    /// Whether `id` is marked for removal.
    pub open spec fn marked(self, id: ID) -> bool {
        self.remove_ids@.contains(id)
    }

    /// The enemies still in bounds at the start of a tick, each advanced by
    /// the clamped elapsed time.
    pub open spec fn updated_survivors(self, now: i64) -> Seq<Enemy> {
        self.entities@.filter(in_bounds_pred()).map_values(update_map(now))
    }

    /// The updated survivors that are marked for removal: they explode and
    /// (for large rocks) split.
    pub open spec fn exploded_after(self, now: i64) -> Seq<Enemy> {
        self.updated_survivors(now).filter(marked_in(self.remove_ids@))
    }

    /// The updated survivors that stay in the collection.
    pub open spec fn kept_after(self, now: i64) -> Seq<Enemy> {
        self.updated_survivors(now).filter(unmarked_in(self.remove_ids@))
    }

    /// The old explosions after their own prune-and-advance pass.
    pub open spec fn explosions_after(self, now: i64) -> Seq<Explosion> {
        self.explosions.entities@.filter(alive_pred()).map_values(
            crate::explosion::update_map(now),
        )
    }

    /// An empty collection.
    pub fn init() -> (r: Enemies)
        ensures
            r.entities@ =~= Seq::<Enemy>::empty(),
            r.remove_ids@ =~= Seq::<ID>::empty(),
            r.explosions.entities@ =~= Seq::<Explosion>::empty(),
            r.spawned_count == 0,
            r.destroyed_count == 0,
            r.last_spawned_at == 0,
            r.wf(),
    {
        Enemies {
            spawned_count: 0,
            destroyed_count: 0,
            entities: Vec::new(),
            explosions: Explosions::init(),
            remove_ids: Vec::new(),
            last_spawned_at: 0,
        }
    }

    /// The live enemy count.
    pub fn count(&self) -> (r: u32)
        requires
            self.wf(),
        ensures
            r == self.entities@.len(),
    {
        self.entities.len() as u32
    }

    /// Append one enemy. The enemy is dropped if its id is already taken
    /// (ids are unique within the collection) or the collection is at the
    /// entity cap.
    #[verifier::loop_isolation(false)]
    pub fn insert(&mut self, e: Enemy)
        requires
            old(self).wf(),
            e.wf(),
        ensures
            final(self).wf(),
            old(self).entities@.len() < ENTITY_CAP && !has_enemy_id(
                old(self).entities@,
                e.id_spec(),
            ) ==> final(self).entities@ == old(self).entities@.push(e),
            old(self).entities@.len() >= ENTITY_CAP || has_enemy_id(
                old(self).entities@,
                e.id_spec(),
            ) ==> final(self).entities@ == old(self).entities@,
            final(self).remove_ids@ == old(self).remove_ids@,
            final(self).explosions == old(self).explosions,
            final(self).spawned_count == old(self).spawned_count,
            final(self).destroyed_count == old(self).destroyed_count,
            final(self).last_spawned_at == old(self).last_spawned_at,
    {
        let id = e.id();
        let n = self.entities.len();
        let mut k: usize = 0;
        while k < n
            invariant
                k <= n == self.entities@.len(),
                *self == *old(self),
                forall|t: int| 0 <= t < k ==> (#[trigger] self.entities@[t]).id_spec() != id,
            decreases n - k,
        {
            let eid = self.entities[k].id();
            if eid.0 == id.0 && eid.1 == id.1 {
                proof {
                    assert(has_enemy_id(self.entities@, id));
                }
                return ;
            }
            k += 1;
        }
        proof {
            assert(!has_enemy_id(self.entities@, id));
        }
        if self.entities.len() < ENTITY_CAP {
            let ghost prev = self.entities@;
            self.entities.push(e);
            proof {
                assert forall|i: int, j: int| 0 <= i < j < self.entities@.len() implies (
                #[trigger] self.entities@[i]).id_spec() != (
                #[trigger] self.entities@[j]).id_spec() by {
                    if j == self.entities@.len() - 1 {
                        assert(self.entities@[i] == prev[i]);
                    } else {
                        assert(self.entities@[i] == prev[i] && self.entities@[j] == prev[j]);
                    }
                }
                assert forall|i: int| 0 <= i < self.entities@.len() implies (
                #[trigger] self.entities@[i]).wf() by {
                    if i < prev.len() {
                        assert(self.entities@[i] == prev[i]);
                    } else {
                        assert(self.entities@[i] == e);
                    }
                }
            }
        }
    }

    /// Find an enemy by id.
    pub fn get_index(&self, id: ID) -> (found: Option<usize>)
        ensures
            match found {
                Some(i) => i < self.entities@.len() && self.entities@[i as int].id_spec() == id,
                None => forall|j: int|
                    0 <= j < self.entities@.len() ==> (#[trigger] self.entities@[j]).id_spec()
                        != id,
            },
    {
        let n = self.entities.len();
        let mut k: usize = 0;
        while k < n
            invariant
                k <= n == self.entities@.len(),
                forall|j: int|
                    0 <= j < k ==> (#[trigger] self.entities@[j]).id_spec() != id,
            decreases n - k,
        {
            let eid = self.entities[k].id();
            if eid.0 == id.0 && eid.1 == id.1 {
                return Some(k);
            }
            k += 1;
        }
        None
    }

    /// Mark each listed id for removal on the next update.
    pub fn remove(&mut self, ids: Vec<ID>)
        requires
            old(self).wf(),
        ensures
            final(self).wf(),
            final(self).entities@ == old(self).entities@,
            final(self).explosions == old(self).explosions,
            final(self).spawned_count == old(self).spawned_count,
            final(self).destroyed_count == old(self).destroyed_count,
            final(self).last_spawned_at == old(self).last_spawned_at,
            forall|id: ID|
                #[trigger] final(self).marked(id) <==> old(self).marked(id) || ids@.contains(id),
    {
        let ghost orig = self.remove_ids@;
        let n = ids.len();
        let mut k: usize = 0;
        while k < n
            invariant
                k <= n == ids@.len(),
                self.entities@ == old(self).entities@,
                self.explosions == old(self).explosions,
                self.spawned_count == old(self).spawned_count,
                self.destroyed_count == old(self).destroyed_count,
                self.last_spawned_at == old(self).last_spawned_at,
                self.remove_ids@ =~= orig + ids@.subrange(0, k as int),
            decreases n - k,
        {
            self.remove_ids.push(ids[k]);
            proof {
                assert(ids@.subrange(0, k as int).push(ids@[k as int]) =~= ids@.subrange(
                    0,
                    k as int + 1,
                ));
            }
            k += 1;
        }
        proof {
            assert(ids@.subrange(0, n as int) =~= ids@);
            assert forall|id: ID| #[trigger] (orig + ids@).contains(id) implies orig.contains(id)
                || ids@.contains(id) by {
                let t = choose|t: int| 0 <= t < (orig + ids@).len() && (orig + ids@)[t] == id;
                if t < orig.len() {
                    assert(orig[t] == id);
                } else {
                    assert(ids@[t - orig.len()] == id);
                }
            }
            assert forall|id: ID| orig.contains(id) || ids@.contains(id) implies #[trigger] (orig
                + ids@).contains(id) by {
                if orig.contains(id) {
                    let t = choose|t: int| 0 <= t < orig.len() && orig[t] == id;
                    assert((orig + ids@)[t] == id);
                } else {
                    let t = choose|t: int| 0 <= t < ids@.len() && ids@[t] == id;
                    assert((orig + ids@)[orig.len() + t] == id);
                }
            }
        }
    }

    /// One tick of the enemy collection: advance and prune the explosions;
    /// drop out-of-bounds enemies silently (no explosion, no points);
    /// advance the survivors; turn the marked survivors into explosions,
    /// splitting each large rock into four children; and clear the marks.
    #[verifier::loop_isolation(false)]
    pub fn update(&mut self, now: i64)
        requires
            old(self).wf(),
        ensures
            final(self).wf(),
            final(self).remove_ids@ =~= Seq::<ID>::empty(),
            final(self).spawned_count == old(self).spawned_count,
            final(self).destroyed_count == old(self).destroyed_count,
            final(self).last_spawned_at == old(self).last_spawned_at,
            final(self).explosions.entities@.len() == old(self).explosions_after(now).len() + old(self).exploded_after(now).len(),
            final(self).explosions.entities@.subrange(
                0,
                old(self).explosions_after(now).len() as int,
            ) == old(self).explosions_after(now),
            forall|k: int|
                old(self).explosions_after(now).len() <= k < final(self).explosions.entities@.len() ==> explosion_for(
                    #[trigger] final(self).explosions.entities@[k],
                    old(self).exploded_after(now)[k - old(self).explosions_after(now).len()],
                ),
            final(self).entities@.len() >= old(self).kept_after(now).len(),
            final(self).entities@.subrange(0, old(self).kept_after(now).len() as int) == old(self).kept_after(now),
            final(self).entities@.len() <= old(self).kept_after(now).len() + child_count(
                old(self).exploded_after(now),
            ),
            children_appended(
                final(self).entities@,
                old(self).kept_after(now).len() as int,
                old(self).exploded_after(now),
            ),
    {
        self.explosions.update(now);
        let ghost marks0 = self.remove_ids@;
        let ghost orig = self.entities@;
        // first pass: prune out-of-bounds enemies, advance the survivors
        let n = self.entities.len();
        let mut upd: Vec<Enemy> = Vec::new();
        let mut i: usize = 0;
        while i < n
            invariant
                i <= n == orig.len(),
                self.entities@ == orig,
                upd@ =~= orig.subrange(0, i as int).filter(in_bounds_pred()).map_values(
                    update_map(now),
                ),
                upd@.len() <= i,
                forall|k: int|
                    0 <= k < upd@.len() ==> (#[trigger] upd@[k]).wf() && -POS_AFTER_UPDATE <= upd@[
                        k
                    ].x_spec() <= POS_AFTER_UPDATE && -POS_AFTER_UPDATE <= upd@[k].y_spec()
                        <= POS_AFTER_UPDATE,
                forall|k: int|
                    0 <= k < upd@.len() ==> exists|jj: int|
                        0 <= jj < i && #[trigger] upd@[k] == update_map(now)(orig[jj]),
                eids_distinct(upd@),
            decreases n - i,
        {
            proof {
                crate::utils::lemma_filter_map_step(
                    orig,
                    i as int,
                    in_bounds_pred(),
                    update_map(now),
                );
            }
            let e0 = self.entities[i];
            if !e0.is_out_of_bounds() {
                let mut e = e0;
                e.update(now);
                let ghost prev = upd@;
                upd.push(e);
                proof {
                    assert(e == update_map(now)(orig[i as int]));
                    assert(e.id_spec() == orig[i as int].id_spec());
                    assert forall|k: int|
                        0 <= k < upd@.len() implies (#[trigger] upd@[k]).wf() && -POS_AFTER_UPDATE
                        <= upd@[k].x_spec() <= POS_AFTER_UPDATE && -POS_AFTER_UPDATE <= upd@[
                        k
                    ].y_spec() <= POS_AFTER_UPDATE by {
                        if k < prev.len() {
                            assert(upd@[k] == prev[k]);
                        } else {
                            assert(upd@[k] == e);
                        }
                    }
                    assert forall|k: int| 0 <= k < upd@.len() implies exists|jj: int|
                        0 <= jj < i + 1 && #[trigger] upd@[k] == update_map(now)(orig[jj]) by {
                        if k < prev.len() {
                            assert(upd@[k] == prev[k]);
                            let j0 = choose|j0: int|
                                0 <= j0 < i && prev[k] == update_map(now)(orig[j0]);
                            assert(upd@[k] == update_map(now)(orig[j0]));
                        } else {
                            assert(upd@[k] == update_map(now)(orig[i as int]));
                        }
                    }
                    assert forall|p: int, q: int| 0 <= p < q < upd@.len() implies (
                    #[trigger] upd@[p]).id_spec() != (#[trigger] upd@[q]).id_spec() by {
                        if q == upd@.len() - 1 {
                            assert(upd@[p] == prev[p]);
                            let j0 = choose|j0: int|
                                0 <= j0 < i && prev[p] == update_map(now)(orig[j0]);
                            assert(upd@[p].id_spec() == orig[j0].id_spec());
                            assert(orig[j0].id_spec() != orig[i as int].id_spec());
                        } else {
                            assert(upd@[p] == prev[p] && upd@[q] == prev[q]);
                        }
                    }
                }
            }
            i += 1;
        }
        proof {
            assert(orig.subrange(0, n as int) =~= orig);
            assert(upd@ == old(self).updated_survivors(now));
        }
        // second pass: separate the marked survivors from the kept ones
        let m = upd.len();
        let mut kept: Vec<Enemy> = Vec::new();
        let mut exploded: Vec<Enemy> = Vec::new();
        let mut j: usize = 0;
        while j < m
            invariant
                j <= m == upd@.len(),
                kept@ =~= upd@.subrange(0, j as int).filter(unmarked_in(marks0)),
                exploded@ =~= upd@.subrange(0, j as int).filter(marked_in(marks0)),
                kept@.len() <= j,
                exploded@.len() <= j,
                forall|k: int| 0 <= k < kept@.len() ==> (#[trigger] kept@[k]).wf(),
                forall|k: int|
                    0 <= k < kept@.len() ==> exists|jj: int|
                        0 <= jj < j && #[trigger] kept@[k] == upd@[jj],
                eids_distinct(kept@),
                forall|k: int|
                    0 <= k < exploded@.len() ==> (#[trigger] exploded@[k]).wf()
                        && -POS_AFTER_UPDATE <= exploded@[k].x_spec() <= POS_AFTER_UPDATE
                        && -POS_AFTER_UPDATE <= exploded@[k].y_spec() <= POS_AFTER_UPDATE,
            decreases m - j,
        {
            proof {
                lemma_filter_step(upd@, j as int, unmarked_in(marks0));
                lemma_filter_step(upd@, j as int, marked_in(marks0));
            }
            let e = upd[j];
            if contains_eid(&self.remove_ids, e.id()) {
                let ghost prev = exploded@;
                exploded.push(e);
                proof {
                    assert forall|k: int|
                        0 <= k < exploded@.len() implies (#[trigger] exploded@[k]).wf()
                        && -POS_AFTER_UPDATE <= exploded@[k].x_spec() <= POS_AFTER_UPDATE
                        && -POS_AFTER_UPDATE <= exploded@[k].y_spec() <= POS_AFTER_UPDATE by {
                        if k < prev.len() {
                            assert(exploded@[k] == prev[k]);
                        } else {
                            assert(exploded@[k] == e);
                        }
                    }
                }
            } else {
                let ghost prev = kept@;
                kept.push(e);
                proof {
                    assert(e == upd@[j as int]);
                    assert forall|k: int| 0 <= k < kept@.len() implies (#[trigger] kept@[
                        k
                    ]).wf() by {
                        if k < prev.len() {
                            assert(kept@[k] == prev[k]);
                        } else {
                            assert(kept@[k] == e);
                        }
                    }
                    assert forall|k: int| 0 <= k < kept@.len() implies exists|jj: int|
                        0 <= jj < j + 1 && #[trigger] kept@[k] == upd@[jj] by {
                        if k < prev.len() {
                            assert(kept@[k] == prev[k]);
                            let j0 = choose|j0: int| 0 <= j0 < j && prev[k] == upd@[j0];
                            assert(kept@[k] == upd@[j0]);
                        } else {
                            assert(kept@[k] == upd@[j as int]);
                        }
                    }
                    assert forall|p: int, q: int| 0 <= p < q < kept@.len() implies (
                    #[trigger] kept@[p]).id_spec() != (#[trigger] kept@[q]).id_spec() by {
                        if q == kept@.len() - 1 {
                            assert(kept@[p] == prev[p]);
                            let j0 = choose|j0: int| 0 <= j0 < j && prev[p] == upd@[j0];
                            assert(kept@[p].id_spec() == upd@[j0].id_spec());
                            assert(upd@[j0].id_spec() != upd@[j as int].id_spec());
                        } else {
                            assert(kept@[p] == prev[p] && kept@[q] == prev[q]);
                        }
                    }
                }
            }
            j += 1;
        }
        proof {
            assert(upd@.subrange(0, m as int) =~= upd@);
            assert(kept@ == old(self).kept_after(now));
            assert(exploded@ == old(self).exploded_after(now));
        }
        // third pass: one explosion per destroyed enemy
        let ghost base = self.explosions.entities@;
        let ne = exploded.len();
        let mut t: usize = 0;
        while t < ne
            invariant
                t <= ne == exploded@.len(),
                self.entities@ == orig,
                self.remove_ids@ == marks0,
                self.spawned_count == old(self).spawned_count,
                self.destroyed_count == old(self).destroyed_count,
                self.last_spawned_at == old(self).last_spawned_at,
                self.explosions.wf(),
                self.explosions.entities@.len() == base.len() + t,
                self.explosions.entities@.subrange(0, base.len() as int) == base,
                forall|k: int|
                    base.len() <= k < self.explosions.entities@.len() ==> explosion_for(
                        #[trigger] self.explosions.entities@[k],
                        exploded@[k - base.len()],
                    ),
            decreases ne - t,
        {
            let ex = exploded[t].explode();
            let ghost prevx = self.explosions.entities@;
            self.explosions.add(ex);
            proof {
                assert(self.explosions.entities@.subrange(0, base.len() as int) =~= base);
                assert forall|k: int|
                    base.len() <= k < self.explosions.entities@.len() implies explosion_for(
                    #[trigger] self.explosions.entities@[k],
                    exploded@[k - base.len()],
                ) by {
                    if k < prevx.len() {
                        assert(self.explosions.entities@[k] == prevx[k]);
                    } else {
                        assert(self.explosions.entities@[k] == ex);
                    }
                }
            }
            t += 1;
        }
        // fourth pass: split children of the destroyed large rocks
        let ghost kept_base = kept@;
        let nb = exploded.len();
        let mut u: usize = 0;
        while u < nb
            invariant
                u <= nb == exploded@.len(),
                kept@.len() <= ENTITY_CAP,
                kept@.len() >= kept_base.len(),
                kept@.subrange(0, kept_base.len() as int) == kept_base,
                kept@.len() <= kept_base.len() + child_count(exploded@.subrange(0, u as int)),
                children_appended(kept@, kept_base.len() as int, exploded@),
                forall|k: int| 0 <= k < kept@.len() ==> (#[trigger] kept@[k]).wf(),
                eids_distinct(kept@),
            decreases nb - u,
        {
            proof {
                lemma_child_count_nonneg(exploded@.subrange(0, u as int));
                lemma_child_count_step(exploded@, u as int);
                lemma_child_count_mono(exploded@, u as int + 1);
            }
            let e = exploded[u];
            match e {
                Enemy::Rock(r) => {
                    let children = r.split();
                    let nc = children.len();
                    let ghost cc_here = child_count(exploded@.subrange(0, u as int));
                    let mut w: usize = 0;
                    while w < nc
                        invariant
                            w <= nc == children@.len(),
                            kept@.len() <= ENTITY_CAP,
                            kept@.len() >= kept_base.len(),
                            kept@.subrange(0, kept_base.len() as int) == kept_base,
                            kept@.len() <= kept_base.len() + cc_here + w,
                            children_appended(kept@, kept_base.len() as int, exploded@),
                            forall|k: int| 0 <= k < kept@.len() ==> (#[trigger] kept@[k]).wf(),
                            eids_distinct(kept@),
                        decreases nc - w,
                    {
                        let child = Enemy::Rock(children[w]);
                        if kept.len() < ENTITY_CAP && !vec_has_enemy_id(&kept, child.id()) {
                            let ghost prevk = kept@;
                            kept.push(child);
                            proof {
                                assert(kept@.subrange(0, kept_base.len() as int) =~= kept_base);
                                assert(r.child_of(children@[w as int]));
                                assert(kept@[kept@.len() - 1] == Enemy::Rock(
                                    children@[w as int],
                                ));
                                assert(is_big_rock(e) && child_enemy_of(
                                    kept@[kept@.len() - 1],
                                    e,
                                ));
                                assert(children_appended(
                                    kept@,
                                    kept_base.len() as int,
                                    exploded@,
                                )) by {
                                    assert forall|k: int|
                                        kept_base.len() <= k < kept@.len() implies exists|t2: int|
                                        0 <= t2 < exploded@.len() && is_big_rock(exploded@[t2])
                                            && child_enemy_of(
                                            #[trigger] kept@[k],
                                            exploded@[t2],
                                        ) by {
                                        if k < prevk.len() {
                                            assert(kept@[k] == prevk[k]);
                                        } else {
                                            assert(kept@[k] == Enemy::Rock(children@[w as int]));
                                            assert(exploded@[u as int] == e);
                                        }
                                    }
                                }
                                assert forall|k: int| 0 <= k < kept@.len() implies (
                                #[trigger] kept@[k]).wf() by {
                                    if k < prevk.len() {
                                        assert(kept@[k] == prevk[k]);
                                    } else {
                                        assert(kept@[k] == Enemy::Rock(children@[w as int]));
                                    }
                                }
                                assert forall|p: int, q: int|
                                    0 <= p < q < kept@.len() implies (
                                #[trigger] kept@[p]).id_spec() != (
                                #[trigger] kept@[q]).id_spec() by {
                                    if q == kept@.len() - 1 {
                                        assert(kept@[p] == prevk[p]);
                                        assert(!has_enemy_id(prevk, kept@[q].id_spec()));
                                    } else {
                                        assert(kept@[p] == prevk[p] && kept@[q] == prevk[q]);
                                    }
                                }
                            }
                        }
                        w += 1;
                    }
                    proof {
                        if r.scale > rock::DEFAULT_SCALE {
                            assert(nc == 4 && is_big_rock(e));
                        } else {
                            assert(nc == 0 && !is_big_rock(e));
                        }
                        assert(child_count(exploded@.subrange(0, u as int + 1)) == cc_here + nc);
                    }
                },
                Enemy::Bouncer(_) => {
                    proof {
                        assert(!is_big_rock(e));
                        assert(child_count(exploded@.subrange(0, u as int + 1)) == child_count(
                            exploded@.subrange(0, u as int),
                        ));
                    }
                },
            }
            u += 1;
        }
        proof {
            assert(exploded@.subrange(0, nb as int) =~= exploded@);
        }
        self.entities = kept;
        self.remove_ids = Vec::new();
    }

    /// Whether a spawner's gates are open: the population is below both its
    /// cap and the hard entity cap, and the spawner's minimum interval has
    /// passed since the last successful spawn.
    pub open spec fn spawn_gate(self, sp: Spawner, now: i64) -> bool {
        &&& self.entities@.len() < sp.limit
        &&& self.entities@.len() < ENTITY_CAP
        &&& now - self.last_spawned_at > sp.interval
    }

    /// Attempt at most one spawn: pick one spawner uniformly at random from
    /// the set; if its population and interval gates are open, spawn one
    /// enemy of its kind and record the spawn time; otherwise change
    /// nothing.
    pub fn spawn(&mut self, spawners: Vec<Spawner>, now: i64)
        requires
            old(self).wf(),
            spawners@.len() <= 1_000,
            forall|k: int| 0 <= k < spawners@.len() ==> (#[trigger] spawners@[k]).wf(),
        ensures
            final(self).wf(),
            final(self).remove_ids@ == old(self).remove_ids@,
            final(self).explosions == old(self).explosions,
            final(self).spawned_count == old(self).spawned_count,
            final(self).destroyed_count == old(self).destroyed_count,
            (final(self).entities@ == old(self).entities@
                && final(self).last_spawned_at == old(self).last_spawned_at) || (exists|t: int|
                0 <= t < spawners@.len() && old(self).spawn_gate(#[trigger] spawners@[t], now)
                    && final(self).last_spawned_at == now && ((final(self).entities@.len() == old(
                    self,
                ).entities@.len() + 1 && final(self).entities@.subrange(
                    0,
                    old(self).entities@.len() as int,
                ) == old(self).entities@ && final(self).entities@.last().wf() && kind_matches(
                    final(self).entities@.last(),
                    spawners@[t].kind,
                )) || (final(self).entities@ == old(self).entities@ && old(
                    self,
                ).entities@.len() >= 1))),
            (spawners@.len() >= 1 && (forall|t: int|
                0 <= t < spawners@.len() ==> old(self).spawn_gate(#[trigger] spawners@[t], now)))
                ==> final(self).last_spawned_at == now,
            (spawners@.len() >= 1 && old(self).entities@.len() == 0 && (forall|t: int|
                0 <= t < spawners@.len() ==> old(self).spawn_gate(#[trigger] spawners@[t], now)))
                ==> final(self).entities@.len() == 1,
    {
        if spawners.len() == 0 {
            return ;
        }
        let idx = utils::rand_range(0, spawners.len() as i64) as usize;
        let sp = spawners[idx];
        let count = self.entities.len();
        let interval_passed = (now as i128 - self.last_spawned_at as i128) > (sp.interval as i128);
        if count >= sp.limit as usize || count >= ENTITY_CAP || !interval_passed {
            return ;
        }
        let e = match sp.kind {
            SpawnerKind::Bouncers => Enemy::Bouncer(bouncer::spawn(sp.min_vel, sp.max_vel)),
            SpawnerKind::Rocks => Enemy::Rock(rock::spawn(sp.max_scale, sp.min_vel, sp.max_vel)),
        };
        let ghost pre = *self;
        self.insert(e);
        self.last_spawned_at = now;
        proof {
            assert(old(self).spawn_gate(spawners@[idx as int], now));
            if !has_enemy_id(pre.entities@, e.id_spec()) {
                assert(self.entities@ == pre.entities@.push(e));
                assert(self.entities@.subrange(0, pre.entities@.len() as int) =~= pre.entities@);
                assert(self.entities@.last() == e);
            } else {
                // a freshly drawn id collided with an existing enemy's: the
                // spawn is dropped, which can only happen on a non-empty
                // collection
                let i0 = choose|i0: int|
                    0 <= i0 < pre.entities@.len() && (#[trigger] pre.entities@[i0]).id_spec()
                        == e.id_spec();
                assert(pre.entities@.len() >= 1);
            }
        }
    }

    /// Mark the enemy of every enemy-missile collision pair for removal.
    pub fn apply_missile_collisions(&mut self, emcs: &Vec<(ID, (u64, u64))>)
        requires
            old(self).wf(),
        ensures
            final(self).wf(),
            final(self).entities@ == old(self).entities@,
            final(self).explosions == old(self).explosions,
            final(self).spawned_count == old(self).spawned_count,
            final(self).destroyed_count == old(self).destroyed_count,
            final(self).last_spawned_at == old(self).last_spawned_at,
            forall|id: ID|
                #[trigger] final(self).marked(id) <==> old(self).marked(id) || emcs@.map_values(
                    |p: (ID, (u64, u64))| p.0,
                ).contains(id),
    {
        let n = emcs.len();
        let mut ids: Vec<ID> = Vec::new();
        let mut k: usize = 0;
        while k < n
            invariant
                k <= n == emcs@.len(),
                ids@ =~= emcs@.subrange(0, k as int).map_values(|p: (ID, (u64, u64))| p.0),
            decreases n - k,
        {
            ids.push(emcs[k].0);
            proof {
                assert(emcs@.subrange(0, k as int + 1) =~= emcs@.subrange(0, k as int).push(
                    emcs@[k as int],
                ));
            }
            k += 1;
        }
        proof {
            assert(emcs@.subrange(0, n as int) =~= emcs@);
        }
        self.remove(ids);
    }
}

} // verus!
