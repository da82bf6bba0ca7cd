//! Circle geometry, the collision predicate, and the uniform-grid spatial
//! hash used as the broad-phase collision index.
//!
//! The hash is rebuilt from scratch every tick. Each inserted circle is
//! registered in every grid cell its bounding box touches, so a pair of
//! overlapping circles always shares at least one cell
//! ([`lemma_collided_share_cell`]); the pair-collection methods then return
//! every colliding pair exactly once, deduplicated across cells.

use vstd::prelude::*;
use vstd::arithmetic::div_mod::lemma_div_is_ordered;
use crate::utils::floor_div;

verus! {

/// Grid cell size in milli-units (50 world units).
pub const CELL_SIZE: i64 = 50_000;

/// Largest coordinate magnitude, in milli-units, a circle in the index may
/// have.
pub const MAX_COORD: i64 = 1_000_000_000;

/// Largest radius, in milli-units, a circle in the index may have.
pub const MAX_RADIUS: i64 = 100_000_000;

/// A collision circle: center coordinates and radius in milli-units.
#[derive(Clone, Copy, PartialEq, Eq, Structural, Debug)]
pub struct Circle {
    pub x: i64,
    pub y: i64,
    pub r: i64,
}

/// Bounds under which the collision arithmetic cannot overflow.
pub open spec fn circle_wf(c: Circle) -> bool {
    &&& -MAX_COORD <= c.x <= MAX_COORD
    &&& -MAX_COORD <= c.y <= MAX_COORD
    &&& 0 <= c.r <= MAX_RADIUS
}

/// Two circles collide iff the distance between their centers is at most the
/// sum of their radii (inclusive boundary), compared in squared form.
pub open spec fn collided_spec(c1: Circle, c2: Circle) -> bool {
    (c2.x - c1.x) * (c2.x - c1.x) + (c2.y - c1.y) * (c2.y - c1.y) <= (c1.r + c2.r) * (c1.r
        + c2.r)
}

/// The circle-circle overlap test.
pub fn collided(c1: &Circle, c2: &Circle) -> (hit: bool)
    requires
        circle_wf(*c1),
        circle_wf(*c2),
    ensures
        hit == collided_spec(*c1, *c2),
{
    let dx = c2.x - c1.x;
    let dy = c2.y - c1.y;
    let rr = c1.r + c2.r;
    proof {
        assert(dx * dx <= 4_000_000_000_000_000_000 && dy * dy <= 4_000_000_000_000_000_000
            && 0 <= dx * dx && 0 <= dy * dy && rr * rr <= 4_000_000_000_000_000_000)
            by (nonlinear_arith)
            requires
                -2_000_000_000 <= dx <= 2_000_000_000,
                -2_000_000_000 <= dy <= 2_000_000_000,
                -2_000_000_000 <= rr <= 2_000_000_000,
        ;
    }
    dx * dx + dy * dy <= rr * rr
}

/// Collision is symmetric: the order of the two circles does not matter.
pub proof fn lemma_collided_symmetric(c1: Circle, c2: Circle)
    ensures
        collided_spec(c1, c2) == collided_spec(c2, c1),
{
    assert((c2.x - c1.x) * (c2.x - c1.x) == (c1.x - c2.x) * (c1.x - c2.x)) by (nonlinear_arith);
    assert((c2.y - c1.y) * (c2.y - c1.y) == (c1.y - c2.y) * (c1.y - c2.y)) by (nonlinear_arith);
}

/// The boundary is inclusive: centers exactly the radius sum apart collide,
/// and any squared distance beyond the squared radius sum does not.
pub proof fn lemma_collided_boundary(c1: Circle, c2: Circle)
    ensures
        (c2.x - c1.x) * (c2.x - c1.x) + (c2.y - c1.y) * (c2.y - c1.y) == (c1.r + c2.r) * (c1.r
            + c2.r) ==> collided_spec(c1, c2),
        (c2.x - c1.x) * (c2.x - c1.x) + (c2.y - c1.y) * (c2.y - c1.y) > (c1.r + c2.r) * (c1.r
            + c2.r) ==> !collided_spec(c1, c2),
{
}

/// First grid cell index covered by a span reaching down to `c - r`.
pub open spec fn cell_lo(c: int, r: int) -> int {
    (c - r) / (CELL_SIZE as int)
}

/// Last grid cell index covered by a span reaching up to `c + r`.
pub open spec fn cell_hi(c: int, r: int) -> int {
    (c + r) / (CELL_SIZE as int)
}

/// Whether grid cell `(a, b)` is one of the cells a circle's bounding box
/// touches.
pub open spec fn in_cell_range(c: Circle, a: int, b: int) -> bool {
    &&& cell_lo(c.x as int, c.r as int) <= a <= cell_hi(c.x as int, c.r as int)
    &&& cell_lo(c.y as int, c.r as int) <= b <= cell_hi(c.y as int, c.r as int)
}

/// Two colliding circles always share a grid cell: the broad phase
/// over-approximates and never misses a colliding pair.
pub proof fn lemma_collided_share_cell(c1: Circle, c2: Circle)
    requires
        circle_wf(c1),
        circle_wf(c2),
        collided_spec(c1, c2),
    ensures
        exists|a: int, b: int| in_cell_range(c1, a, b) && in_cell_range(c2, a, b),
{
    let s = c1.r + c2.r;
    assert(-s <= c2.x - c1.x <= s && -s <= c2.y - c1.y <= s) by (nonlinear_arith)
        requires
            collided_spec(c1, c2),
            0 <= s == c1.r + c2.r,
    ;
    let px = if c1.x - c1.r >= c2.x - c2.r {
        c1.x - c1.r
    } else {
        c2.x - c2.r
    };
    let py = if c1.y - c1.r >= c2.y - c2.r {
        c1.y - c1.r
    } else {
        c2.y - c2.r
    };
    // The intervals overlap, so the larger lower end lies in both.
    assert(c1.x - c1.r <= px <= c1.x + c1.r && c2.x - c2.r <= px <= c2.x + c2.r);
    assert(c1.y - c1.r <= py <= c1.y + c1.r && c2.y - c2.r <= py <= c2.y + c2.r);
    let a = px / (CELL_SIZE as int);
    let b = py / (CELL_SIZE as int);
    lemma_div_is_ordered(c1.x - c1.r, px, CELL_SIZE as int);
    lemma_div_is_ordered(px, c1.x + c1.r, CELL_SIZE as int);
    lemma_div_is_ordered(c2.x - c2.r, px, CELL_SIZE as int);
    lemma_div_is_ordered(px, c2.x + c2.r, CELL_SIZE as int);
    lemma_div_is_ordered(c1.y - c1.r, py, CELL_SIZE as int);
    lemma_div_is_ordered(py, c1.y + c1.r, CELL_SIZE as int);
    lemma_div_is_ordered(c2.y - c2.r, py, CELL_SIZE as int);
    lemma_div_is_ordered(py, c2.y + c2.r, CELL_SIZE as int);
    assert(in_cell_range(c1, a, b) && in_cell_range(c2, a, b));
}

/// One grid cell coordinate.
#[derive(Clone, Copy, PartialEq, Eq, Structural, Debug)]
pub struct GridCell {
    pub x: i64,
    pub y: i64,
}

/// Soundness of one body population's buckets: buckets run parallel to the
/// cells, circles are bounded, and every bucket entry is a valid index whose
/// circle touches that cell.
pub open spec fn buckets_sound(
    circles: Seq<Circle>,
    cells: Seq<GridCell>,
    buckets: Seq<Seq<usize>>,
) -> bool {
    &&& buckets.len() == cells.len()
    &&& (forall|i: int| 0 <= i < circles.len() ==> circle_wf(#[trigger] circles[i]))
    &&& (forall|j: int, k: int|
        0 <= j < buckets.len() && 0 <= k < buckets[j].len() ==> {
            let idx = #[trigger] buckets[j][k];
            &&& idx < circles.len()
            &&& in_cell_range(circles[idx as int], cells[j].x as int, cells[j].y as int)
        })
}

/// Circle `i` is registered in every cell its bounding box touches.
pub open spec fn registered(
    circles: Seq<Circle>,
    cells: Seq<GridCell>,
    buckets: Seq<Seq<usize>>,
    i: usize,
) -> bool {
    forall|a: int, b: int|
        #[trigger] in_cell_range(circles[i as int], a, b) ==> posted_at(cells, buckets, i, a, b)
}

/// Invariant tying one body population (its circles) to the grid: soundness
/// plus completeness (every circle is registered wherever its box reaches).
pub open spec fn buckets_inv(
    circles: Seq<Circle>,
    cells: Seq<GridCell>,
    buckets: Seq<Seq<usize>>,
) -> bool {
    &&& buckets_sound(circles, cells, buckets)
    &&& forall|i: usize| i < circles.len() ==> #[trigger] registered(circles, cells, buckets, i)
}

/// No grid cell appears twice.
pub open spec fn cells_distinct(cells: Seq<GridCell>) -> bool {
    forall|p: int, q: int|
        0 <= p < q < cells.len() ==> !(#[trigger] cells[p] == #[trigger] cells[q])
}

/// Whether cell `(a, b)` is allocated.
pub open spec fn cell_present(cells: Seq<GridCell>, a: int, b: int) -> bool {
    exists|j: int| 0 <= j < cells.len() && (#[trigger] cells[j]).x == a && cells[j].y == b
}

/// Circle index `i` is registered in the bucket of cell `(a, b)`.
pub open spec fn posted_at(
    cells: Seq<GridCell>,
    buckets: Seq<Seq<usize>>,
    i: usize,
    a: int,
    b: int,
) -> bool {
    exists|j: int|
        0 <= j < cells.len() && cells[j].x == a && cells[j].y == b && #[trigger] buckets[
            j
        ].contains(i)
}

/// Partial registration of circle `c` (as index `i`) over the cell rectangle
/// walked in column-major order: every cell strictly before column `a`, or in
/// column `a` before row `b`, already holds the posting.
pub open spec fn posted_upto(
    c: Circle,
    cells: Seq<GridCell>,
    buckets: Seq<Seq<usize>>,
    i: usize,
    a: int,
    b: int,
) -> bool {
    forall|aa: int, bb: int|
        #[trigger] in_cell_range(c, aa, bb) && (aa < a || (aa == a && bb < b)) ==> posted_at(
            cells,
            buckets,
            i,
            aa,
            bb,
        )
}

/// The broad-phase spatial hash: an ephemeral index over the circles of the
/// missiles, enemies and live-or-dead ships of one tick.
pub struct SpatialHash {
    /// Coordinates of each allocated grid cell.
    pub cells: Vec<GridCell>,
    /// Missile indices registered per cell, parallel to `cells`.
    pub missile_buckets: Vec<Vec<usize>>,
    /// Enemy indices registered per cell, parallel to `cells`.
    pub enemy_buckets: Vec<Vec<usize>>,
    /// Ship indices registered per cell, parallel to `cells`.
    pub ship_buckets: Vec<Vec<usize>>,
    /// Circle of each inserted missile, in insertion order.
    pub missiles: Vec<Circle>,
    /// Circle of each inserted enemy, in insertion order.
    pub enemies: Vec<Circle>,
    /// Circle of each inserted ship, in insertion order.
    pub ships: Vec<Circle>,
    /// Whether the ship at the same index takes part in ship-enemy
    /// collisions (dead ships do not).
    pub ships_alive: Vec<bool>,
}

/// An empty spatial hash.
pub fn new_spatial_hash() -> (sh: SpatialHash)
    ensures
        sh.inv(),
        sh.missiles@ =~= Seq::<Circle>::empty(),
        sh.enemies@ =~= Seq::<Circle>::empty(),
        sh.ships@ =~= Seq::<Circle>::empty(),
{
    SpatialHash {
        cells: Vec::new(),
        missile_buckets: Vec::new(),
        enemy_buckets: Vec::new(),
        ship_buckets: Vec::new(),
        missiles: Vec::new(),
        enemies: Vec::new(),
        ships: Vec::new(),
        ships_alive: Vec::new(),
    }
}

impl SpatialHash {
    /// The missile buckets as a sequence of sequences.
    pub open spec fn missile_bmap(self) -> Seq<Seq<usize>> {
        self.missile_buckets@.map_values(|b: Vec<usize>| b@)
    }

    /// The enemy buckets as a sequence of sequences.
    pub open spec fn enemy_bmap(self) -> Seq<Seq<usize>> {
        self.enemy_buckets@.map_values(|b: Vec<usize>| b@)
    }

    /// The ship buckets as a sequence of sequences.
    pub open spec fn ship_bmap(self) -> Seq<Seq<usize>> {
        self.ship_buckets@.map_values(|b: Vec<usize>| b@)
    }

    /// Well-formedness of the whole index.
    pub open spec fn inv(self) -> bool {
        &&& cells_distinct(self.cells@)
        &&& buckets_inv(self.missiles@, self.cells@, self.missile_bmap())
        &&& buckets_inv(self.enemies@, self.cells@, self.enemy_bmap())
        &&& buckets_inv(self.ships@, self.cells@, self.ship_bmap())
        &&& self.ships_alive@.len() == self.ships@.len()
    }

    /// Find the bucket index of cell `(a, b)`, if allocated.
    fn find_cell(&self, a: i64, b: i64) -> (found: Option<usize>)
        ensures
            match found {
                Some(j) => j < self.cells@.len() && self.cells@[j as int].x == a
                    && self.cells@[j as int].y == b,
                None => forall|j: int|
                    0 <= j < self.cells@.len() ==> !(#[trigger] self.cells@[j].x == a
                        && self.cells@[j].y == b),
            },
    {
        let n = self.cells.len();
        let mut j: usize = 0;
        while j < n
            invariant
                n == self.cells@.len(),
                j <= n,
                forall|k: int|
                    0 <= k < j ==> !(#[trigger] self.cells@[k].x == a && self.cells@[k].y == b),
            decreases n - j,
        {
            if self.cells[j].x == a && self.cells[j].y == b {
                return Some(j);
            }
            j += 1;
        }
        None
    }

    /// Allocate (with empty buckets) every cell in the circle's range that
    /// is not yet present.
    #[verifier::loop_isolation(false)]
    fn ensure_cells(&mut self, c: Circle)
        requires
            old(self).inv(),
            circle_wf(c),
        ensures
            final(self).inv(),
            final(self).missiles@ == old(self).missiles@,
            final(self).enemies@ == old(self).enemies@,
            final(self).ships@ == old(self).ships@,
            final(self).ships_alive@ == old(self).ships_alive@,
            old(self).cells@.is_prefix_of(final(self).cells@),
            forall|j: int|
                0 <= j < old(self).cells@.len() ==> {
                    &&& #[trigger] final(self).missile_buckets@[j] == old(self).missile_buckets@[j]
                    &&& final(self).enemy_buckets@[j] == old(self).enemy_buckets@[j]
                    &&& final(self).ship_buckets@[j] == old(self).ship_buckets@[j]
                },
            forall|a: int, b: int|
                #[trigger] in_cell_range(c, a, b) ==> cell_present(final(self).cells@, a, b),
    {
        let lo_x = floor_div(c.x - c.r, CELL_SIZE);
        let hi_x = floor_div(c.x + c.r, CELL_SIZE);
        let lo_y = floor_div(c.y - c.r, CELL_SIZE);
        let hi_y = floor_div(c.y + c.r, CELL_SIZE);
        proof {
            lemma_div_is_ordered(c.x - c.r, c.x + c.r, CELL_SIZE as int);
            lemma_div_is_ordered(c.y - c.r, c.y + c.r, CELL_SIZE as int);
            lemma_div_is_ordered(-2_000_000_000, c.x - c.r, CELL_SIZE as int);
            lemma_div_is_ordered(c.x + c.r, 2_000_000_000, CELL_SIZE as int);
            lemma_div_is_ordered(-2_000_000_000, c.y - c.r, CELL_SIZE as int);
            lemma_div_is_ordered(c.y + c.r, 2_000_000_000, CELL_SIZE as int);
            assert((-2_000_000_000int) / (CELL_SIZE as int) == -40_000);
            assert(2_000_000_000int / (CELL_SIZE as int) == 40_000);
        }
        let mut a = lo_x;
        while a <= hi_x
            invariant
                lo_x <= a <= hi_x + 1,
                self.inv(),
                self.missiles@ == old(self).missiles@,
                self.enemies@ == old(self).enemies@,
                self.ships@ == old(self).ships@,
                self.ships_alive@ == old(self).ships_alive@,
                old(self).cells@.is_prefix_of(self.cells@),
                forall|j: int|
                    0 <= j < old(self).cells@.len() ==> {
                        &&& #[trigger] self.missile_buckets@[j] == old(self).missile_buckets@[j]
                        &&& self.enemy_buckets@[j] == old(self).enemy_buckets@[j]
                        &&& self.ship_buckets@[j] == old(self).ship_buckets@[j]
                    },
                forall|aa: int, bb: int|
                    lo_x <= aa < a && lo_y <= bb <= hi_y ==> #[trigger] cell_present(
                        self.cells@,
                        aa,
                        bb,
                    ),
            decreases hi_x + 1 - a,
        {
            let mut b = lo_y;
            while b <= hi_y
                invariant
                    lo_y <= b <= hi_y + 1,
                    self.inv(),
                    self.missiles@ == old(self).missiles@,
                    self.enemies@ == old(self).enemies@,
                    self.ships@ == old(self).ships@,
                    self.ships_alive@ == old(self).ships_alive@,
                    old(self).cells@.is_prefix_of(self.cells@),
                    forall|j: int|
                        0 <= j < old(self).cells@.len() ==> {
                            &&& #[trigger] self.missile_buckets@[j] == old(self).missile_buckets@[
                                j
                            ]
                            &&& self.enemy_buckets@[j] == old(self).enemy_buckets@[j]
                            &&& self.ship_buckets@[j] == old(self).ship_buckets@[j]
                        },
                    forall|aa: int, bb: int|
                        lo_x <= aa < a && lo_y <= bb <= hi_y ==> #[trigger] cell_present(
                            self.cells@,
                            aa,
                            bb,
                        ),
                    forall|bb: int|
                        lo_y <= bb < b ==> #[trigger] cell_present(self.cells@, a as int, bb),
                decreases hi_y + 1 - b,
            {
                match self.find_cell(a, b) {
                    Some(_) => {
                        proof {
                            assert(cell_present(self.cells@, a as int, b as int));
                        }
                    },
                    None => {
                        let ghost pre = *self;
                        self.cells.push(GridCell { x: a, y: b });
                        self.missile_buckets.push(Vec::new());
                        self.enemy_buckets.push(Vec::new());
                        self.ship_buckets.push(Vec::new());
                        proof {
                            let n = pre.cells@.len() as int;
                            assert(self.cells@[n] == (GridCell { x: a, y: b }));
                            assert forall|p: int, q: int| 0 <= p < q < self.cells@.len() implies !(
                                #[trigger] self.cells@[p] == #[trigger] self.cells@[q]) by {
                                if q == n {
                                    assert(!(pre.cells@[p].x == a && pre.cells@[p].y == b));
                                }
                            }
                            lemma_buckets_grow_cell(
                                pre.missiles@,
                                pre.cells@,
                                pre.missile_buckets@.map_values(|v: Vec<usize>| v@),
                                GridCell { x: a, y: b },
                                self.cells@,
                                self.missile_buckets@.map_values(|v: Vec<usize>| v@),
                            );
                            lemma_buckets_grow_cell(
                                pre.enemies@,
                                pre.cells@,
                                pre.enemy_buckets@.map_values(|v: Vec<usize>| v@),
                                GridCell { x: a, y: b },
                                self.cells@,
                                self.enemy_buckets@.map_values(|v: Vec<usize>| v@),
                            );
                            lemma_buckets_grow_cell(
                                pre.ships@,
                                pre.cells@,
                                pre.ship_buckets@.map_values(|v: Vec<usize>| v@),
                                GridCell { x: a, y: b },
                                self.cells@,
                                self.ship_buckets@.map_values(|v: Vec<usize>| v@),
                            );
                            assert(cell_present(self.cells@, a as int, b as int));
                            assert forall|aa: int, bb: int|
                                lo_x <= aa < a && lo_y <= bb <= hi_y implies #[trigger] cell_present(
                                self.cells@,
                                aa,
                                bb,
                            ) by {
                                assert(cell_present(pre.cells@, aa, bb));
                                let j = choose|j: int|
                                    0 <= j < pre.cells@.len() && (#[trigger] pre.cells@[j]).x == aa
                                        && pre.cells@[j].y == bb;
                                assert(self.cells@[j] == pre.cells@[j]);
                            }
                            assert forall|bb: int| lo_y <= bb < b implies #[trigger] cell_present(
                                self.cells@,
                                a as int,
                                bb,
                            ) by {
                                assert(cell_present(pre.cells@, a as int, bb));
                                let j = choose|j: int|
                                    0 <= j < pre.cells@.len() && (#[trigger] pre.cells@[j]).x
                                        == a as int && pre.cells@[j].y == bb;
                                assert(self.cells@[j] == pre.cells@[j]);
                            }
                            assert forall|j: int| 0 <= j < old(self).cells@.len() implies {
                                &&& #[trigger] self.missile_buckets@[j] == old(
                                    self,
                                ).missile_buckets@[j]
                                &&& self.enemy_buckets@[j] == old(self).enemy_buckets@[j]
                                &&& self.ship_buckets@[j] == old(self).ship_buckets@[j]
                            } by {
                                assert(self.missile_buckets@[j] == pre.missile_buckets@[j]);
                                assert(self.enemy_buckets@[j] == pre.enemy_buckets@[j]);
                                assert(self.ship_buckets@[j] == pre.ship_buckets@[j]);
                            }
                            assert(old(self).cells@.is_prefix_of(self.cells@)) by {
                                assert(old(self).cells@ =~= self.cells@.subrange(
                                    0,
                                    old(self).cells@.len() as int,
                                ));
                            }
                        }
                    },
                }
                b += 1;
            }
            a += 1;
        }
    }

    /// Register a missile's circle under a fresh missile index.
    #[verifier::loop_isolation(false)]
    pub fn insert_missile(&mut self, c: Circle)
        requires
            old(self).inv(),
            circle_wf(c),
        ensures
            final(self).inv(),
            final(self).missiles@ == old(self).missiles@.push(c),
            final(self).enemies@ == old(self).enemies@,
            final(self).ships@ == old(self).ships@,
            final(self).ships_alive@ == old(self).ships_alive@,
    {
        self.ensure_cells(c);
        let i = self.missiles.len();
        self.missiles.push(c);
        let ghost mid = *self;
        proof {
            assert forall|ii: usize| ii < i implies #[trigger] registered(
                mid.missiles@,
                mid.cells@,
                mid.missile_bmap(),
                ii,
            ) by {
                if ii < old(self).missiles@.len() {
                    assert(registered(old(self).missiles@, mid.cells@, mid.missile_bmap(), ii));
                    assert(mid.missiles@[ii as int] == old(self).missiles@[ii as int]);
                }
            }
        }
        let lo_x = floor_div(c.x - c.r, CELL_SIZE);
        let hi_x = floor_div(c.x + c.r, CELL_SIZE);
        let lo_y = floor_div(c.y - c.r, CELL_SIZE);
        let hi_y = floor_div(c.y + c.r, CELL_SIZE);
        proof {
            lemma_div_is_ordered(c.x - c.r, c.x + c.r, CELL_SIZE as int);
            lemma_div_is_ordered(c.y - c.r, c.y + c.r, CELL_SIZE as int);
            lemma_div_is_ordered(-2_000_000_000, c.x - c.r, CELL_SIZE as int);
            lemma_div_is_ordered(c.x + c.r, 2_000_000_000, CELL_SIZE as int);
            lemma_div_is_ordered(-2_000_000_000, c.y - c.r, CELL_SIZE as int);
            lemma_div_is_ordered(c.y + c.r, 2_000_000_000, CELL_SIZE as int);
            assert((-2_000_000_000int) / (CELL_SIZE as int) == -40_000);
            assert(2_000_000_000int / (CELL_SIZE as int) == 40_000);
        }
        let mut a = lo_x;
        while a <= hi_x
            invariant
                lo_x <= a <= hi_x + 1,
                self.cells@ == mid.cells@,
                self.missiles@ == mid.missiles@,
                self.enemies@ == mid.enemies@,
                self.ships@ == mid.ships@,
                self.ships_alive@ == mid.ships_alive@,
                self.enemy_buckets@ == mid.enemy_buckets@,
                self.ship_buckets@ == mid.ship_buckets@,
                buckets_sound(self.missiles@, self.cells@, self.missile_bmap()),
                forall|ii: usize|
                    ii < i ==> #[trigger] registered(
                        self.missiles@,
                        self.cells@,
                        self.missile_bmap(),
                        ii,
                    ),
                posted_upto(c, self.cells@, self.missile_bmap(), i, a as int, lo_y as int),
            decreases hi_x + 1 - a,
        {
            let mut b = lo_y;
            while b <= hi_y
                invariant
                    lo_y <= b <= hi_y + 1,
                    self.cells@ == mid.cells@,
                    self.missiles@ == mid.missiles@,
                    self.enemies@ == mid.enemies@,
                    self.ships@ == mid.ships@,
                    self.ships_alive@ == mid.ships_alive@,
                    self.enemy_buckets@ == mid.enemy_buckets@,
                    self.ship_buckets@ == mid.ship_buckets@,
                    buckets_sound(self.missiles@, self.cells@, self.missile_bmap()),
                    forall|ii: usize|
                        ii < i ==> #[trigger] registered(
                            self.missiles@,
                            self.cells@,
                            self.missile_bmap(),
                            ii,
                        ),
                    posted_upto(c, self.cells@, self.missile_bmap(), i, a as int, b as int),
                decreases hi_y + 1 - b,
            {
                proof {
                    assert(in_cell_range(c, a as int, b as int));
                }
                match self.find_cell(a, b) {
                    Some(j) => {
                        let ghost pre = *self;
                        let bucket = &mut self.missile_buckets[j];
                        bucket.push(i);
                        proof {
                            assert(self.missile_bmap() =~= pre.missile_bmap().update(
                                j as int,
                                pre.missile_bmap()[j as int].push(i),
                            ));
                            lemma_post_to_bucket(
                                self.missiles@,
                                self.cells@,
                                pre.missile_bmap(),
                                self.missile_bmap(),
                                j as int,
                                i,
                                a as int,
                                b as int,
                            );
                            assert forall|ii: usize| ii < i implies
                                #[trigger] registered(
                                self.missiles@,
                                self.cells@,
                                self.missile_bmap(),
                                ii,
                            ) by {
                                assert(registered(
                                    self.missiles@,
                                    self.cells@,
                                    pre.missile_bmap(),
                                    ii,
                                ));
                            }
                            assert forall|aa: int, bb: int|
                                #[trigger] in_cell_range(c, aa, bb) && (aa < a || (aa == a && bb < b
                                    + 1)) implies posted_at(
                                self.cells@,
                                self.missile_bmap(),
                                i,
                                aa,
                                bb,
                            ) by {
                                if aa == a && bb == b {
                                } else {
                                    assert(posted_at(self.cells@, pre.missile_bmap(), i, aa, bb));
                                }
                            }
                        }
                    },
                    None => {
                        proof {
                            assert(cell_present(self.cells@, a as int, b as int));
                            assert(false);
                        }
                    },
                }
                b += 1;
            }
            a += 1;
        }
        proof {
            assert forall|ii: usize| ii < self.missiles@.len() implies #[trigger] registered(
                self.missiles@,
                self.cells@,
                self.missile_bmap(),
                ii,
            ) by {
                if ii == i {
                    assert forall|aa: int, bb: int|
                        #[trigger] in_cell_range(c, aa, bb) implies posted_at(
                        self.cells@,
                        self.missile_bmap(),
                        i,
                        aa,
                        bb,
                    ) by {
                        assert(aa <= hi_x && (aa < a || (aa == a && bb < lo_y)) || (aa
                            <= hi_x && lo_y <= bb));
                    }
                }
            }
        }
    }

    /// Register a enemy's circle under a fresh enemy index.
    #[verifier::loop_isolation(false)]
    pub fn insert_enemy(&mut self, c: Circle)
        requires
            old(self).inv(),
            circle_wf(c),
        ensures
            final(self).inv(),
            final(self).enemies@ == old(self).enemies@.push(c),
            final(self).missiles@ == old(self).missiles@,
            final(self).ships@ == old(self).ships@,
            final(self).ships_alive@ == old(self).ships_alive@,
    {
        self.ensure_cells(c);
        let i = self.enemies.len();
        self.enemies.push(c);
        let ghost mid = *self;
        proof {
            assert forall|ii: usize| ii < i implies #[trigger] registered(
                mid.enemies@,
                mid.cells@,
                mid.enemy_bmap(),
                ii,
            ) by {
                if ii < old(self).enemies@.len() {
                    assert(registered(old(self).enemies@, mid.cells@, mid.enemy_bmap(), ii));
                    assert(mid.enemies@[ii as int] == old(self).enemies@[ii as int]);
                }
            }
        }
        let lo_x = floor_div(c.x - c.r, CELL_SIZE);
        let hi_x = floor_div(c.x + c.r, CELL_SIZE);
        let lo_y = floor_div(c.y - c.r, CELL_SIZE);
        let hi_y = floor_div(c.y + c.r, CELL_SIZE);
        proof {
            lemma_div_is_ordered(c.x - c.r, c.x + c.r, CELL_SIZE as int);
            lemma_div_is_ordered(c.y - c.r, c.y + c.r, CELL_SIZE as int);
            lemma_div_is_ordered(-2_000_000_000, c.x - c.r, CELL_SIZE as int);
            lemma_div_is_ordered(c.x + c.r, 2_000_000_000, CELL_SIZE as int);
            lemma_div_is_ordered(-2_000_000_000, c.y - c.r, CELL_SIZE as int);
            lemma_div_is_ordered(c.y + c.r, 2_000_000_000, CELL_SIZE as int);
            assert((-2_000_000_000int) / (CELL_SIZE as int) == -40_000);
            assert(2_000_000_000int / (CELL_SIZE as int) == 40_000);
        }
        let mut a = lo_x;
        while a <= hi_x
            invariant
                lo_x <= a <= hi_x + 1,
                self.cells@ == mid.cells@,
                self.enemies@ == mid.enemies@,
                self.missiles@ == mid.missiles@,
                self.ships@ == mid.ships@,
                self.ships_alive@ == mid.ships_alive@,
                self.missile_buckets@ == mid.missile_buckets@,
                self.ship_buckets@ == mid.ship_buckets@,
                buckets_sound(self.enemies@, self.cells@, self.enemy_bmap()),
                forall|ii: usize|
                    ii < i ==> #[trigger] registered(
                        self.enemies@,
                        self.cells@,
                        self.enemy_bmap(),
                        ii,
                    ),
                posted_upto(c, self.cells@, self.enemy_bmap(), i, a as int, lo_y as int),
            decreases hi_x + 1 - a,
        {
            let mut b = lo_y;
            while b <= hi_y
                invariant
                    lo_y <= b <= hi_y + 1,
                    self.cells@ == mid.cells@,
                    self.enemies@ == mid.enemies@,
                    self.missiles@ == mid.missiles@,
                    self.ships@ == mid.ships@,
                    self.ships_alive@ == mid.ships_alive@,
                    self.missile_buckets@ == mid.missile_buckets@,
                    self.ship_buckets@ == mid.ship_buckets@,
                    buckets_sound(self.enemies@, self.cells@, self.enemy_bmap()),
                    forall|ii: usize|
                        ii < i ==> #[trigger] registered(
                            self.enemies@,
                            self.cells@,
                            self.enemy_bmap(),
                            ii,
                        ),
                    posted_upto(c, self.cells@, self.enemy_bmap(), i, a as int, b as int),
                decreases hi_y + 1 - b,
            {
                proof {
                    assert(in_cell_range(c, a as int, b as int));
                }
                match self.find_cell(a, b) {
                    Some(j) => {
                        let ghost pre = *self;
                        let bucket = &mut self.enemy_buckets[j];
                        bucket.push(i);
                        proof {
                            assert(self.enemy_bmap() =~= pre.enemy_bmap().update(
                                j as int,
                                pre.enemy_bmap()[j as int].push(i),
                            ));
                            lemma_post_to_bucket(
                                self.enemies@,
                                self.cells@,
                                pre.enemy_bmap(),
                                self.enemy_bmap(),
                                j as int,
                                i,
                                a as int,
                                b as int,
                            );
                            assert forall|ii: usize| ii < i implies
                                #[trigger] registered(
                                self.enemies@,
                                self.cells@,
                                self.enemy_bmap(),
                                ii,
                            ) by {
                                assert(registered(
                                    self.enemies@,
                                    self.cells@,
                                    pre.enemy_bmap(),
                                    ii,
                                ));
                            }
                            assert forall|aa: int, bb: int|
                                #[trigger] in_cell_range(c, aa, bb) && (aa < a || (aa == a && bb < b
                                    + 1)) implies posted_at(
                                self.cells@,
                                self.enemy_bmap(),
                                i,
                                aa,
                                bb,
                            ) by {
                                if aa == a && bb == b {
                                } else {
                                    assert(posted_at(self.cells@, pre.enemy_bmap(), i, aa, bb));
                                }
                            }
                        }
                    },
                    None => {
                        proof {
                            assert(cell_present(self.cells@, a as int, b as int));
                            assert(false);
                        }
                    },
                }
                b += 1;
            }
            a += 1;
        }
        proof {
            assert forall|ii: usize| ii < self.enemies@.len() implies #[trigger] registered(
                self.enemies@,
                self.cells@,
                self.enemy_bmap(),
                ii,
            ) by {
                if ii == i {
                    assert forall|aa: int, bb: int|
                        #[trigger] in_cell_range(c, aa, bb) implies posted_at(
                        self.cells@,
                        self.enemy_bmap(),
                        i,
                        aa,
                        bb,
                    ) by {
                        assert(aa <= hi_x && (aa < a || (aa == a && bb < lo_y)) || (aa
                            <= hi_x && lo_y <= bb));
                    }
                }
            }
        }
    }

    /// Register a ship's circle under a fresh ship index.
    #[verifier::loop_isolation(false)]
    pub fn insert_ship(&mut self, c: Circle, alive: bool)
        requires
            old(self).inv(),
            circle_wf(c),
        ensures
            final(self).inv(),
            final(self).ships@ == old(self).ships@.push(c),
            final(self).ships_alive@ == old(self).ships_alive@.push(alive),
            final(self).missiles@ == old(self).missiles@,
            final(self).enemies@ == old(self).enemies@,
    {
        self.ensure_cells(c);
        let i = self.ships.len();
        self.ships.push(c);
        self.ships_alive.push(alive);
        let ghost mid = *self;
        proof {
            assert forall|ii: usize| ii < i implies #[trigger] registered(
                mid.ships@,
                mid.cells@,
                mid.ship_bmap(),
                ii,
            ) by {
                if ii < old(self).ships@.len() {
                    assert(registered(old(self).ships@, mid.cells@, mid.ship_bmap(), ii));
                    assert(mid.ships@[ii as int] == old(self).ships@[ii as int]);
                }
            }
        }
        let lo_x = floor_div(c.x - c.r, CELL_SIZE);
        let hi_x = floor_div(c.x + c.r, CELL_SIZE);
        let lo_y = floor_div(c.y - c.r, CELL_SIZE);
        let hi_y = floor_div(c.y + c.r, CELL_SIZE);
        proof {
            lemma_div_is_ordered(c.x - c.r, c.x + c.r, CELL_SIZE as int);
            lemma_div_is_ordered(c.y - c.r, c.y + c.r, CELL_SIZE as int);
            lemma_div_is_ordered(-2_000_000_000, c.x - c.r, CELL_SIZE as int);
            lemma_div_is_ordered(c.x + c.r, 2_000_000_000, CELL_SIZE as int);
            lemma_div_is_ordered(-2_000_000_000, c.y - c.r, CELL_SIZE as int);
            lemma_div_is_ordered(c.y + c.r, 2_000_000_000, CELL_SIZE as int);
            assert((-2_000_000_000int) / (CELL_SIZE as int) == -40_000);
            assert(2_000_000_000int / (CELL_SIZE as int) == 40_000);
        }
        let mut a = lo_x;
        while a <= hi_x
            invariant
                lo_x <= a <= hi_x + 1,
                self.cells@ == mid.cells@,
                self.ships@ == mid.ships@,
                self.enemies@ == mid.enemies@,
                self.missiles@ == mid.missiles@,
                self.ships_alive@ == mid.ships_alive@,
                self.enemy_buckets@ == mid.enemy_buckets@,
                self.missile_buckets@ == mid.missile_buckets@,
                buckets_sound(self.ships@, self.cells@, self.ship_bmap()),
                forall|ii: usize|
                    ii < i ==> #[trigger] registered(
                        self.ships@,
                        self.cells@,
                        self.ship_bmap(),
                        ii,
                    ),
                posted_upto(c, self.cells@, self.ship_bmap(), i, a as int, lo_y as int),
            decreases hi_x + 1 - a,
        {
            let mut b = lo_y;
            while b <= hi_y
                invariant
                    lo_y <= b <= hi_y + 1,
                    self.cells@ == mid.cells@,
                    self.ships@ == mid.ships@,
                    self.enemies@ == mid.enemies@,
                    self.missiles@ == mid.missiles@,
                    self.ships_alive@ == mid.ships_alive@,
                    self.enemy_buckets@ == mid.enemy_buckets@,
                    self.missile_buckets@ == mid.missile_buckets@,
                    buckets_sound(self.ships@, self.cells@, self.ship_bmap()),
                    forall|ii: usize|
                        ii < i ==> #[trigger] registered(
                            self.ships@,
                            self.cells@,
                            self.ship_bmap(),
                            ii,
                        ),
                    posted_upto(c, self.cells@, self.ship_bmap(), i, a as int, b as int),
                decreases hi_y + 1 - b,
            {
                proof {
                    assert(in_cell_range(c, a as int, b as int));
                }
                match self.find_cell(a, b) {
                    Some(j) => {
                        let ghost pre = *self;
                        let bucket = &mut self.ship_buckets[j];
                        bucket.push(i);
                        proof {
                            assert(self.ship_bmap() =~= pre.ship_bmap().update(
                                j as int,
                                pre.ship_bmap()[j as int].push(i),
                            ));
                            lemma_post_to_bucket(
                                self.ships@,
                                self.cells@,
                                pre.ship_bmap(),
                                self.ship_bmap(),
                                j as int,
                                i,
                                a as int,
                                b as int,
                            );
                            assert forall|ii: usize| ii < i implies
                                #[trigger] registered(
                                self.ships@,
                                self.cells@,
                                self.ship_bmap(),
                                ii,
                            ) by {
                                assert(registered(
                                    self.ships@,
                                    self.cells@,
                                    pre.ship_bmap(),
                                    ii,
                                ));
                            }
                            assert forall|aa: int, bb: int|
                                #[trigger] in_cell_range(c, aa, bb) && (aa < a || (aa == a && bb < b
                                    + 1)) implies posted_at(
                                self.cells@,
                                self.ship_bmap(),
                                i,
                                aa,
                                bb,
                            ) by {
                                if aa == a && bb == b {
                                } else {
                                    assert(posted_at(self.cells@, pre.ship_bmap(), i, aa, bb));
                                }
                            }
                        }
                    },
                    None => {
                        proof {
                            assert(cell_present(self.cells@, a as int, b as int));
                            assert(false);
                        }
                    },
                }
                b += 1;
            }
            a += 1;
        }
        proof {
            assert forall|ii: usize| ii < self.ships@.len() implies #[trigger] registered(
                self.ships@,
                self.cells@,
                self.ship_bmap(),
                ii,
            ) by {
                if ii == i {
                    assert forall|aa: int, bb: int|
                        #[trigger] in_cell_range(c, aa, bb) implies posted_at(
                        self.cells@,
                        self.ship_bmap(),
                        i,
                        aa,
                        bb,
                    ) by {
                        assert(aa <= hi_x && (aa < a || (aa == a && bb < lo_y)) || (aa
                            <= hi_x && lo_y <= bb));
                    }
                }
            }
        }
    }

    /// Enemy `e` and missile `m` are both valid indices and their circles
    /// overlap.
    pub open spec fn emc_ok(self, e: usize, m: usize) -> bool {
        &&& (e as int) < self.enemies@.len()
        &&& (m as int) < self.missiles@.len()
        &&& collided_spec(self.enemies@[e as int], self.missiles@[m as int])
    }

    /// Ship `s` is alive, enemy `e` is valid, and their circles overlap.
    pub open spec fn sec_ok(self, s: usize, e: usize) -> bool {
        &&& (s as int) < self.ships@.len()
        &&& (e as int) < self.enemies@.len()
        &&& self.ships_alive@[s as int]
        &&& collided_spec(self.ships@[s as int], self.enemies@[e as int])
    }

    /// Enemy `e` and missile `m` are both registered in bucket `j`.
    pub open spec fn emc_in_bucket(self, j: int, e: usize, m: usize) -> bool {
        &&& self.enemy_bmap()[j].contains(e)
        &&& self.missile_bmap()[j].contains(m)
    }

    /// Some bucket before `jmax` holds both enemy `e` and missile `m`.
    pub open spec fn emc_found_upto(self, jmax: int, e: usize, m: usize) -> bool {
        exists|j: int| 0 <= j < jmax && #[trigger] self.emc_in_bucket(j, e, m)
    }

    /// Every enemy-missile pair whose circles overlap, as index pairs,
    /// each exactly once however many grid cells the pair shares.
    #[verifier::loop_isolation(false)]
    pub fn enemy_missile_collisions(&self) -> (pairs: Vec<(usize, usize)>)
        requires
            self.inv(),
        ensures
            forall|p: int, q: int| 0 <= p < q < pairs@.len() ==> pairs@[p] != pairs@[q],
            forall|e: usize, m: usize| #[trigger] pair_in(pairs@, e, m) <==> self.emc_ok(e, m),
    {
        let mut pairs: Vec<(usize, usize)> = Vec::new();
        let ncells = self.cells.len();
        let mut j: usize = 0;
        while j < ncells
            invariant
                j <= ncells == self.cells@.len(),
                self.inv(),
                forall|p: int, q: int| 0 <= p < q < pairs@.len() ==> pairs@[p] != pairs@[q],
                forall|e: usize, m: usize|
                    #[trigger] pair_in(pairs@, e, m) ==> self.emc_ok(e, m),
                forall|e: usize, m: usize|
                    self.emc_ok(e, m) && #[trigger] self.emc_found_upto(j as int, e, m)
                        ==> pair_in(pairs@, e, m),
            decreases ncells - j,
        {
            let ghost ebs = self.enemy_bmap()[j as int];
            let ghost mbs = self.missile_bmap()[j as int];
            let n_e = self.enemy_buckets[j].len();
            let n_m = self.missile_buckets[j].len();
            let mut ke: usize = 0;
            while ke < n_e
                invariant
                    ke <= n_e == ebs.len(),
                    n_m == mbs.len(),
                    forall|p: int, q: int| 0 <= p < q < pairs@.len() ==> pairs@[p] != pairs@[q],
                    forall|e: usize, m: usize|
                        #[trigger] pair_in(pairs@, e, m) ==> self.emc_ok(e, m),
                    forall|e: usize, m: usize|
                        self.emc_ok(e, m) && #[trigger] self.emc_found_upto(j as int, e, m)
                            ==> pair_in(pairs@, e, m),
                    forall|pe: int, km: int|
                        #![trigger ebs[pe], mbs[km]]
                        0 <= pe < ke && 0 <= km < mbs.len() && self.emc_ok(ebs[pe], mbs[km])
                            ==> pair_in(pairs@, ebs[pe], mbs[km]),
                decreases n_e - ke,
            {
                let e = self.enemy_buckets[j][ke];
                proof {
                    assert(e == ebs[ke as int]);
                }
                let mut km: usize = 0;
                while km < n_m
                    invariant
                        km <= n_m == mbs.len(),
                        ke < n_e == ebs.len(),
                        e == ebs[ke as int],
                        forall|p: int, q: int| 0 <= p < q < pairs@.len() ==> pairs@[p] != pairs@[
                            q
                        ],
                        forall|ee: usize, mm: usize|
                            #[trigger] pair_in(pairs@, ee, mm) ==> self.emc_ok(ee, mm),
                        forall|ee: usize, mm: usize|
                            self.emc_ok(ee, mm) && #[trigger] self.emc_found_upto(j as int, ee, mm)
                                ==> pair_in(pairs@, ee, mm),
                        forall|pe: int, kmm: int|
                            #![trigger ebs[pe], mbs[kmm]]
                            0 <= pe < ke && 0 <= kmm < mbs.len() && self.emc_ok(ebs[pe], mbs[kmm])
                                ==> pair_in(pairs@, ebs[pe], mbs[kmm]),
                        forall|kmm: int|
                            0 <= kmm < km && self.emc_ok(e, #[trigger] mbs[kmm]) ==> pair_in(
                                pairs@,
                                e,
                                mbs[kmm],
                            ),
                    decreases n_m - km,
                {
                    let m = self.missile_buckets[j][km];
                    proof {
                        assert(m == mbs[km as int]);
                        assert((e as int) < self.enemies@.len() && circle_wf(
                            self.enemies@[e as int],
                        ));
                        assert((m as int) < self.missiles@.len() && circle_wf(
                            self.missiles@[m as int],
                        ));
                    }
                    if collided(&self.enemies[e], &self.missiles[m]) {
                        if !contains_pair(&pairs, e, m) {
                            let ghost prev = pairs@;
                            pairs.push((e, m));
                            proof {
                                assert forall|ee: usize, mm: usize|
                                    #[trigger] pair_in(prev, ee, mm) implies pair_in(
                                    pairs@,
                                    ee,
                                    mm,
                                ) by {
                                    lemma_contains_after_push(prev, (e, m), (ee, mm));
                                }
                                assert(pairs@[prev.len() as int] == (e, m));
                                assert(pair_in(pairs@, e, m));
                                assert forall|ee: usize, mm: usize|
                                    #[trigger] pair_in(pairs@, ee, mm) implies pair_in(
                                    prev,
                                    ee,
                                    mm,
                                ) || (ee == e && mm == m) by {
                                    let k = choose|k: int|
                                        0 <= k < pairs@.len() && pairs@[k] == (ee, mm);
                                    if k < prev.len() {
                                        assert(prev[k] == (ee, mm));
                                    }
                                }
                                assert forall|p: int, q: int|
                                    0 <= p < q < pairs@.len() implies pairs@[p] != pairs@[q] by {
                                    if q == prev.len() {
                                        assert(!prev.contains((e, m)));
                                        assert(pairs@[p] == prev[p]);
                                    }
                                }
                            }
                        }
                    }
                    km += 1;
                }
                ke += 1;
            }
            proof {
                assert forall|ee: usize, mm: usize|
                    self.emc_ok(ee, mm) && #[trigger] self.emc_found_upto(
                    j as int + 1,
                    ee,
                    mm,
                ) implies pair_in(pairs@, ee, mm) by {
                    let jj = choose|jj: int|
                        0 <= jj < j as int + 1 && #[trigger] self.emc_in_bucket(jj, ee, mm);
                    if jj == j as int {
                        let pe = choose|pe: int| 0 <= pe < ebs.len() && ebs[pe] == ee;
                        let pm = choose|pm: int| 0 <= pm < mbs.len() && mbs[pm] == mm;
                        assert(ebs[pe] == ee && mbs[pm] == mm);
                    } else {
                        assert(self.emc_found_upto(j as int, ee, mm));
                    }
                }
            }
            j += 1;
        }
        proof {
            assert forall|e: usize, m: usize| self.emc_ok(e, m) implies pair_in(
                pairs@,
                e,
                m,
            ) by {
                let ce = self.enemies@[e as int];
                let cm = self.missiles@[m as int];
                lemma_collided_share_cell(ce, cm);
                let (aa, bb) = choose|aa: int, bb: int|
                    in_cell_range(ce, aa, bb) && in_cell_range(cm, aa, bb);
                assert(registered(self.enemies@, self.cells@, self.enemy_bmap(), e));
                assert(registered(self.missiles@, self.cells@, self.missile_bmap(), m));
                assert(in_cell_range(ce, aa, bb));
                assert(in_cell_range(cm, aa, bb));
                assert(posted_at(self.cells@, self.enemy_bmap(), e, aa, bb));
                assert(posted_at(self.cells@, self.missile_bmap(), m, aa, bb));
                let j1 = choose|j1: int|
                    0 <= j1 < self.cells@.len() && self.cells@[j1].x == aa && self.cells@[j1].y
                        == bb && #[trigger] self.enemy_bmap()[j1].contains(e);
                let j2 = choose|j2: int|
                    0 <= j2 < self.cells@.len() && self.cells@[j2].x == aa && self.cells@[j2].y
                        == bb && #[trigger] self.missile_bmap()[j2].contains(m);
                assert(self.cells@[j1] == self.cells@[j2]);
                assert(j1 == j2);
                assert(self.emc_in_bucket(j1, e, m));
                assert(self.emc_found_upto(ncells as int, e, m));
            }
        }
        pairs
    }

    /// Ship `s` and enemy `e` are both registered in bucket `j`.
    pub open spec fn sec_in_bucket(self, j: int, s: usize, e: usize) -> bool {
        &&& self.ship_bmap()[j].contains(s)
        &&& self.enemy_bmap()[j].contains(e)
    }

    /// Some bucket before `jmax` holds both ship `s` and enemy `e`.
    pub open spec fn sec_found_upto(self, jmax: int, s: usize, e: usize) -> bool {
        exists|j: int| 0 <= j < jmax && #[trigger] self.sec_in_bucket(j, s, e)
    }

    /// Every ship-enemy pair whose circles overlap, as index pairs,
    /// each exactly once however many grid cells the pair shares. Dead ships
    /// produce no pairs.
    #[verifier::loop_isolation(false)]
    pub fn ship_enemy_collisions(&self) -> (pairs: Vec<(usize, usize)>)
        requires
            self.inv(),
        ensures
            forall|p: int, q: int| 0 <= p < q < pairs@.len() ==> pairs@[p] != pairs@[q],
            forall|e: usize, m: usize| #[trigger] pair_in(pairs@, e, m) <==> self.sec_ok(e, m),
    {
        let mut pairs: Vec<(usize, usize)> = Vec::new();
        let ncells = self.cells.len();
        let mut j: usize = 0;
        while j < ncells
            invariant
                j <= ncells == self.cells@.len(),
                self.inv(),
                forall|p: int, q: int| 0 <= p < q < pairs@.len() ==> pairs@[p] != pairs@[q],
                forall|e: usize, m: usize|
                    #[trigger] pair_in(pairs@, e, m) ==> self.sec_ok(e, m),
                forall|e: usize, m: usize|
                    self.sec_ok(e, m) && #[trigger] self.sec_found_upto(j as int, e, m)
                        ==> pair_in(pairs@, e, m),
            decreases ncells - j,
        {
            let ghost ebs = self.ship_bmap()[j as int];
            let ghost mbs = self.enemy_bmap()[j as int];
            let n_e = self.ship_buckets[j].len();
            let n_m = self.enemy_buckets[j].len();
            let mut ke: usize = 0;
            while ke < n_e
                invariant
                    ke <= n_e == ebs.len(),
                    n_m == mbs.len(),
                    forall|p: int, q: int| 0 <= p < q < pairs@.len() ==> pairs@[p] != pairs@[q],
                    forall|e: usize, m: usize|
                        #[trigger] pair_in(pairs@, e, m) ==> self.sec_ok(e, m),
                    forall|e: usize, m: usize|
                        self.sec_ok(e, m) && #[trigger] self.sec_found_upto(j as int, e, m)
                            ==> pair_in(pairs@, e, m),
                    forall|pe: int, km: int|
                        #![trigger ebs[pe], mbs[km]]
                        0 <= pe < ke && 0 <= km < mbs.len() && self.sec_ok(ebs[pe], mbs[km])
                            ==> pair_in(pairs@, ebs[pe], mbs[km]),
                decreases n_e - ke,
            {
                let e = self.ship_buckets[j][ke];
                proof {
                    assert(e == ebs[ke as int]);
                }
                let mut km: usize = 0;
                while km < n_m
                    invariant
                        km <= n_m == mbs.len(),
                        ke < n_e == ebs.len(),
                        e == ebs[ke as int],
                        forall|p: int, q: int| 0 <= p < q < pairs@.len() ==> pairs@[p] != pairs@[
                            q
                        ],
                        forall|ee: usize, mm: usize|
                            #[trigger] pair_in(pairs@, ee, mm) ==> self.sec_ok(ee, mm),
                        forall|ee: usize, mm: usize|
                            self.sec_ok(ee, mm) && #[trigger] self.sec_found_upto(j as int, ee, mm)
                                ==> pair_in(pairs@, ee, mm),
                        forall|pe: int, kmm: int|
                            #![trigger ebs[pe], mbs[kmm]]
                            0 <= pe < ke && 0 <= kmm < mbs.len() && self.sec_ok(ebs[pe], mbs[kmm])
                                ==> pair_in(pairs@, ebs[pe], mbs[kmm]),
                        forall|kmm: int|
                            0 <= kmm < km && self.sec_ok(e, #[trigger] mbs[kmm]) ==> pair_in(
                                pairs@,
                                e,
                                mbs[kmm],
                            ),
                    decreases n_m - km,
                {
                    let m = self.enemy_buckets[j][km];
                    proof {
                        assert(m == mbs[km as int]);
                        assert((e as int) < self.ships@.len() && circle_wf(
                            self.ships@[e as int],
                        ));
                        assert((m as int) < self.enemies@.len() && circle_wf(
                            self.enemies@[m as int],
                        ));
                    }
                    if self.ships_alive[e] && collided(&self.ships[e], &self.enemies[m]) {
                        if !contains_pair(&pairs, e, m) {
                            let ghost prev = pairs@;
                            pairs.push((e, m));
                            proof {
                                assert forall|ee: usize, mm: usize|
                                    #[trigger] pair_in(prev, ee, mm) implies pair_in(
                                    pairs@,
                                    ee,
                                    mm,
                                ) by {
                                    lemma_contains_after_push(prev, (e, m), (ee, mm));
                                }
                                assert(pairs@[prev.len() as int] == (e, m));
                                assert(pair_in(pairs@, e, m));
                                assert forall|ee: usize, mm: usize|
                                    #[trigger] pair_in(pairs@, ee, mm) implies pair_in(
                                    prev,
                                    ee,
                                    mm,
                                ) || (ee == e && mm == m) by {
                                    let k = choose|k: int|
                                        0 <= k < pairs@.len() && pairs@[k] == (ee, mm);
                                    if k < prev.len() {
                                        assert(prev[k] == (ee, mm));
                                    }
                                }
                                assert forall|p: int, q: int|
                                    0 <= p < q < pairs@.len() implies pairs@[p] != pairs@[q] by {
                                    if q == prev.len() {
                                        assert(!prev.contains((e, m)));
                                        assert(pairs@[p] == prev[p]);
                                    }
                                }
                            }
                        }
                    }
                    km += 1;
                }
                ke += 1;
            }
            proof {
                assert forall|ee: usize, mm: usize|
                    self.sec_ok(ee, mm) && #[trigger] self.sec_found_upto(
                    j as int + 1,
                    ee,
                    mm,
                ) implies pair_in(pairs@, ee, mm) by {
                    let jj = choose|jj: int|
                        0 <= jj < j as int + 1 && #[trigger] self.sec_in_bucket(jj, ee, mm);
                    if jj == j as int {
                        let pe = choose|pe: int| 0 <= pe < ebs.len() && ebs[pe] == ee;
                        let pm = choose|pm: int| 0 <= pm < mbs.len() && mbs[pm] == mm;
                        assert(ebs[pe] == ee && mbs[pm] == mm);
                    } else {
                        assert(self.sec_found_upto(j as int, ee, mm));
                    }
                }
            }
            j += 1;
        }
        proof {
            assert forall|e: usize, m: usize| self.sec_ok(e, m) implies pair_in(
                pairs@,
                e,
                m,
            ) by {
                let ce = self.ships@[e as int];
                let cm = self.enemies@[m as int];
                lemma_collided_share_cell(ce, cm);
                let (aa, bb) = choose|aa: int, bb: int|
                    in_cell_range(ce, aa, bb) && in_cell_range(cm, aa, bb);
                assert(registered(self.ships@, self.cells@, self.ship_bmap(), e));
                assert(registered(self.enemies@, self.cells@, self.enemy_bmap(), m));
                assert(in_cell_range(ce, aa, bb));
                assert(in_cell_range(cm, aa, bb));
                assert(posted_at(self.cells@, self.ship_bmap(), e, aa, bb));
                assert(posted_at(self.cells@, self.enemy_bmap(), m, aa, bb));
                let j1 = choose|j1: int|
                    0 <= j1 < self.cells@.len() && self.cells@[j1].x == aa && self.cells@[j1].y
                        == bb && #[trigger] self.ship_bmap()[j1].contains(e);
                let j2 = choose|j2: int|
                    0 <= j2 < self.cells@.len() && self.cells@[j2].x == aa && self.cells@[j2].y
                        == bb && #[trigger] self.enemy_bmap()[j2].contains(m);
                assert(self.cells@[j1] == self.cells@[j2]);
                assert(j1 == j2);
                assert(self.sec_in_bucket(j1, e, m));
                assert(self.sec_found_upto(ncells as int, e, m));
            }
        }
        pairs
    }
}

/// Appending one fresh cell with an empty bucket preserves the bucket
/// invariant for a population whose circles are unchanged.
proof fn lemma_buckets_grow_cell(
    circles: Seq<Circle>,
    cells: Seq<GridCell>,
    buckets: Seq<Seq<usize>>,
    newcell: GridCell,
    cells2: Seq<GridCell>,
    buckets2: Seq<Seq<usize>>,
)
    requires
        buckets_inv(circles, cells, buckets),
        cells2 == cells.push(newcell),
        buckets2.len() == buckets.len() + 1,
        forall|j: int| 0 <= j < buckets.len() ==> #[trigger] buckets2[j] == buckets[j],
        buckets2[buckets2.len() - 1].len() == 0,
    ensures
        buckets_inv(circles, cells2, buckets2),
{
    assert forall|i: usize| i < circles.len() implies #[trigger] registered(
        circles,
        cells2,
        buckets2,
        i,
    ) by {
        assert(registered(circles, cells, buckets, i));
        assert forall|a: int, b: int| #[trigger] in_cell_range(circles[i as int], a, b) implies
            exists|j: int|
                0 <= j < cells2.len() && cells2[j].x == a && cells2[j].y == b
                    && #[trigger] buckets2[j].contains(i) by {
            let j = choose|j: int|
                0 <= j < cells.len() && cells[j].x == a && cells[j].y == b && #[trigger] buckets[
                    j
                ].contains(i);
            assert(buckets2[j] == buckets[j]);
            assert(cells2[j] == cells[j]);
        }
    }
}


/// A sequence keeps containing its members when a value is pushed.
proof fn lemma_contains_after_push<A>(s: Seq<A>, v: A, x: A)
    requires
        s.contains(x),
    ensures
        s.push(v).contains(x),
{
    let k = choose|k: int| 0 <= k < s.len() && s[k] == x;
    assert(s.push(v)[k] == x);
}

/// Whether the pair `(x, y)` occurs in the collected pair list.
pub open spec fn pair_in(s: Seq<(usize, usize)>, x: usize, y: usize) -> bool {
    s.contains((x, y))
}

/// Linear scan for a pair in the collected pair list.
fn contains_pair(v: &Vec<(usize, usize)>, x: usize, y: usize) -> (found: bool)
    ensures
        found == pair_in(v@, x, y),
{
    let n = v.len();
    let mut k: usize = 0;
    while k < n
        invariant
            k <= n == v@.len(),
            forall|t: int| 0 <= t < k ==> #[trigger] v@[t] != (x, y),
        decreases n - k,
    {
        if v[k].0 == x && v[k].1 == y {
            assert(v@[k as int] == (x, y));
            return true;
        }
        k += 1;
    }
    assert(!v@.contains((x, y)));
    false
}

/// Appending index `i` to the bucket of cell `j` keeps the buckets sound,
/// keeps every existing posting, and posts `i` at that cell.
proof fn lemma_post_to_bucket(
    circles: Seq<Circle>,
    cells: Seq<GridCell>,
    buckets: Seq<Seq<usize>>,
    buckets2: Seq<Seq<usize>>,
    j: int,
    i: usize,
    a: int,
    b: int,
)
    requires
        buckets_sound(circles, cells, buckets),
        0 <= j < cells.len(),
        cells[j].x == a,
        cells[j].y == b,
        i < circles.len(),
        in_cell_range(circles[i as int], a, b),
        buckets2 == buckets.update(j, buckets[j].push(i)),
    ensures
        buckets_sound(circles, cells, buckets2),
        forall|ii: usize, aa: int, bb: int|
            #[trigger] posted_at(cells, buckets, ii, aa, bb) ==> posted_at(
                cells,
                buckets2,
                ii,
                aa,
                bb,
            ),
        forall|ii: usize|
            #[trigger] registered(circles, cells, buckets, ii) ==> registered(
                circles,
                cells,
                buckets2,
                ii,
            ),
        posted_at(cells, buckets2, i, a, b),
{
    assert forall|jj: int, k: int|
        0 <= jj < buckets2.len() && 0 <= k < buckets2[jj].len() implies {
        let idx = #[trigger] buckets2[jj][k];
        &&& idx < circles.len()
        &&& in_cell_range(circles[idx as int], cells[jj].x as int, cells[jj].y as int)
    } by {
        if jj == j && k == buckets[j].len() {
            assert(buckets2[jj][k] == i);
        } else {
            assert(buckets2[jj][k] == buckets[jj][k]);
        }
    }
    assert forall|ii: usize, aa: int, bb: int|
        #[trigger] posted_at(cells, buckets, ii, aa, bb) implies posted_at(
        cells,
        buckets2,
        ii,
        aa,
        bb,
    ) by {
        let jj = choose|jj: int|
            0 <= jj < cells.len() && cells[jj].x == aa && cells[jj].y == bb
                && #[trigger] buckets[jj].contains(ii);
        if jj == j {
            lemma_contains_after_push(buckets[j], i, ii);
            assert(buckets2[j].contains(ii));
        } else {
            assert(buckets2[jj] == buckets[jj]);
        }
    }
    assert(buckets2[j][buckets[j].len() as int] == i);
    assert(buckets2[j].contains(i));
}

} // verus!
