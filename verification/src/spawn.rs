//! Spawner configurations and the score-driven difficulty ladder.
//!
//! A spawner describes one enemy archetype: its kind, a population cap, a
//! minimum interval between spawns, and optional overrides for the spawn
//! speed band (milli-units per second) and the maximum rock scale
//! (thousandths). The ladder maps accumulated score to a level index and
//! the spawner set active at that level.

pub mod spawners;

use vstd::prelude::*;

verus! {

/// Which enemy archetype a spawner produces.
#[derive(Clone, Copy, PartialEq, Eq, Structural, Debug)]
pub enum SpawnerKind {
    Bouncers,
    Rocks,
}

/// One weighted spawner configuration.
#[derive(Clone, Copy, PartialEq, Eq, Structural, Debug)]
pub struct Spawner {
    pub kind: SpawnerKind,
    /// No spawn happens while the live enemy population is at or above
    /// this cap.
    pub limit: u32,
    /// Minimum milliseconds since the last successful spawn.
    pub interval: u32,
    /// Optional minimum spawn speed override, milli-units per second.
    pub min_vel: Option<i64>,
    /// Optional maximum spawn speed override, milli-units per second.
    pub max_vel: Option<i64>,
    /// Optional maximum rock scale override, thousandths.
    pub max_scale: Option<i64>,
}

impl Spawner {
    /// The velocity and scale parameters a spawner may carry, kept inside
    /// the ranges the spawn functions accept.
    pub open spec fn wf(self) -> bool {
        &&& 0 <= crate::enemy::opt_or(self.min_vel, 50_000) < crate::enemy::opt_or(
            self.max_vel,
            100_000,
        ) <= 250_000
        &&& 300 < crate::enemy::opt_or(self.max_scale, 750) <= 1500
    }
}

/// The score thresholds of the difficulty ladder, level by level: level `n`
/// is active while the total score is at least `threshold(n)` and below
/// `threshold(n + 1)`; the last level has no upper bound.
pub open spec fn level_of_score(score: int) -> int {
    if score < 15 {
        0
    } else if score < 30 {
        1
    } else if score < 60 {
        2
    } else if score < 90 {
        3
    } else if score < 120 {
        4
    } else if score < 200 {
        5
    } else if score < 280 {
        6
    } else if score < 330 {
        7
    } else if score < 430 {
        8
    } else if score < 1000 {
        9
    } else if score < 2000 {
        10
    } else if score < 5000 {
        11
    } else {
        12
    }
}

/// The score bracket of the active level: its starting score and, for
/// every level but the last, the score at which the next one starts.
pub open spec fn level_bracket(score: int) -> (u32, Option<u32>) {
    if score < 15 {
        (0u32, Some(15u32))
    } else if score < 30 {
        (15u32, Some(30u32))
    } else if score < 60 {
        (30u32, Some(60u32))
    } else if score < 90 {
        (60u32, Some(90u32))
    } else if score < 120 {
        (90u32, Some(120u32))
    } else if score < 200 {
        (120u32, Some(200u32))
    } else if score < 280 {
        (200u32, Some(280u32))
    } else if score < 330 {
        (280u32, Some(330u32))
    } else if score < 430 {
        (330u32, Some(430u32))
    } else if score < 1000 {
        (430u32, Some(1000u32))
    } else if score < 2000 {
        (1000u32, Some(2000u32))
    } else if score < 5000 {
        (2000u32, Some(5000u32))
    } else {
        (5000u32, None)
    }
}

/// The spawner set active at a total score.
pub open spec fn spawner_set_of(score: int) -> Seq<Spawner> {
    if score < 15 {
        spawners::a_few_bouncers_spec()
    } else if score < 30 {
        spawners::a_few_rocks_spec()
    } else if score < 60 {
        spawners::a_few_bouncers_and_rocks_spec()
    } else if score < 90 {
        spawners::rocks_spec()
    } else if score < 120 {
        spawners::bouncers_and_rocks_spec()
    } else if score < 200 {
        spawners::bigger_rocks_spec()
    } else if score < 280 {
        spawners::bouncers_and_bigger_rocks_spec()
    } else if score < 330 {
        spawners::faster_rocks_spec()
    } else if score < 430 {
        spawners::faster_rocks_and_bigger_rocks_spec()
    } else if score < 1000 {
        spawners::bouncers_faster_rocks_and_bigger_rocks_spec()
    } else if score < 2000 {
        spawners::madness_spec()
    } else if score < 5000 {
        spawners::overkill_spec()
    } else {
        spawners::overbounce_spec()
    }
}

/// The level index, its score bracket, and its spawner set, for a total
/// score. The bracket is the level's starting score and, for every level
/// but the last, the score at which the next one starts.
pub fn level_spawners(score: i64) -> (r: (u32, (u32, Option<u32>), Vec<Spawner>))
    ensures
        r.0 == level_of_score(score as int),
        r.1 == level_bracket(score as int),
        r.2@ == spawner_set_of(score as int),
        forall|k: int| 0 <= k < r.2@.len() ==> (#[trigger] r.2@[k]).wf(),
        r.2@.len() >= 1,
        score < 15 ==> r.1 == (0u32, Some(15u32)),
        15 <= score < 30 ==> r.1 == (15u32, Some(30u32)),
        30 <= score < 60 ==> r.1 == (30u32, Some(60u32)),
        60 <= score < 90 ==> r.1 == (60u32, Some(90u32)),
        90 <= score < 120 ==> r.1 == (90u32, Some(120u32)),
        120 <= score < 200 ==> r.1 == (120u32, Some(200u32)),
        200 <= score < 280 ==> r.1 == (200u32, Some(280u32)),
        280 <= score < 330 ==> r.1 == (280u32, Some(330u32)),
        330 <= score < 430 ==> r.1 == (330u32, Some(430u32)),
        430 <= score < 1000 ==> r.1 == (430u32, Some(1000u32)),
        1000 <= score < 2000 ==> r.1 == (1000u32, Some(2000u32)),
        2000 <= score < 5000 ==> r.1 == (2000u32, Some(5000u32)),
        5000 <= score ==> r.1 == (5000u32, None::<u32>),
        score < 15 ==> r.2@ == spawners::a_few_bouncers_spec(),
        15 <= score < 30 ==> r.2@ == spawners::a_few_rocks_spec(),
        30 <= score < 60 ==> r.2@ == spawners::a_few_bouncers_and_rocks_spec(),
        60 <= score < 90 ==> r.2@ == spawners::rocks_spec(),
        90 <= score < 120 ==> r.2@ == spawners::bouncers_and_rocks_spec(),
        120 <= score < 200 ==> r.2@ == spawners::bigger_rocks_spec(),
        200 <= score < 280 ==> r.2@ == spawners::bouncers_and_bigger_rocks_spec(),
        280 <= score < 330 ==> r.2@ == spawners::faster_rocks_spec(),
        330 <= score < 430 ==> r.2@ == spawners::faster_rocks_and_bigger_rocks_spec(),
        430 <= score < 1000 ==> r.2@ == spawners::bouncers_faster_rocks_and_bigger_rocks_spec(),
        1000 <= score < 2000 ==> r.2@ == spawners::madness_spec(),
        2000 <= score < 5000 ==> r.2@ == spawners::overkill_spec(),
        5000 <= score ==> r.2@ == spawners::overbounce_spec(),
{
    if score < 15 {
        (0, (0, Some(15)), spawners::a_few_bouncers())
    } else if score < 30 {
        (1, (15, Some(30)), spawners::a_few_rocks())
    } else if score < 60 {
        (2, (30, Some(60)), spawners::a_few_bouncers_and_rocks())
    } else if score < 90 {
        (3, (60, Some(90)), spawners::rocks())
    } else if score < 120 {
        (4, (90, Some(120)), spawners::bouncers_and_rocks())
    } else if score < 200 {
        (5, (120, Some(200)), spawners::bigger_rocks())
    } else if score < 280 {
        (6, (200, Some(280)), spawners::bouncers_and_bigger_rocks())
    } else if score < 330 {
        (7, (280, Some(330)), spawners::faster_rocks())
    } else if score < 430 {
        (8, (330, Some(430)), spawners::faster_rocks_and_bigger_rocks())
    } else if score < 1000 {
        (9, (430, Some(1000)), spawners::bouncers_faster_rocks_and_bigger_rocks())
    } else if score < 2000 {
        (10, (1000, Some(2000)), spawners::madness())
    } else if score < 5000 {
        (11, (2000, Some(5000)), spawners::overkill())
    } else {
        (12, (5000, None), spawners::overbounce())
    }
}

} // verus!
