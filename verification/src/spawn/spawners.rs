//! The named spawner sets, one per difficulty level.

use vstd::prelude::*;
use crate::spawn::{Spawner, SpawnerKind};

verus! {

/// Spawner set: a few slow bouncers.
pub open spec fn a_few_bouncers_spec() -> Seq<Spawner> {
    seq![
        Spawner {
            kind: SpawnerKind::Bouncers,
            limit: 5,
            interval: 1000,
            min_vel: None,
            max_vel: None,
            max_scale: None,
        },
    ]
}

/// Spawner set: a few slow bouncers.
pub fn a_few_bouncers() -> (r: Vec<Spawner>)
    ensures
        r@ == a_few_bouncers_spec(),
        forall|k: int| 0 <= k < r@.len() ==> (#[trigger] r@[k]).wf(),
{
    let mut v: Vec<Spawner> = Vec::new();
    v.push(Spawner {
            kind: SpawnerKind::Bouncers,
            limit: 5,
            interval: 1000,
            min_vel: None,
            max_vel: None,
            max_scale: None,
        });
    proof {
        assert(v@ =~= a_few_bouncers_spec());
    }
    v
}

/// Spawner set: a few slow rocks.
pub open spec fn a_few_rocks_spec() -> Seq<Spawner> {
    seq![
        Spawner {
            kind: SpawnerKind::Rocks,
            limit: 5,
            interval: 1000,
            min_vel: None,
            max_vel: None,
            max_scale: None,
        },
    ]
}

/// Spawner set: a few slow rocks.
pub fn a_few_rocks() -> (r: Vec<Spawner>)
    ensures
        r@ == a_few_rocks_spec(),
        forall|k: int| 0 <= k < r@.len() ==> (#[trigger] r@[k]).wf(),
{
    let mut v: Vec<Spawner> = Vec::new();
    v.push(Spawner {
            kind: SpawnerKind::Rocks,
            limit: 5,
            interval: 1000,
            min_vel: None,
            max_vel: None,
            max_scale: None,
        });
    proof {
        assert(v@ =~= a_few_rocks_spec());
    }
    v
}

/// Spawner set: a few bouncers and rocks.
pub open spec fn a_few_bouncers_and_rocks_spec() -> Seq<Spawner> {
    seq![
        Spawner {
            kind: SpawnerKind::Bouncers,
            limit: 5,
            interval: 1000,
            min_vel: None,
            max_vel: None,
            max_scale: None,
        },
        Spawner {
            kind: SpawnerKind::Rocks,
            limit: 5,
            interval: 1000,
            min_vel: None,
            max_vel: None,
            max_scale: None,
        },
    ]
}

/// Spawner set: a few bouncers and rocks.
pub fn a_few_bouncers_and_rocks() -> (r: Vec<Spawner>)
    ensures
        r@ == a_few_bouncers_and_rocks_spec(),
        forall|k: int| 0 <= k < r@.len() ==> (#[trigger] r@[k]).wf(),
{
    let mut v: Vec<Spawner> = Vec::new();
    v.push(Spawner {
            kind: SpawnerKind::Bouncers,
            limit: 5,
            interval: 1000,
            min_vel: None,
            max_vel: None,
            max_scale: None,
        });
    v.push(Spawner {
            kind: SpawnerKind::Rocks,
            limit: 5,
            interval: 1000,
            min_vel: None,
            max_vel: None,
            max_scale: None,
        });
    proof {
        assert(v@ =~= a_few_bouncers_and_rocks_spec());
    }
    v
}

/// Spawner set: a denser rock field.
pub open spec fn rocks_spec() -> Seq<Spawner> {
    seq![
        Spawner {
            kind: SpawnerKind::Rocks,
            limit: 20,
            interval: 500,
            min_vel: None,
            max_vel: None,
            max_scale: None,
        },
    ]
}

/// Spawner set: a denser rock field.
pub fn rocks() -> (r: Vec<Spawner>)
    ensures
        r@ == rocks_spec(),
        forall|k: int| 0 <= k < r@.len() ==> (#[trigger] r@[k]).wf(),
{
    let mut v: Vec<Spawner> = Vec::new();
    v.push(Spawner {
            kind: SpawnerKind::Rocks,
            limit: 20,
            interval: 500,
            min_vel: None,
            max_vel: None,
            max_scale: None,
        });
    proof {
        assert(v@ =~= rocks_spec());
    }
    v
}

/// Spawner set: bouncers over a denser rock field.
pub open spec fn bouncers_and_rocks_spec() -> Seq<Spawner> {
    seq![
        Spawner {
            kind: SpawnerKind::Bouncers,
            limit: 20,
            interval: 500,
            min_vel: None,
            max_vel: None,
            max_scale: None,
        },
        Spawner {
            kind: SpawnerKind::Rocks,
            limit: 20,
            interval: 500,
            min_vel: None,
            max_vel: None,
            max_scale: None,
        },
    ]
}

/// Spawner set: bouncers over a denser rock field.
pub fn bouncers_and_rocks() -> (r: Vec<Spawner>)
    ensures
        r@ == bouncers_and_rocks_spec(),
        forall|k: int| 0 <= k < r@.len() ==> (#[trigger] r@[k]).wf(),
{
    let mut v: Vec<Spawner> = Vec::new();
    v.push(Spawner {
            kind: SpawnerKind::Bouncers,
            limit: 20,
            interval: 500,
            min_vel: None,
            max_vel: None,
            max_scale: None,
        });
    v.push(Spawner {
            kind: SpawnerKind::Rocks,
            limit: 20,
            interval: 500,
            min_vel: None,
            max_vel: None,
            max_scale: None,
        });
    proof {
        assert(v@ =~= bouncers_and_rocks_spec());
    }
    v
}

/// Spawner set: larger rocks.
pub open spec fn bigger_rocks_spec() -> Seq<Spawner> {
    seq![
        Spawner {
            kind: SpawnerKind::Rocks,
            limit: 15,
            interval: 500,
            min_vel: None,
            max_vel: None,
            max_scale: Some(1500),
        },
    ]
}

/// Spawner set: larger rocks.
pub fn bigger_rocks() -> (r: Vec<Spawner>)
    ensures
        r@ == bigger_rocks_spec(),
        forall|k: int| 0 <= k < r@.len() ==> (#[trigger] r@[k]).wf(),
{
    let mut v: Vec<Spawner> = Vec::new();
    v.push(Spawner {
            kind: SpawnerKind::Rocks,
            limit: 15,
            interval: 500,
            min_vel: None,
            max_vel: None,
            max_scale: Some(1500),
        });
    proof {
        assert(v@ =~= bigger_rocks_spec());
    }
    v
}

/// Spawner set: bouncers and larger rocks.
pub open spec fn bouncers_and_bigger_rocks_spec() -> Seq<Spawner> {
    seq![
        Spawner {
            kind: SpawnerKind::Bouncers,
            limit: 15,
            interval: 500,
            min_vel: None,
            max_vel: None,
            max_scale: None,
        },
        Spawner {
            kind: SpawnerKind::Rocks,
            limit: 15,
            interval: 500,
            min_vel: None,
            max_vel: None,
            max_scale: Some(1500),
        },
    ]
}

/// Spawner set: bouncers and larger rocks.
pub fn bouncers_and_bigger_rocks() -> (r: Vec<Spawner>)
    ensures
        r@ == bouncers_and_bigger_rocks_spec(),
        forall|k: int| 0 <= k < r@.len() ==> (#[trigger] r@[k]).wf(),
{
    let mut v: Vec<Spawner> = Vec::new();
    v.push(Spawner {
            kind: SpawnerKind::Bouncers,
            limit: 15,
            interval: 500,
            min_vel: None,
            max_vel: None,
            max_scale: None,
        });
    v.push(Spawner {
            kind: SpawnerKind::Rocks,
            limit: 15,
            interval: 500,
            min_vel: None,
            max_vel: None,
            max_scale: Some(1500),
        });
    proof {
        assert(v@ =~= bouncers_and_bigger_rocks_spec());
    }
    v
}

/// Spawner set: faster rocks.
pub open spec fn faster_rocks_spec() -> Seq<Spawner> {
    seq![
        Spawner {
            kind: SpawnerKind::Rocks,
            limit: 10,
            interval: 500,
            min_vel: Some(150000),
            max_vel: Some(200000),
            max_scale: None,
        },
    ]
}

/// Spawner set: faster rocks.
pub fn faster_rocks() -> (r: Vec<Spawner>)
    ensures
        r@ == faster_rocks_spec(),
        forall|k: int| 0 <= k < r@.len() ==> (#[trigger] r@[k]).wf(),
{
    let mut v: Vec<Spawner> = Vec::new();
    v.push(Spawner {
            kind: SpawnerKind::Rocks,
            limit: 10,
            interval: 500,
            min_vel: Some(150000),
            max_vel: Some(200000),
            max_scale: None,
        });
    proof {
        assert(v@ =~= faster_rocks_spec());
    }
    v
}

/// Spawner set: faster rocks and larger rocks.
pub open spec fn faster_rocks_and_bigger_rocks_spec() -> Seq<Spawner> {
    seq![
        Spawner {
            kind: SpawnerKind::Rocks,
            limit: 20,
            interval: 500,
            min_vel: Some(150000),
            max_vel: Some(200000),
            max_scale: None,
        },
        Spawner {
            kind: SpawnerKind::Rocks,
            limit: 20,
            interval: 500,
            min_vel: None,
            max_vel: None,
            max_scale: Some(1500),
        },
    ]
}

/// Spawner set: faster rocks and larger rocks.
pub fn faster_rocks_and_bigger_rocks() -> (r: Vec<Spawner>)
    ensures
        r@ == faster_rocks_and_bigger_rocks_spec(),
        forall|k: int| 0 <= k < r@.len() ==> (#[trigger] r@[k]).wf(),
{
    let mut v: Vec<Spawner> = Vec::new();
    v.push(Spawner {
            kind: SpawnerKind::Rocks,
            limit: 20,
            interval: 500,
            min_vel: Some(150000),
            max_vel: Some(200000),
            max_scale: None,
        });
    v.push(Spawner {
            kind: SpawnerKind::Rocks,
            limit: 20,
            interval: 500,
            min_vel: None,
            max_vel: None,
            max_scale: Some(1500),
        });
    proof {
        assert(v@ =~= faster_rocks_and_bigger_rocks_spec());
    }
    v
}

/// Spawner set: bouncers, faster rocks and larger rocks.
pub open spec fn bouncers_faster_rocks_and_bigger_rocks_spec() -> Seq<Spawner> {
    seq![
        Spawner {
            kind: SpawnerKind::Bouncers,
            limit: 20,
            interval: 500,
            min_vel: None,
            max_vel: None,
            max_scale: None,
        },
        Spawner {
            kind: SpawnerKind::Rocks,
            limit: 20,
            interval: 500,
            min_vel: Some(150000),
            max_vel: Some(200000),
            max_scale: None,
        },
        Spawner {
            kind: SpawnerKind::Rocks,
            limit: 20,
            interval: 500,
            min_vel: None,
            max_vel: None,
            max_scale: Some(1500),
        },
    ]
}

/// Spawner set: bouncers, faster rocks and larger rocks.
pub fn bouncers_faster_rocks_and_bigger_rocks() -> (r: Vec<Spawner>)
    ensures
        r@ == bouncers_faster_rocks_and_bigger_rocks_spec(),
        forall|k: int| 0 <= k < r@.len() ==> (#[trigger] r@[k]).wf(),
{
    let mut v: Vec<Spawner> = Vec::new();
    v.push(Spawner {
            kind: SpawnerKind::Bouncers,
            limit: 20,
            interval: 500,
            min_vel: None,
            max_vel: None,
            max_scale: None,
        });
    v.push(Spawner {
            kind: SpawnerKind::Rocks,
            limit: 20,
            interval: 500,
            min_vel: Some(150000),
            max_vel: Some(200000),
            max_scale: None,
        });
    v.push(Spawner {
            kind: SpawnerKind::Rocks,
            limit: 20,
            interval: 500,
            min_vel: None,
            max_vel: None,
            max_scale: Some(1500),
        });
    proof {
        assert(v@ =~= bouncers_faster_rocks_and_bigger_rocks_spec());
    }
    v
}

/// Spawner set: fast bouncers and fast large rocks, densely.
pub open spec fn madness_spec() -> Seq<Spawner> {
    seq![
        Spawner {
            kind: SpawnerKind::Bouncers,
            limit: 50,
            interval: 250,
            min_vel: Some(100000),
            max_vel: Some(150000),
            max_scale: None,
        },
        Spawner {
            kind: SpawnerKind::Rocks,
            limit: 50,
            interval: 250,
            min_vel: Some(200000),
            max_vel: Some(250000),
            max_scale: Some(1500),
        },
    ]
}

/// Spawner set: fast bouncers and fast large rocks, densely.
pub fn madness() -> (r: Vec<Spawner>)
    ensures
        r@ == madness_spec(),
        forall|k: int| 0 <= k < r@.len() ==> (#[trigger] r@[k]).wf(),
{
    let mut v: Vec<Spawner> = Vec::new();
    v.push(Spawner {
            kind: SpawnerKind::Bouncers,
            limit: 50,
            interval: 250,
            min_vel: Some(100000),
            max_vel: Some(150000),
            max_scale: None,
        });
    v.push(Spawner {
            kind: SpawnerKind::Rocks,
            limit: 50,
            interval: 250,
            min_vel: Some(200000),
            max_vel: Some(250000),
            max_scale: Some(1500),
        });
    proof {
        assert(v@ =~= madness_spec());
    }
    v
}

/// Spawner set: the same, with a huge population cap.
pub open spec fn overkill_spec() -> Seq<Spawner> {
    seq![
        Spawner {
            kind: SpawnerKind::Bouncers,
            limit: 500,
            interval: 50,
            min_vel: Some(100000),
            max_vel: Some(150000),
            max_scale: None,
        },
        Spawner {
            kind: SpawnerKind::Rocks,
            limit: 500,
            interval: 50,
            min_vel: Some(200000),
            max_vel: Some(250000),
            max_scale: Some(1500),
        },
    ]
}

/// Spawner set: the same, with a huge population cap.
pub fn overkill() -> (r: Vec<Spawner>)
    ensures
        r@ == overkill_spec(),
        forall|k: int| 0 <= k < r@.len() ==> (#[trigger] r@[k]).wf(),
{
    let mut v: Vec<Spawner> = Vec::new();
    v.push(Spawner {
            kind: SpawnerKind::Bouncers,
            limit: 500,
            interval: 50,
            min_vel: Some(100000),
            max_vel: Some(150000),
            max_scale: None,
        });
    v.push(Spawner {
            kind: SpawnerKind::Rocks,
            limit: 500,
            interval: 50,
            min_vel: Some(200000),
            max_vel: Some(250000),
            max_scale: Some(1500),
        });
    proof {
        assert(v@ =~= overkill_spec());
    }
    v
}

/// Spawner set: a flood of fast bouncers: the terminal level.
pub open spec fn overbounce_spec() -> Seq<Spawner> {
    seq![
        Spawner {
            kind: SpawnerKind::Bouncers,
            limit: 500,
            interval: 50,
            min_vel: Some(200000),
            max_vel: Some(250000),
            max_scale: None,
        },
    ]
}

/// Spawner set: a flood of fast bouncers: the terminal level.
pub fn overbounce() -> (r: Vec<Spawner>)
    ensures
        r@ == overbounce_spec(),
        forall|k: int| 0 <= k < r@.len() ==> (#[trigger] r@[k]).wf(),
{
    let mut v: Vec<Spawner> = Vec::new();
    v.push(Spawner {
            kind: SpawnerKind::Bouncers,
            limit: 500,
            interval: 50,
            min_vel: Some(200000),
            max_vel: Some(250000),
            max_scale: None,
        });
    proof {
        assert(v@ =~= overbounce_spec());
    }
    v
}

} // verus!
