//! Rock splitting, enemy spawning gates, and out-of-bounds pruning.

use yarnballs::enemy::rock::{spawn as rock_spawn, Rock};
use yarnballs::enemy::{Enemies, Enemy};
use yarnballs::spawn::spawners::a_few_bouncers;
use yarnballs::spawn::SpawnerKind;

fn rock_at(x: i64, y: i64, scale: i64) -> Rock {
    Rock { id: (9, 9), updated_at: 0, x, y, vel_x: 0, vel_y: 0, scale }
}

#[test]
fn large_rock_splits_into_four_half_scale_children() {
    let parent = rock_at(10_000, 20_000, 1500);
    let children = parent.split();
    assert_eq!(children.len(), 4);
    for c in &children {
        assert_eq!(c.scale, 750);
        // children appear at the parent's center: radius is 45 * scale
        assert_eq!(c.x, 10_000 + 45 * 1500);
        assert_eq!(c.y, 20_000 + 45 * 1500);
    }
}

#[test]
fn threshold_rock_does_not_split() {
    assert_eq!(rock_at(0, 0, 750).split().len(), 0);
    assert_eq!(rock_at(0, 0, 300).split().len(), 0);
    assert_eq!(rock_at(0, 0, 751).split().len(), 4);
}

#[test]
fn rock_damage_and_radius_scale_linearly() {
    let r = rock_at(0, 0, 750);
    assert_eq!(r.damage(), 3750);
    assert_eq!(r.radius(), 33_750);
    let big = rock_at(0, 0, 1500);
    assert_eq!(big.damage(), 7500);
    assert_eq!(big.radius(), 67_500);
}

#[test]
fn spawned_rock_scale_is_within_the_band() {
    for _ in 0..20 {
        let r = rock_spawn(None, None, None);
        assert!(300 <= r.scale && r.scale < 750);
        let big = rock_spawn(Some(1500), None, None);
        assert!(300 <= big.scale && big.scale < 1500);
    }
}

#[test]
fn out_of_bounds_enemies_vanish_silently() {
    let mut es = Enemies::init();
    es.insert(Enemy::Rock(rock_at(800_000, 0, 750)));
    assert_eq!(es.entities.len(), 1);
    es.update(0);
    assert_eq!(es.entities.len(), 0);
    // no explosion for leaving the bounds
    assert_eq!(es.explosions.entities.len(), 0);
}

#[test]
fn destroyed_enemy_leaves_an_explosion() {
    let mut es = Enemies::init();
    es.insert(Enemy::Rock(rock_at(10_000, 20_000, 300)));
    es.remove(vec![(9, 9)]);
    es.update(0);
    // a small rock leaves no children, only an explosion sized by its
    // collision diameter
    assert_eq!(es.entities.len(), 0);
    assert_eq!(es.explosions.entities.len(), 1);
    assert_eq!(es.explosions.entities[0].x, 10_000);
    assert_eq!(es.explosions.entities[0].y, 20_000);
    assert_eq!(es.explosions.entities[0].size, 2 * 45 * 300);
    assert_eq!(es.explosions.entities[0].lifespan, 1000);
}

#[test]
fn destroyed_large_rock_is_replaced_by_children() {
    let mut es = Enemies::init();
    es.insert(Enemy::Rock(rock_at(10_000, 20_000, 1500)));
    es.remove(vec![(9, 9)]);
    es.update(0);
    assert_eq!(es.entities.len(), 4);
    for e in &es.entities {
        match e {
            Enemy::Rock(c) => {
                assert_eq!(c.scale, 750);
                assert_eq!(c.x, 10_000 + 67_500);
            },
            Enemy::Bouncer(_) => panic!("expected rock children"),
        }
    }
    assert_eq!(es.explosions.entities.len(), 1);
}

#[test]
fn spawn_gates_respect_interval_and_cap() {
    let mut es = Enemies::init();
    // the interval since the last spawn (initially time zero) has not
    // passed yet
    es.spawn(a_few_bouncers(), 500);
    assert_eq!(es.entities.len(), 0);
    // now it has
    es.spawn(a_few_bouncers(), 1001);
    assert_eq!(es.entities.len(), 1);
    match &es.entities[0] {
        Enemy::Bouncer(_) => {},
        Enemy::Rock(_) => panic!("a bouncer spawner must spawn bouncers"),
    }
    // the population cap of five blocks further spawns
    for k in 0..4u64 {
        es.insert(Enemy::Rock(Rock {
            id: (100 + k, 0),
            updated_at: 0,
            x: 0,
            y: 0,
            vel_x: 0,
            vel_y: 0,
            scale: 300,
        }));
    }
    assert_eq!(es.entities.len(), 5);
    es.spawn(a_few_bouncers(), 10_000);
    assert_eq!(es.entities.len(), 5);
}

#[test]
fn duplicate_enemy_ids_are_not_admitted() {
    let mut es = Enemies::init();
    es.insert(Enemy::Rock(rock_at(0, 0, 300)));
    es.insert(Enemy::Rock(rock_at(50_000, 0, 600)));
    assert_eq!(es.entities.len(), 1);
    match &es.entities[0] {
        Enemy::Rock(r) => assert_eq!(r.scale, 300),
        Enemy::Bouncer(_) => panic!("expected the first rock"),
    }
}

#[test]
fn spawner_sets_match_the_ladder_descriptions() {
    let few = a_few_bouncers();
    assert_eq!(few.len(), 1);
    assert_eq!(few[0].kind, SpawnerKind::Bouncers);
    assert_eq!(few[0].limit, 5);
    assert_eq!(few[0].interval, 1000);
    let ov = yarnballs::spawn::spawners::overbounce();
    assert_eq!(ov.len(), 1);
    assert_eq!(ov[0].kind, SpawnerKind::Bouncers);
    assert_eq!(ov[0].limit, 500);
    assert_eq!(ov[0].interval, 50);
    assert_eq!(yarnballs::spawn::spawners::a_few_bouncers_and_rocks().len(), 2);
    assert_eq!(yarnballs::spawn::spawners::bouncers_faster_rocks_and_bigger_rocks().len(), 3);
    assert_eq!(yarnballs::spawn::spawners::madness().len(), 2);
    assert_eq!(yarnballs::spawn::spawners::overkill().len(), 2);
    assert_eq!(yarnballs::spawn::spawners::rocks()[0].limit, 20);
    assert_eq!(yarnballs::spawn::spawners::bouncers_and_rocks().len(), 2);
    assert_eq!(yarnballs::spawn::spawners::bigger_rocks()[0].max_scale, Some(1500));
    assert_eq!(yarnballs::spawn::spawners::bouncers_and_bigger_rocks().len(), 2);
    assert_eq!(yarnballs::spawn::spawners::faster_rocks()[0].min_vel, Some(150_000));
    assert_eq!(yarnballs::spawn::spawners::faster_rocks_and_bigger_rocks().len(), 2);
    assert_eq!(yarnballs::spawn::spawners::a_few_rocks()[0].kind, SpawnerKind::Rocks);
}
