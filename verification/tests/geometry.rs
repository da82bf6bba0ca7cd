//! Collision predicate and spatial hash behavior.

use yarnballs::collision::{collided, new_spatial_hash, Circle};

#[test]
fn collided_is_symmetric() {
    let a = Circle { x: 0, y: 0, r: 10_000 };
    let b = Circle { x: 15_000, y: 5_000, r: 8_000 };
    assert_eq!(collided(&a, &b), collided(&b, &a));
    assert!(collided(&a, &b));
    let far = Circle { x: 500_000, y: 0, r: 8_000 };
    assert_eq!(collided(&a, &far), collided(&far, &a));
    assert!(!collided(&a, &far));
}

#[test]
fn collided_boundary_is_inclusive() {
    // centers exactly r1 + r2 apart on the x axis: they collide
    let a = Circle { x: 0, y: 0, r: 10_000 };
    let b = Circle { x: 18_000, y: 0, r: 8_000 };
    assert!(collided(&a, &b));
    // one milli-unit further: they do not
    let c = Circle { x: 18_001, y: 0, r: 8_000 };
    assert!(!collided(&a, &c));
}

#[test]
fn pair_spanning_many_cells_is_reported_once() {
    // both circles span several 50_000-milli grid cells and overlap
    let mut sh = new_spatial_hash();
    sh.insert_enemy(Circle { x: 60_000, y: 60_000, r: 67_500 });
    sh.insert_missile(Circle { x: 65_000, y: 65_000, r: 60_000 });
    let pairs = sh.enemy_missile_collisions();
    assert_eq!(pairs.len(), 1);
    assert_eq!(pairs[0], (0, 0));
}

#[test]
fn non_overlapping_pair_is_not_reported() {
    let mut sh = new_spatial_hash();
    sh.insert_enemy(Circle { x: 0, y: 0, r: 5_000 });
    sh.insert_missile(Circle { x: 600_000, y: 600_000, r: 5_000 });
    let pairs = sh.enemy_missile_collisions();
    assert_eq!(pairs.len(), 0);
}

#[test]
fn dead_ships_produce_no_pairs() {
    let mut sh = new_spatial_hash();
    sh.insert_enemy(Circle { x: 0, y: 0, r: 40_000 });
    sh.insert_ship(Circle { x: 1_000, y: 1_000, r: 45_000 }, false);
    assert_eq!(sh.ship_enemy_collisions().len(), 0);
    sh.insert_ship(Circle { x: 1_000, y: 1_000, r: 45_000 }, true);
    let pairs = sh.ship_enemy_collisions();
    assert_eq!(pairs.len(), 1);
    assert_eq!(pairs[0], (1, 0));
}
