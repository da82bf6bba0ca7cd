//! Lifespan countdowns and pruning for missiles and explosions.

use yarnballs::explosion::{Explosion, Explosions};
use yarnballs::missile::{Missile, Missiles};

#[test]
fn missile_lifespan_strictly_decreases_then_prunes() {
    let mut ms = Missiles::init();
    ms.add(Missile::spawn_at("s".to_string(), 0, 0, 0, 1000, (1, 1)));
    assert_eq!(ms.entities[0].lifespan, 1000);

    ms.update(1400);
    assert_eq!(ms.entities.len(), 1);
    assert_eq!(ms.entities[0].lifespan, 600);

    ms.update(1900);
    assert_eq!(ms.entities[0].lifespan, 100);

    // still positive before this tick, so it survives the prune and then
    // goes negative
    ms.update(2100);
    assert_eq!(ms.entities.len(), 1);
    assert_eq!(ms.entities[0].lifespan, -100);

    // the first tick it enters with lifespan <= 0 it is pruned
    ms.update(2100);
    assert_eq!(ms.entities.len(), 0);
}

#[test]
fn marked_missiles_are_pruned_on_the_next_update() {
    let mut ms = Missiles::init();
    ms.add(Missile::spawn_at("s".to_string(), 0, 0, 0, 1000, (1, 1)));
    ms.add(Missile::spawn_at("s".to_string(), 0, 0, 0, 1000, (2, 2)));
    ms.remove(vec![(1, 1)]);
    // marking alone removes nothing
    assert_eq!(ms.entities.len(), 2);
    ms.update(1000);
    assert_eq!(ms.entities.len(), 1);
    assert_eq!(ms.entities[0].id, (2, 2));
    // marks are cleared after the update
    ms.update(1000);
    assert_eq!(ms.entities.len(), 1);
}

#[test]
fn missile_moves_at_its_velocity() {
    let mut ms = Missiles::init();
    // fired along angle 0: velocity (500_000, 0) milli-units per second
    ms.add(Missile::spawn_at("s".to_string(), 10_000, 20_000, 0, 1000, (1, 1)));
    ms.update(1500);
    assert_eq!(ms.entities[0].x, 10_000 + 250_000);
    assert_eq!(ms.entities[0].y, 20_000);
}

#[test]
fn explosion_lifespan_strictly_decreases_then_prunes() {
    let mut xs = Explosions::init();
    xs.add(Explosion::spawn_at(5_000, 6_000, 76_800, 1000, "x".to_string()));
    xs.update(1600);
    assert_eq!(xs.entities.len(), 1);
    assert_eq!(xs.entities[0].lifespan, 400);
    xs.update(2300);
    assert_eq!(xs.entities.len(), 1);
    assert_eq!(xs.entities[0].lifespan, -300);
    xs.update(2300);
    assert_eq!(xs.entities.len(), 0);
}

#[test]
fn duplicate_missile_ids_are_not_admitted() {
    // entity ids are unique within their collection: a second missile
    // under a taken id is dropped
    let mut ms = Missiles::init();
    ms.add(Missile::spawn_at("s".to_string(), 0, 0, 0, 1000, (1, 1)));
    ms.add(Missile::spawn_at("t".to_string(), 0, 0, 0, 1000, (1, 1)));
    assert_eq!(ms.entities.len(), 1);
    assert_eq!(ms.entities[0].shooter_id, "s");
}

#[test]
fn fresh_uuid_string_has_hyphenated_length() {
    let e = Explosion::spawn(0, 0, 100);
    assert_eq!(e.id.len(), 36);
}
