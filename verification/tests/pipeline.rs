//! End-to-end ticks through the whole state orchestrator.

use yarnballs::enemy::bouncer::Bouncer;
use yarnballs::enemy::rock::Rock;
use yarnballs::enemy::Enemy;
use yarnballs::state::State;

/// A stationary bouncer whose top-left corner is at `(x, y)`.
fn bouncer_at(x: i64, y: i64) -> Enemy {
    Enemy::Bouncer(Bouncer { id: (7, 7), updated_at: 0, x, y, vel_x: 0, vel_y: 0 })
}

/// A stationary rock whose top-left corner is at `(x, y)`.
fn rock_at(x: i64, y: i64, scale: i64) -> Enemy {
    Enemy::Rock(Rock { id: (8, 8), updated_at: 0, x, y, vel_x: 0, vel_y: 0, scale })
}

#[test]
fn missile_destroys_overlapping_enemy_and_scores() {
    let mut state = State::init();
    state.spawn_ship_at("p".to_string(), None, 0);
    // a ship at the origin facing angle zero fires from (46, 45) units;
    // place a bouncer whose circle center coincides with the missile's
    state.add_enemy(bouncer_at(51_000 - 38_400, 50_000 - 38_400));
    state.fire_missile_or_respawn("p".to_string());
    assert_eq!(state.missiles.entities.len(), 1);
    assert_eq!(state.enemies.entities.len(), 1);

    // the collision is found and applied on this tick
    state.update_at(0);
    assert_eq!(state.ships.entities[0].score, 1);
    assert_eq!(state.total_score(), 1);

    // the involved missile and enemy are gone on the next tick, replaced by
    // an explosion
    state.update_at(0);
    assert_eq!(state.missiles.entities.len(), 0);
    assert_eq!(state.enemies.entities.len(), 0);
    assert_eq!(state.enemies.explosions.entities.len(), 1);
    // the score is counted exactly once
    assert_eq!(state.ships.entities[0].score, 1);
}

#[test]
fn missile_destroys_large_rock_into_children() {
    let mut state = State::init();
    state.spawn_ship_at("p".to_string(), None, 0);
    state.add_enemy(rock_at(51_000 - 67_500, 50_000 - 67_500, 1500));
    state.fire_missile_or_respawn("p".to_string());
    state.update_at(0);
    assert_eq!(state.ships.entities[0].score, 1);
    state.update_at(0);
    // four half-scale children replace the rock, plus one explosion
    assert_eq!(state.missiles.entities.len(), 0);
    assert_eq!(state.enemies.entities.len(), 4);
    for e in &state.enemies.entities {
        match e {
            Enemy::Rock(c) => assert_eq!(c.scale, 750),
            Enemy::Bouncer(_) => panic!("expected rock children"),
        }
    }
    assert_eq!(state.enemies.explosions.entities.len(), 1);
}

#[test]
fn zero_health_ship_dies_and_respawns_on_fire() {
    let mut state = State::init();
    state.spawn_ship_at("p".to_string(), None, 0);
    let rock = rock_at(0, 0, 1500);
    // fourteen full-size rock hits drain 100 health at 7.5 each
    for _ in 0..14 {
        state.ships.collide_with("p".to_string(), &rock);
    }
    assert_eq!(state.ships.entities[0].health, 0);
    assert!(!state.ships.entities[0].is_dead());

    // the next tick marks the ship dead but keeps it in the collection
    state.update_at(0);
    assert_eq!(state.ships.entities.len(), 1);
    assert!(state.ships.entities[0].is_dead());

    // firing while dead respawns at full health instead of shooting
    state.fire_missile_or_respawn("p".to_string());
    assert_eq!(state.missiles.entities.len(), 0);
    assert!(!state.ships.entities[0].is_dead());
    assert_eq!(state.ships.entities[0].health, 100_000);
}

#[test]
fn dead_ships_are_excluded_from_enemy_collisions() {
    let mut state = State::init();
    state.spawn_ship_at("p".to_string(), None, 0);
    let rock = rock_at(0, 0, 1500);
    for _ in 0..14 {
        state.ships.collide_with("p".to_string(), &rock);
    }
    state.update_at(0);
    assert!(state.ships.entities[0].is_dead());
    let vel_before = (state.ships.entities[0].vel_x, state.ships.entities[0].vel_y);
    // an overlapping bouncer knocks live ships back hard, but not dead ones
    state.add_enemy(bouncer_at(0, 0));
    state.update_collisions();
    let vel_after = (state.ships.entities[0].vel_x, state.ships.entities[0].vel_y);
    assert_eq!(vel_before, vel_after);
}

#[test]
fn bouncer_knockback_deals_no_damage() {
    let mut state = State::init();
    state.spawn_ship_at("p".to_string(), None, 0);
    state.add_enemy(bouncer_at(20_000, 0));
    state.update_collisions();
    let s = &state.ships.entities[0];
    // full knockback speed away from the bouncer, no health loss
    assert_eq!(s.health, 100_000);
    assert!(s.vel_x < 0);
    assert_eq!(
        s.vel_x * s.vel_x + s.vel_y * s.vel_y <= 1_000_000i64 * 1_000_000,
        true
    );
}

#[test]
fn spawn_ship_overwrites_same_id() {
    let mut state = State::init();
    state.spawn_ship_at("p".to_string(), None, 0);
    state.ships.increase_score("p".to_string(), 10);
    state.spawn_ship_at("p".to_string(), Some("again".to_string()), 5);
    assert_eq!(state.ships.entities.len(), 1);
    assert_eq!(state.ships.entities[0].score, 0);
    assert_eq!(state.ships.entities[0].name, Some("again".to_string()));
}

#[test]
fn remove_ship_deletes_immediately() {
    let mut state = State::init();
    state.spawn_ship_at("p".to_string(), None, 0);
    state.spawn_ship_at("q".to_string(), None, 0);
    state.remove_ship(&"p".to_string());
    assert_eq!(state.ships.entities.len(), 1);
    assert_eq!(state.ships.entities[0].id, "q");
}

#[test]
fn turn_and_thrust_adjust_velocities() {
    let mut state = State::init();
    state.spawn_ship_at("p".to_string(), None, 0);
    state.turn_ship("p".to_string(), true);
    assert_eq!(state.ships.entities[0].vel_angle, 300_000);
    state.turn_ship("p".to_string(), false);
    assert_eq!(state.ships.entities[0].vel_angle, 0);
    // thrust along angle zero accelerates straight along x
    state.thrust_ship_at("p".to_string(), 0);
    assert_eq!(state.ships.entities[0].vel_x, 20_000);
    assert_eq!(state.ships.entities[0].vel_y, 0);
}

#[test]
fn unknown_ids_are_silent_no_ops() {
    let mut state = State::init();
    state.spawn_ship_at("p".to_string(), None, 0);
    state.turn_ship("ghost".to_string(), true);
    state.thrust_ship_at("ghost".to_string(), 0);
    state.fire_missile_or_respawn("ghost".to_string());
    state.remove_ship(&"ghost".to_string());
    assert_eq!(state.ships.entities.len(), 1);
    assert_eq!(state.missiles.entities.len(), 0);
    assert_eq!(state.ships.entities[0].vel_angle, 0);
}
