//! Ship physics, death, the kick delay, and screen wrapping through updates.

use yarnballs::ship::{spawn_at, Ships};

#[test]
fn thrust_moves_then_friction_decays() {
    let mut ships = Ships::init();
    ships.spawn_at("p".to_string(), None, 0);
    ships.thrust_at("p".to_string(), 0);
    assert_eq!(ships.entities[0].vel_x, 20_000);
    // one second later: the position advanced by the pre-friction velocity,
    // then five percent of it drained away
    ships.update(1000);
    assert_eq!(ships.entities[0].x, 20_000);
    assert_eq!(ships.entities[0].vel_x, 19_000);
    // thrusting has lapsed 50 ms after the impulse
    assert!(!ships.entities[0].thrusting);
}

#[test]
fn ship_position_wraps_around_the_screen() {
    let mut ships = Ships::init();
    ships.spawn_at("p".to_string(), None, 0);
    {
        let s = &mut ships.entities[0];
        s.x = 590_000;
        s.vel_x = 100_000;
    }
    // 0.1 s at 100 units/s: 590 + 10 units passes the wrap point at 595
    // and reappears five units into the left band
    ships.update(100);
    assert_eq!(ships.entities[0].x, -40_000);
}

#[test]
fn turning_spins_the_facing_angle() {
    let mut ships = Ships::init();
    ships.spawn_at("p".to_string(), None, 0);
    ships.turn("p".to_string(), true);
    // 300 degrees per second for half a second
    ships.update(500);
    assert_eq!(ships.entities[0].angle, 150_000);
    // turn friction keeps only five percent per tick
    assert_eq!(ships.entities[0].vel_angle, 15_000);
}

#[test]
fn health_recharges_a_little_each_tick() {
    let mut ships = Ships::init();
    ships.spawn_at("p".to_string(), None, 0);
    ships.entities[0].health = 50_000;
    ships.update(100);
    assert_eq!(ships.entities[0].health, 50_005);
}

#[test]
fn dead_ship_is_kicked_after_the_delay() {
    let mut ships = Ships::init();
    ships.spawn_at("p".to_string(), None, 0);
    ships.entities[0].health = 0;
    // dies on this tick with a score penalty floored at zero
    ships.update(0);
    assert!(ships.entities[0].is_dead());
    assert_eq!(ships.entities[0].score, 0);
    assert_eq!(ships.entities.len(), 1);
    // fifteen minutes later it is flagged, and the following pass purges it
    ships.update(900_001);
    assert!(ships.entities[0].remove);
    assert_eq!(ships.entities.len(), 1);
    ships.update(900_001);
    assert_eq!(ships.entities.len(), 0);
}

#[test]
fn respawn_is_only_honored_while_dead() {
    let mut ships = Ships::init();
    ships.spawn_at("p".to_string(), None, 0);
    ships.entities[0].health = 30_000;
    ships.respawn("p".to_string());
    // a live ship is untouched
    assert_eq!(ships.entities[0].health, 30_000);
    ships.entities[0].health = 0;
    ships.update(0);
    assert!(ships.entities[0].is_dead());
    ships.respawn("p".to_string());
    assert!(!ships.entities[0].is_dead());
    assert_eq!(ships.entities[0].health, 100_000);
}

#[test]
fn fresh_ship_has_the_documented_defaults() {
    let s = spawn_at("p".to_string(), Some("name".to_string()), 7);
    assert_eq!(s.x, 0);
    assert_eq!(s.y, 0);
    assert_eq!(s.health, 100_000);
    assert_eq!(s.score, 0);
    assert_eq!(s.angle, 0);
    assert!(!s.is_dead());
    assert!(!s.remove);
    assert_eq!(s.updated_at, 7);
}
