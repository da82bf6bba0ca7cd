//! Per-shooter scoring from enemy-missile collision pairs.

use yarnballs::missile::{Missile, Missiles};
use yarnballs::state::State;

fn missile(shooter: &str, id: (u64, u64)) -> Missile {
    Missile::spawn_at(shooter.to_string(), 0, 0, 0, 0, id)
}

#[test]
fn n_distinct_hits_score_n_points() {
    let mut state = State::init();
    state.spawn_ship_at("a".to_string(), None, 0);
    state.spawn_ship_at("b".to_string(), None, 0);
    state.missiles.add(missile("a", (1, 1)));
    state.missiles.add(missile("a", (2, 2)));
    state.missiles.add(missile("a", (3, 3)));
    state.missiles.add(missile("b", (4, 4)));
    // three of shooter a's missiles each hit a distinct enemy in this tick
    let emcs = vec![((10, 0), (1, 1)), ((11, 0), (2, 2)), ((12, 0), (3, 3))];
    state.apply_enemy_missile_collisions(emcs);
    assert_eq!(state.ships.entities[0].id, "a");
    assert_eq!(state.ships.entities[0].score, 3);
    assert_eq!(state.ships.entities[1].id, "b");
    assert_eq!(state.ships.entities[1].score, 0);
}

#[test]
fn one_missile_hitting_two_enemies_scores_once() {
    let mut state = State::init();
    state.spawn_ship_at("a".to_string(), None, 0);
    state.missiles.add(missile("a", (1, 1)));
    let emcs = vec![((10, 0), (1, 1)), ((11, 0), (1, 1))];
    state.apply_enemy_missile_collisions(emcs);
    assert_eq!(state.ships.entities[0].score, 1);
}

#[test]
fn pairs_mark_both_sides_for_removal() {
    let mut state = State::init();
    state.missiles.add(missile("a", (1, 1)));
    state.missiles.add(missile("a", (2, 2)));
    let emcs = vec![((10, 0), (1, 1))];
    state.apply_enemy_missile_collisions(emcs);
    state.missiles.update(0);
    assert_eq!(state.missiles.entities.len(), 1);
    assert_eq!(state.missiles.entities[0].id, (2, 2));
}

#[test]
fn shooter_counts_tallies_per_shooter() {
    let mut ms = Missiles::init();
    ms.add(missile("a", (1, 1)));
    ms.add(missile("a", (2, 2)));
    ms.add(missile("b", (3, 3)));
    ms.add(missile("c", (4, 4)));
    let ids = vec![(1, 1), (2, 2), (3, 3)];
    let counts = ms.shooter_counts(&ids);
    assert_eq!(counts.len(), 2);
    for (name, c) in &counts {
        match name.as_str() {
            "a" => assert_eq!(*c, 2),
            "b" => assert_eq!(*c, 1),
            other => panic!("unexpected shooter {}", other),
        }
    }
}
