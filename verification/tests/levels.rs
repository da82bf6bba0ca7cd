//! The score-driven difficulty ladder.

use yarnballs::spawn::{level_spawners, SpawnerKind};
use yarnballs::state::State;

#[test]
fn score_fourteen_is_level_zero_with_a_few_bouncers() {
    let (level, bracket, set) = level_spawners(14);
    assert_eq!(level, 0);
    assert_eq!(bracket, (0, Some(15)));
    assert_eq!(set.len(), 1);
    assert_eq!(set[0].kind, SpawnerKind::Bouncers);
    assert_eq!(set[0].limit, 5);
    assert_eq!(set[0].interval, 1000);
}

#[test]
fn score_fifteen_is_level_one_with_a_few_rocks() {
    let (level, bracket, set) = level_spawners(15);
    assert_eq!(level, 1);
    assert_eq!(bracket, (15, Some(30)));
    assert_eq!(set.len(), 1);
    assert_eq!(set[0].kind, SpawnerKind::Rocks);
    assert_eq!(set[0].limit, 5);
    assert_eq!(set[0].interval, 1000);
}

#[test]
fn score_five_thousand_is_the_terminal_overbounce_level() {
    for score in [5000i64, 5001, 1_000_000] {
        let (level, bracket, set) = level_spawners(score);
        assert_eq!(level, 12);
        assert_eq!(bracket, (5000, None));
        assert_eq!(set.len(), 1);
        assert_eq!(set[0].kind, SpawnerKind::Bouncers);
        assert_eq!(set[0].limit, 500);
        assert_eq!(set[0].interval, 50);
    }
}

#[test]
fn every_threshold_steps_the_level() {
    let thresholds = [15i64, 30, 60, 90, 120, 200, 280, 330, 430, 1000, 2000, 5000];
    for (k, t) in thresholds.iter().enumerate() {
        assert_eq!(level_spawners(t - 1).0 as usize, k);
        assert_eq!(level_spawners(*t).0 as usize, k + 1);
    }
}

#[test]
fn state_level_follows_total_score() {
    let mut state = State::init();
    state.spawn_ship_at("a".to_string(), None, 0);
    state.ships.increase_score("a".to_string(), 14);
    assert_eq!(state.total_score(), 14);
    assert_eq!(state.level(), 0);
    assert_eq!(state.next_level_score(), (0, Some(15)));
    state.ships.increase_score("a".to_string(), 1);
    assert_eq!(state.total_score(), 15);
    assert_eq!(state.level(), 1);
    assert_eq!(state.next_level_score(), (15, Some(30)));
    state.ships.increase_score("a".to_string(), 4985);
    assert_eq!(state.level(), 12);
}

#[test]
fn total_score_sums_all_ships() {
    let mut state = State::init();
    state.spawn_ship_at("a".to_string(), None, 0);
    state.spawn_ship_at("b".to_string(), None, 0);
    state.ships.increase_score("a".to_string(), 10);
    state.ships.increase_score("b".to_string(), 32);
    assert_eq!(state.total_score(), 42);
}
