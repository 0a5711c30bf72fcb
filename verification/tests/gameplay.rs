use multiplayer_core::init::init;
use multiplayer_core::input::update_player_input;
use multiplayer_core::session::register_player;
use multiplayer_core::store::GameState;
use multiplayer_core::tick::game_tick;
use multiplayer_core::types::{GameError, GameTickSchedule, InputState, PlayerData, Vector3};
use multiplayer_core::votes::{reset_votes, submit_vote};

const P: u64 = 2;
const Q: u64 = 3;

fn player<'a>(s: &'a GameState, id: u64) -> Option<&'a PlayerData> {
    s.players.iter().find(|p| p.identity == id)
}

fn idle_input(sequence: u32) -> InputState {
    InputState { forward: false, backward: false, left: false, right: false, sprint: false,
        jump: false, attack: false, cast_spell: false, sequence }
}

fn zero() -> Vector3 {
    Vector3 { x: 0, y: 0, z: 0 }
}

#[test]
fn vote_round_trip() {
    let mut s = GameState::new();
    register_player(&mut s, P, 0, "a".to_string(), "mage".to_string(), "r".to_string()).unwrap();
    assert!(submit_vote(&mut s, P, "XL".to_string()).is_ok());
    let p = player(&s, P).unwrap();
    assert!(p.has_voted);
    assert_eq!(p.current_vote, "XL");
    assert_eq!(submit_vote(&mut s, P, "Z".to_string()), Err(GameError::InvalidVote));
    let p = player(&s, P).unwrap();
    assert!(p.has_voted);
    assert_eq!(p.current_vote, "XL");
    assert!(reset_votes(&mut s).is_ok());
    let p = player(&s, P).unwrap();
    assert!(!p.has_voted);
    assert_eq!(p.current_vote, "");
}

#[test]
fn every_vote_token_is_accepted() {
    let mut s = GameState::new();
    register_player(&mut s, P, 0, "a".to_string(), "mage".to_string(), "r".to_string()).unwrap();
    for v in ["S", "M", "L", "XL"] {
        assert!(submit_vote(&mut s, P, v.to_string()).is_ok());
        assert_eq!(player(&s, P).unwrap().current_vote, v);
    }
}

#[test]
fn vote_without_row_fails() {
    let mut s = GameState::new();
    assert_eq!(submit_vote(&mut s, Q, "S".to_string()), Err(GameError::PlayerNotFound));
}

#[test]
fn reset_votes_clears_everyone() {
    let mut s = GameState::new();
    register_player(&mut s, P, 0, "a".to_string(), "mage".to_string(), "r".to_string()).unwrap();
    register_player(&mut s, Q, 0, "b".to_string(), "rogue".to_string(), "r".to_string()).unwrap();
    submit_vote(&mut s, P, "S".to_string()).unwrap();
    submit_vote(&mut s, Q, "M".to_string()).unwrap();
    reset_votes(&mut s).unwrap();
    assert!(s.players.iter().all(|p| !p.has_voted && p.current_vote.is_empty()));
}

#[test]
fn input_updates_flags_and_sequence() {
    let mut s = GameState::new();
    register_player(&mut s, P, 0, "a".to_string(), "mage".to_string(), "r".to_string()).unwrap();
    let input = InputState { forward: true, backward: false, left: true, right: false,
        sprint: true, jump: false, attack: true, cast_spell: false, sequence: 7 };
    let rot = Vector3 { x: 0, y: 900, z: 0 };
    update_player_input(&mut s, P, input, zero(), rot, "run".to_string());
    let p = player(&s, P).unwrap();
    assert!(p.is_moving && p.is_running && p.is_attacking && !p.is_casting);
    assert_eq!(p.rotation, rot);
    assert_eq!(p.current_animation, "run");
    assert_eq!(p.last_input_seq, 7);
    assert_eq!(p.input, input);
}

#[test]
fn stale_input_changes_nothing() {
    let mut s = GameState::new();
    register_player(&mut s, P, 0, "a".to_string(), "mage".to_string(), "r".to_string()).unwrap();
    let mut fresh = idle_input(5);
    fresh.forward = true;
    update_player_input(&mut s, P, fresh, zero(), zero(), "run".to_string());
    let before = player(&s, P).unwrap().clone();
    // Same sequence number: rejected.
    let mut stale = idle_input(5);
    stale.attack = true;
    update_player_input(&mut s, P, stale, zero(), Vector3 { x: 1, y: 2, z: 3 },
        "attack".to_string());
    let after = player(&s, P).unwrap();
    assert_eq!(after.last_input_seq, before.last_input_seq);
    assert_eq!(after.is_attacking, before.is_attacking);
    assert_eq!(after.is_moving, before.is_moving);
    assert_eq!(after.rotation, before.rotation);
    assert_eq!(after.current_animation, before.current_animation);
    assert_eq!(after.input, before.input);
}

#[test]
fn input_for_inactive_identity_is_ignored() {
    let mut s = GameState::new();
    update_player_input(&mut s, Q, idle_input(1), zero(), zero(), "idle".to_string());
    assert!(s.players.is_empty());
}

#[test]
fn tick_moves_running_player() {
    let mut s = GameState::new();
    register_player(&mut s, P, 0, "a".to_string(), "mage".to_string(), "r".to_string()).unwrap();
    let mut input = idle_input(1);
    input.forward = true;
    input.sprint = true;
    update_player_input(&mut s, P, input, zero(), zero(), "run".to_string());
    let start = player(&s, P).unwrap().position;
    let tick = GameTickSchedule { scheduled_id: 1, interval_micros: 1_000_000 };
    game_tick(&mut s, tick);
    let p = player(&s, P).unwrap();
    // One running step forward: four world units, in thousandths.
    assert_eq!(p.position, Vector3 { x: start.x, y: start.y, z: start.z + 4000 });
    game_tick(&mut s, tick);
    assert_eq!(player(&s, P).unwrap().position.z, start.z + 8000);
}

#[test]
fn tick_walks_slower_than_run() {
    let mut s = GameState::new();
    register_player(&mut s, P, 0, "a".to_string(), "mage".to_string(), "r".to_string()).unwrap();
    let mut input = idle_input(1);
    input.right = true;
    update_player_input(&mut s, P, input, zero(), zero(), "walk".to_string());
    let start = player(&s, P).unwrap().position;
    game_tick(&mut s, GameTickSchedule { scheduled_id: 1, interval_micros: 1_000_000 });
    let p = player(&s, P).unwrap();
    assert_eq!(p.position, Vector3 { x: start.x + 2000, y: start.y, z: start.z });
}

#[test]
fn tick_leaves_standing_player() {
    let mut s = GameState::new();
    register_player(&mut s, P, 0, "a".to_string(), "mage".to_string(), "r".to_string()).unwrap();
    let start = player(&s, P).unwrap().position;
    game_tick(&mut s, GameTickSchedule { scheduled_id: 1, interval_micros: 1_000_000 });
    assert_eq!(player(&s, P).unwrap().position, start);
}

#[test]
fn init_seeds_schedule_and_tiles_once() {
    let mut s = GameState::new();
    assert!(init(&mut s).is_ok());
    assert_eq!(s.schedules.len(), 1);
    assert_eq!(s.schedules[0].interval_micros, 1_000_000);
    assert_eq!(s.tiles.len(), 41 * 41);
    // Row-major grid from the corner, one-based identifiers, ten-unit pitch.
    assert_eq!(s.tiles[0].tile_id, 1);
    assert_eq!(s.tiles[0].position, Vector3 { x: -200000, y: 0, z: -200000 });
    assert_eq!(s.tiles[0].size, Vector3 { x: 10000, y: 1000, z: 10000 });
    assert_eq!(s.tiles[1].position, Vector3 { x: -200000, y: 0, z: -190000 });
    assert_eq!(s.tiles[41].position, Vector3 { x: -190000, y: 0, z: -200000 });
    let last = s.tiles.last().unwrap();
    assert_eq!(last.tile_id, 1681);
    assert_eq!(last.position, Vector3 { x: 200000, y: 0, z: 200000 });
    // Re-running changes nothing.
    let tiles_before = s.tiles.len();
    assert!(init(&mut s).is_ok());
    assert_eq!(s.schedules.len(), 1);
    assert_eq!(s.tiles.len(), tiles_before);
}
