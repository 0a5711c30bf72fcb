use multiplayer_core::input::update_player_input;
use multiplayer_core::rooms::create_room;
use multiplayer_core::session::{identity_connected, identity_disconnected, register_player};
use multiplayer_core::store::GameState;
use multiplayer_core::types::{InputState, PlayerData, Vector3};

const OWNER: u64 = 1;
const P: u64 = 2;
const Q: u64 = 3;

fn room<'a>(s: &'a GameState, name: &str) -> Option<&'a multiplayer_core::types::Room> {
    s.rooms.iter().find(|r| r.name == name)
}

fn player<'a>(s: &'a GameState, id: u64) -> Option<&'a PlayerData> {
    s.players.iter().find(|p| p.identity == id)
}

fn input_seq(sequence: u32) -> InputState {
    InputState { forward: true, backward: false, left: false, right: false, sprint: false,
        jump: false, attack: false, cast_spell: false, sequence }
}

#[test]
fn register_creates_room_and_spawns() {
    let mut s = GameState::new();
    register_player(&mut s, P, 5, "alice".to_string(), "mage".to_string(), "r1".to_string())
        .unwrap();
    let r = room(&s, "r1").expect("implicitly created");
    assert_eq!(r.owner_identity, P);
    assert_eq!(r.current_player_count, 1);
    assert_eq!(r.created_at, 5);
    let p = player(&s, P).expect("active row");
    assert_eq!(p.username, "alice");
    assert_eq!(p.character_class, "mage");
    // First spawn: palette slot zero, offset -2.5 units on x, 1 unit up.
    assert_eq!(p.color, "cyan");
    assert_eq!(p.position, Vector3 { x: -2500, y: 1000, z: 0 });
    assert_eq!(p.rotation, Vector3 { x: 0, y: 0, z: 0 });
    assert_eq!(p.current_animation, "idle");
    assert!(!p.is_moving && !p.is_running && !p.is_attacking && !p.is_casting);
    assert_eq!(p.last_input_seq, 0);
    assert!(!p.has_voted);
    assert_eq!(p.current_vote, "");
}

#[test]
fn spawn_policy_follows_player_count() {
    let mut s = GameState::new();
    register_player(&mut s, P, 0, "a".to_string(), "mage".to_string(), "r".to_string()).unwrap();
    register_player(&mut s, Q, 0, "b".to_string(), "rogue".to_string(), "r".to_string()).unwrap();
    let q = player(&s, Q).unwrap();
    assert_eq!(q.color, "magenta");
    assert_eq!(q.position, Vector3 { x: 2500, y: 1000, z: 0 });
    assert_eq!(room(&s, "r").unwrap().current_player_count, 2);
}

#[test]
fn palette_wraps_after_six_players() {
    let mut s = GameState::new();
    for id in 0..7u64 {
        register_player(&mut s, 100 + id, 0, format!("p{}", id), "mage".to_string(),
            "r".to_string())
            .unwrap();
    }
    let colors: Vec<&str> =
        ["cyan", "magenta", "yellow", "lightgreen", "white", "orange", "cyan"].to_vec();
    for id in 0..7u64 {
        assert_eq!(player(&s, 100 + id).unwrap().color, colors[id as usize]);
    }
    let seventh = player(&s, 106).unwrap();
    assert_eq!(seventh.position, Vector3 { x: 6 * 5000 - 2500, y: 1000, z: 0 });
    assert_eq!(room(&s, "r").unwrap().current_player_count, 7);
}

#[test]
fn register_twice_moves_without_duplicating() {
    let mut s = GameState::new();
    register_player(&mut s, P, 0, "a".to_string(), "mage".to_string(), "r1".to_string()).unwrap();
    let before = player(&s, P).unwrap().clone();
    register_player(&mut s, P, 1, "ignored".to_string(), "ignored".to_string(), "r2".to_string())
        .unwrap();
    assert_eq!(s.players.len(), 1);
    let after = player(&s, P).unwrap();
    assert_eq!(after.room_name, "r2");
    assert!(!after.has_voted);
    assert_eq!(after.current_vote, "");
    // Nothing but room and vote state moved.
    assert_eq!(after.username, before.username);
    assert_eq!(after.character_class, before.character_class);
    assert_eq!(after.position, before.position);
    assert_eq!(after.rotation, before.rotation);
    assert_eq!(after.color, before.color);
    assert_eq!(after.last_input_seq, before.last_input_seq);
    assert_eq!(room(&s, "r2").unwrap().current_player_count, 1);
    // "r1" stays: its owner emptied it.
    assert_eq!(room(&s, "r1").unwrap().current_player_count, 0);
}

#[test]
fn connect_is_presence_only() {
    let mut s = GameState::new();
    register_player(&mut s, P, 0, "a".to_string(), "mage".to_string(), "r1".to_string()).unwrap();
    identity_connected(&mut s, P);
    identity_connected(&mut s, Q);
    assert_eq!(s.players.len(), 1);
    assert_eq!(s.logged_out.len(), 0);
    assert_eq!(s.rooms.len(), 1);
}

#[test]
fn disconnect_snapshots_player() {
    let mut s = GameState::new();
    create_room(&mut s, OWNER, 0, "r1".to_string()).unwrap();
    register_player(&mut s, P, 0, "a".to_string(), "mage".to_string(), "r1".to_string()).unwrap();
    identity_disconnected(&mut s, P, 42);
    assert!(player(&s, P).is_none());
    let lo = s.logged_out.iter().find(|l| l.identity == P).expect("snapshot");
    assert_eq!(lo.username, "a");
    assert_eq!(lo.character_class, "mage");
    assert_eq!(lo.last_seen, 42);
    // "r1" was emptied and P does not own it: destroyed.
    assert!(room(&s, "r1").is_none());
}

#[test]
fn disconnect_keeps_own_empty_room() {
    let mut s = GameState::new();
    register_player(&mut s, P, 0, "a".to_string(), "mage".to_string(), "mine".to_string())
        .unwrap();
    identity_disconnected(&mut s, P, 7);
    let r = room(&s, "mine").expect("owner-held rooms persist");
    assert_eq!(r.current_player_count, 0);
}

#[test]
fn repeated_disconnect_refreshes_stamp() {
    let mut s = GameState::new();
    register_player(&mut s, P, 0, "a".to_string(), "mage".to_string(), "r1".to_string()).unwrap();
    identity_disconnected(&mut s, P, 10);
    identity_disconnected(&mut s, P, 20);
    assert_eq!(s.logged_out.len(), 1);
    assert_eq!(s.logged_out[0].last_seen, 20);
}

#[test]
fn disconnect_of_unknown_identity_is_ignored() {
    let mut s = GameState::new();
    identity_disconnected(&mut s, Q, 9);
    assert!(s.players.is_empty());
    assert!(s.logged_out.is_empty());
    assert!(s.rooms.is_empty());
}

#[test]
fn rejoin_promotes_snapshot() {
    let mut s = GameState::new();
    register_player(&mut s, P, 0, "alice".to_string(), "mage".to_string(), "r1".to_string())
        .unwrap();
    let rot = Vector3 { x: 0, y: 1500, z: 0 };
    update_player_input(&mut s, P, input_seq(1), Vector3 { x: 0, y: 0, z: 0 }, rot,
        "run".to_string());
    identity_disconnected(&mut s, P, 50);
    register_player(&mut s, P, 60, "other".to_string(), "rogue".to_string(), "r2".to_string())
        .unwrap();
    assert!(s.logged_out.is_empty());
    let p = player(&s, P).expect("promoted back");
    // Username, class and rotation come from the snapshot, not the call.
    assert_eq!(p.username, "alice");
    assert_eq!(p.character_class, "mage");
    assert_eq!(p.rotation, rot);
    // Position and color follow the fresh-spawn policy again.
    assert_eq!(p.position, Vector3 { x: -2500, y: 1000, z: 0 });
    assert_eq!(p.color, "cyan");
    assert_eq!(p.room_name, "r2");
    assert_eq!(room(&s, "r2").unwrap().current_player_count, 1);
}
