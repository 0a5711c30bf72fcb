use multiplayer_core::rooms::{configure_room, create_room, join_room, leave_room};
use multiplayer_core::session::register_player;
use multiplayer_core::store::GameState;
use multiplayer_core::types::{GameError, MAX_PLAYERS_PER_ROOM};

const OWNER: u64 = 1;
const PLAYER: u64 = 2;
const OTHER: u64 = 3;

fn room<'a>(s: &'a GameState, name: &str) -> Option<&'a multiplayer_core::types::Room> {
    s.rooms.iter().find(|r| r.name == name)
}

#[test]
fn create_room_sets_defaults() {
    let mut s = GameState::new();
    assert!(create_room(&mut s, OWNER, 77, "arena".to_string()).is_ok());
    let r = room(&s, "arena").expect("room exists");
    assert_eq!(r.password, None);
    assert_eq!(r.max_players, MAX_PLAYERS_PER_ROOM);
    assert_eq!(r.current_player_count, 0);
    assert_eq!(r.created_at, 77);
    assert_eq!(r.owner_identity, OWNER);
}

#[test]
fn create_room_rejects_taken_name() {
    let mut s = GameState::new();
    assert!(create_room(&mut s, OWNER, 0, "arena".to_string()).is_ok());
    assert_eq!(
        create_room(&mut s, OTHER, 1, "arena".to_string()),
        Err(GameError::RoomAlreadyExists)
    );
    assert_eq!(s.rooms.len(), 1);
}

#[test]
fn join_counts_one_occupant() {
    let mut s = GameState::new();
    assert!(create_room(&mut s, OWNER, 0, "arena".to_string()).is_ok());
    register_player(&mut s, PLAYER, 1, "p".to_string(), "mage".to_string(), "lobby".to_string())
        .unwrap();
    assert!(join_room(&mut s, PLAYER, "arena".to_string(), "".to_string()).is_ok());
    assert_eq!(room(&s, "arena").unwrap().current_player_count, 1);
}

#[test]
fn join_requires_registration() {
    let mut s = GameState::new();
    assert!(create_room(&mut s, OWNER, 0, "arena".to_string()).is_ok());
    assert_eq!(
        join_room(&mut s, PLAYER, "arena".to_string(), "".to_string()),
        Err(GameError::PlayerNotRegistered)
    );
    assert_eq!(room(&s, "arena").unwrap().current_player_count, 0);
}

#[test]
fn join_missing_room_fails() {
    let mut s = GameState::new();
    assert_eq!(
        join_room(&mut s, PLAYER, "nowhere".to_string(), "".to_string()),
        Err(GameError::RoomNotFound)
    );
}

#[test]
fn join_checks_password_by_exact_match() {
    let mut s = GameState::new();
    assert!(create_room(&mut s, OWNER, 0, "vault".to_string()).is_ok());
    configure_room(&mut s, OWNER, "vault".to_string(), Some("hunter2".to_string()), None).unwrap();
    register_player(&mut s, PLAYER, 1, "p".to_string(), "mage".to_string(), "lobby".to_string())
        .unwrap();
    assert_eq!(
        join_room(&mut s, PLAYER, "vault".to_string(), "wrong".to_string()),
        Err(GameError::WrongPassword)
    );
    assert!(join_room(&mut s, PLAYER, "vault".to_string(), "hunter2".to_string()).is_ok());
    assert_eq!(room(&s, "vault").unwrap().current_player_count, 1);
}

#[test]
fn join_full_room_fails() {
    let mut s = GameState::new();
    assert!(create_room(&mut s, OWNER, 0, "duo".to_string()).is_ok());
    configure_room(&mut s, OWNER, "duo".to_string(), None, Some(1)).unwrap();
    register_player(&mut s, PLAYER, 1, "p".to_string(), "mage".to_string(), "a".to_string())
        .unwrap();
    register_player(&mut s, OTHER, 1, "q".to_string(), "rogue".to_string(), "b".to_string())
        .unwrap();
    assert!(join_room(&mut s, PLAYER, "duo".to_string(), "".to_string()).is_ok());
    assert_eq!(
        join_room(&mut s, OTHER, "duo".to_string(), "".to_string()),
        Err(GameError::RoomFull)
    );
}

#[test]
fn moving_rooms_updates_both_counters() {
    let mut s = GameState::new();
    assert!(create_room(&mut s, OWNER, 0, "a".to_string()).is_ok());
    assert!(create_room(&mut s, OWNER, 0, "b".to_string()).is_ok());
    register_player(&mut s, PLAYER, 1, "p".to_string(), "mage".to_string(), "a".to_string())
        .unwrap();
    assert_eq!(room(&s, "a").unwrap().current_player_count, 1);
    assert!(join_room(&mut s, PLAYER, "b".to_string(), "".to_string()).is_ok());
    assert_eq!(room(&s, "b").unwrap().current_player_count, 1);
    // "a" was emptied by someone other than its owner, so it is destroyed.
    assert!(room(&s, "a").is_none());
}

#[test]
fn emptied_room_of_another_owner_is_destroyed() {
    let mut s = GameState::new();
    assert!(create_room(&mut s, OWNER, 0, "a".to_string()).is_ok());
    register_player(&mut s, PLAYER, 1, "p".to_string(), "mage".to_string(), "b".to_string())
        .unwrap();
    assert!(join_room(&mut s, PLAYER, "a".to_string(), "".to_string()).is_ok());
    // PLAYER owned "b"; it was emptied by the move but is kept.
    assert!(room(&s, "b").is_some());
    assert!(leave_room(&mut s, PLAYER).is_ok());
    // "a" is owned by OWNER, not by the leaver, and is now empty: destroyed.
    assert!(room(&s, "a").is_none());
    assert!(s.players.is_empty());
}

#[test]
fn leave_without_row_fails() {
    let mut s = GameState::new();
    assert_eq!(leave_room(&mut s, PLAYER), Err(GameError::PlayerNotFound));
}

#[test]
fn configure_by_non_owner_fails() {
    let mut s = GameState::new();
    assert!(create_room(&mut s, OWNER, 0, "arena".to_string()).is_ok());
    assert_eq!(
        configure_room(&mut s, OTHER, "arena".to_string(), None, Some(10)),
        Err(GameError::NotOwner)
    );
    assert_eq!(room(&s, "arena").unwrap().max_players, MAX_PLAYERS_PER_ROOM);
}

#[test]
fn configure_below_occupancy_fails() {
    let mut s = GameState::new();
    assert!(create_room(&mut s, OWNER, 0, "arena".to_string()).is_ok());
    register_player(&mut s, PLAYER, 1, "p".to_string(), "mage".to_string(), "x".to_string())
        .unwrap();
    register_player(&mut s, OTHER, 1, "q".to_string(), "rogue".to_string(), "y".to_string())
        .unwrap();
    assert!(join_room(&mut s, PLAYER, "arena".to_string(), "".to_string()).is_ok());
    assert!(join_room(&mut s, OTHER, "arena".to_string(), "".to_string()).is_ok());
    assert_eq!(room(&s, "arena").unwrap().current_player_count, 2);
    assert_eq!(
        configure_room(&mut s, OWNER, "arena".to_string(), None, Some(0)),
        Err(GameError::CapacityBelowOccupancy)
    );
    assert_eq!(room(&s, "arena").unwrap().max_players, MAX_PLAYERS_PER_ROOM);
}

#[test]
fn configure_missing_room_fails() {
    let mut s = GameState::new();
    assert_eq!(
        configure_room(&mut s, OWNER, "nowhere".to_string(), None, None),
        Err(GameError::RoomNotFound)
    );
}

#[test]
fn empty_password_clears_it() {
    let mut s = GameState::new();
    assert!(create_room(&mut s, OWNER, 0, "vault".to_string()).is_ok());
    configure_room(&mut s, OWNER, "vault".to_string(), Some("pw".to_string()), None).unwrap();
    assert_eq!(room(&s, "vault").unwrap().password, Some("pw".to_string()));
    configure_room(&mut s, OWNER, "vault".to_string(), Some("".to_string()), None).unwrap();
    assert_eq!(room(&s, "vault").unwrap().password, None);
}
