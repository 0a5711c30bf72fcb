//! Row types of the entity store and the value objects embedded in them.
//!
//! Geometry is held in fixed-point coordinates: one world unit is 1000
//! coordinate steps, so fractional spawn offsets and per-tick movement
//! deltas stay exact integers.

use vstd::prelude::*;

verus! {

/// Stable opaque client identifier, assigned by the hosting runtime.
pub type Identity = u64;

/// Timestamp in microseconds, supplied by the hosting runtime with each call.
pub type Timestamp = u64;

/// Default capacity a room is created with when the creator does not
/// configure one.
pub const MAX_PLAYERS_PER_ROOM: u32 = 8;

/// Distance a walking player covers in one simulation tick, in
/// thousandths of a world unit.
pub const WALK_STEP: i64 = 2000;

/// Distance a running player covers in one simulation tick, in
/// thousandths of a world unit.
pub const RUN_STEP: i64 = 4000;

/// A 3-vector in fixed-point world coordinates (thousandths of a unit).
#[derive(Clone, Copy, PartialEq, Eq, Structural, Debug)]
pub struct Vector3 {
    pub x: i64,
    pub y: i64,
    pub z: i64,
}

/// A client's input snapshot: directional and action flags plus the
/// client-assigned monotonic sequence number.
#[derive(Clone, Copy, PartialEq, Eq, Structural, Debug)]
pub struct InputState {
    pub forward: bool,
    pub backward: bool,
    pub left: bool,
    pub right: bool,
    pub sprint: bool,
    pub jump: bool,
    pub attack: bool,
    pub cast_spell: bool,
    pub sequence: u32,
}

impl InputState {
    /// The all-clear snapshot a freshly spawned player starts with.
    pub fn idle() -> (r: InputState)
        ensures
            r == InputState::spec_idle(),
    {
        InputState {
            forward: false,
            backward: false,
            left: false,
            right: false,
            sprint: false,
            jump: false,
            attack: false,
            cast_spell: false,
            sequence: 0,
        }
    }

    pub open spec fn spec_idle() -> InputState {
        InputState {
            forward: false,
            backward: false,
            left: false,
            right: false,
            sprint: false,
            jump: false,
            attack: false,
            cast_spell: false,
            sequence: 0,
        }
    }
}

/// A lobby: unique name, optional plaintext password, capacity, live
/// occupancy counter and owner.
#[derive(Clone)]
pub struct Room {
    pub name: String,
    pub password: Option<String>,
    pub max_players: u32,
    pub current_player_count: u32,
    pub created_at: Timestamp,
    pub owner_identity: Identity,
}

/// One static world tile; seeded once at module initialization.
#[derive(Clone, Copy, PartialEq, Eq, Structural, Debug)]
pub struct GameTile {
    pub tile_id: u64,
    pub position: Vector3,
    pub size: Vector3,
}

/// An active (connected and registered) player row, one per identity.
#[derive(Clone)]
pub struct PlayerData {
    pub identity: Identity,
    pub username: String,
    pub character_class: String,
    pub position: Vector3,
    pub rotation: Vector3,
    pub current_animation: String,
    pub is_moving: bool,
    pub is_running: bool,
    pub is_attacking: bool,
    pub is_casting: bool,
    pub last_input_seq: u32,
    pub input: InputState,
    pub color: String,
    pub has_voted: bool,
    pub current_vote: String,
    pub room_name: String,
}

/// The resumable subset of a player kept while the identity is disconnected.
#[derive(Clone)]
pub struct LoggedOutPlayerData {
    pub identity: Identity,
    pub username: String,
    pub character_class: String,
    pub position: Vector3,
    pub rotation: Vector3,
    pub last_seen: Timestamp,
}

/// The recurring simulation-tick trigger token owned by the scheduler.
#[derive(Clone, Copy, PartialEq, Eq, Structural, Debug)]
pub struct GameTickSchedule {
    pub scheduled_id: u64,
    pub interval_micros: u64,
}

/// Every failure a public operation can surface. Each operation's contract
/// says exactly on which inputs each variant is returned.
#[derive(Clone, Copy, PartialEq, Eq, Structural, Debug)]
pub enum GameError {
    RoomAlreadyExists,
    RoomNotFound,
    RoomFull,
    WrongPassword,
    NotOwner,
    CapacityBelowOccupancy,
    PlayerNotRegistered,
    PlayerNotFound,
    InvalidVote,
}

} // verus!
