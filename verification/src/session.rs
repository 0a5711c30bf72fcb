//! Player connect / disconnect / register / rejoin lifecycle, bridging
//! active rows and durable disconnected-player rows.

use vstd::prelude::*;
use crate::types::{
    GameError, Identity, InputState, LoggedOutPlayerData, PlayerData, Room, Timestamp, Vector3,
    MAX_PLAYERS_PER_ROOM,
};
use crate::store::{
    arrive_room, count_in_room, find_logged_out, find_player, find_room, has_logged_out,
    has_player, has_room, lemma_count_bounds, lemma_count_push, lemma_count_zero_iff,
    lemma_has_room_update, lemma_logged_out_idx_of, lemma_player_idx_of, logged_out_idx,
    player_idx, remove_active, room_idx, same_state, spec_arrive, spec_depart, vote_reset_moved,
    GameState,
};
use crate::rooms::switch_room;

verus! {

/// The fixed color palette, cycled through by the spawn policy.
pub open spec fn spec_palette_color(k: int) -> Seq<char> {
    let m = k % 6;
    if m == 0 {
        "cyan"@
    } else if m == 1 {
        "magenta"@
    } else if m == 2 {
        "yellow"@
    } else if m == 3 {
        "lightgreen"@
    } else if m == 4 {
        "white"@
    } else {
        "orange"@
    }
}

/// Picks the `k % 6`-th palette color.
pub fn palette_color(k: usize) -> (c: String)
    ensures
        c@ == spec_palette_color(k as int),
{
    let m = k % 6;
    if m == 0 {
        "cyan".to_owned()
    } else if m == 1 {
        "magenta".to_owned()
    } else if m == 2 {
        "yellow".to_owned()
    } else if m == 3 {
        "lightgreen".to_owned()
    } else if m == 4 {
        "white".to_owned()
    } else {
        "orange".to_owned()
    }
}

/// The deterministic spawn point assigned to the `count`-th registering
/// player: offset along the x axis by five world units per player.
pub open spec fn spec_spawn_position(count: int) -> Vector3 {
    Vector3 { x: (count * 5000 - 2500) as i64, y: 1000, z: 0 }
}

/// `q` is a freshly spawned row for `identity` in `room_name`: spawn policy
/// position and color for the `count`-th player, idle flags, empty vote.
pub open spec fn spec_initial_player(
    q: PlayerData,
    identity: Identity,
    username: String,
    character_class: String,
    room_name: String,
    count: int,
) -> bool {
    &&& q.identity == identity
    &&& q.username == username
    &&& q.character_class == character_class
    &&& q.position == spec_spawn_position(count)
    &&& q.rotation == (Vector3 { x: 0, y: 0, z: 0 })
    &&& q.current_animation@ == "idle"@
    &&& q.is_moving == false
    &&& q.is_running == false
    &&& q.is_attacking == false
    &&& q.is_casting == false
    &&& q.last_input_seq == 0
    &&& q.input == InputState::spec_idle()
    &&& q.color@ == spec_palette_color(count)
    &&& q.has_voted == false
    &&& q.current_vote@ == Seq::<char>::empty()
    &&& q.room_name == room_name
}

/// Builds a fresh active row for the `state.players.len()`-th player using
/// the deterministic spawn policy (color and position keyed by the current
/// active-player count, not by any unordered iteration).
pub fn initialize_player(
    state: &GameState,
    identity: Identity,
    username: String,
    character_class: String,
    room_name: String,
) -> (q: PlayerData)
    requires
        state.players@.len() < u32::MAX,
    ensures
        spec_initial_player(
            q,
            identity,
            username,
            character_class,
            room_name,
            state.players@.len() as int,
        ),
{
    let player_count = state.players.len();
    let assigned_color = palette_color(player_count);
    let x = (player_count as i64) * 5000 - 2500;
    let spawn_position = Vector3 { x, y: 1000, z: 0 };
    let default_input = InputState::idle();
    PlayerData {
        identity,
        username,
        character_class,
        position: spawn_position,
        rotation: Vector3 { x: 0, y: 0, z: 0 },
        current_animation: "idle".to_owned(),
        is_moving: false,
        is_running: false,
        is_attacking: false,
        is_casting: false,
        last_input_seq: 0,
        input: default_input,
        color: assigned_color,
        room_name,
        current_vote: String::new(),
        has_voted: false,
    }
}

/// The room list with the registration target present: unchanged when the
/// target exists, else extended by a default-configured room owned by the
/// caller.
pub open spec fn spec_rooms_with_target(
    s: GameState,
    room_name: String,
    now: Timestamp,
    sender: Identity,
) -> Seq<Room> {
    if has_room(s.rooms@, room_name@) {
        s.rooms@
    } else {
        s.rooms@.push(
            Room {
                name: room_name,
                password: None,
                max_players: MAX_PLAYERS_PER_ROOM,
                current_player_count: 0,
                created_at: now,
                owner_identity: sender,
            },
        )
    }
}

/// Makes sure the registration target exists, creating it default-configured
/// (owned by the caller, empty) when absent. Nothing else changes.
pub fn ensure_room(state: &mut GameState, sender: Identity, now: Timestamp, room_name: &String)
    requires
        old(state).inv(),
    ensures
        final(state).inv(),
        final(state).rooms@ == spec_rooms_with_target(*old(state), *room_name, now, sender),
        has_room(final(state).rooms@, room_name@),
        final(state).players == old(state).players,
        final(state).logged_out == old(state).logged_out,
        final(state).tiles == old(state).tiles,
        final(state).schedules == old(state).schedules,
{
    if find_room(&state.rooms, room_name).is_some() {
        return ;
    }
    let new_room = Room {
        name: room_name.clone(),
        password: None,
        max_players: MAX_PLAYERS_PER_ROOM,
        current_player_count: 0,
        created_at: now,
        owner_identity: sender,
    };
    state.rooms.push(new_room);
    proof {
        let rooms0 = old(state).rooms@;
        let players = state.players@;
        let name = room_name@;
        assert(state.rooms@.last().name@ == name);
        assert forall|j: int| 0 <= j < players.len() implies players[j].room_name@ != name by {
            assert(has_room(rooms0, players[j].room_name@));
        }
        lemma_count_zero_iff(players, name);
        assert forall|k: int|
            0 <= k < state.rooms@.len() implies (#[trigger] state.rooms@[k]).current_player_count
            == count_in_room(players, state.rooms@[k].name@) by {
            if k < rooms0.len() {
                assert(state.rooms@[k] == rooms0[k]);
            }
        }
        assert forall|j: int|
            0 <= j < players.len() implies has_room(
            state.rooms@,
            (#[trigger] players[j]).room_name@,
        ) by {
            let n = players[j].room_name@;
            let w = choose|w: int| 0 <= w < rooms0.len() && rooms0[w].name@ == n;
            assert(state.rooms@[w].name@ == n);
        }
    }
}

/// Inserts a fresh active row whose identity holds no other row, and lets it
/// arrive in its (existing) room.
pub fn insert_player(state: &mut GameState, q: PlayerData, room_name: &String)
    requires
        old(state).inv(),
        !has_player(old(state).players@, q.identity),
        !has_logged_out(old(state).logged_out@, q.identity),
        q.room_name@ == room_name@,
        has_room(old(state).rooms@, room_name@),
        old(state).players@.len() < u32::MAX,
    ensures
        final(state).inv(),
        final(state).players@ == old(state).players@.push(q),
        final(state).rooms@ == spec_arrive(old(state).rooms@, room_name@),
        final(state).logged_out == old(state).logged_out,
        final(state).tiles == old(state).tiles,
        final(state).schedules == old(state).schedules,
{
    let ghost players0 = old(state).players@;
    let ghost rooms0 = old(state).rooms@;
    let ghost newn = room_name@;
    proof {
        let t = room_idx(rooms0, newn);
        assert(0 <= t < rooms0.len() && rooms0[t].name@ == newn);
        lemma_count_bounds(players0, newn);
    }
    state.players.push(q);
    arrive_room(state, room_name);
    proof {
        let t = room_idx(rooms0, newn);
        let players1 = state.players@;
        let rooms2 = state.rooms@;
        assert(rooms2 == rooms0.update(
            t,
            (Room {
                current_player_count: (rooms0[t].current_player_count + 1) as u32,
                ..rooms0[t]
            }),
        ));
        assert forall|k: int|
            0 <= k < rooms2.len() implies (#[trigger] rooms2[k]).current_player_count
            == count_in_room(players1, rooms2[k].name@) by {
            lemma_count_push(players0, q, rooms2[k].name@);
            if k != t {
                assert(rooms2[k] == rooms0[k]);
                assert(rooms0[k].name@ != newn);
            }
        }
        assert forall|a: int, b: int|
            0 <= a < b < players1.len() implies players1[a].identity != players1[b].identity by {
            if b == players1.len() - 1 {
                assert(players1[a] == players0[a]);
                assert(has_player(players0, q.identity) == false);
            }
        }
        assert(state.active_disjoint()) by {
            assert forall|j: int|
                0 <= j < players1.len() implies !has_logged_out(
                state.logged_out@,
                (#[trigger] players1[j]).identity,
            ) by {
                if j < players1.len() - 1 {
                    assert(players1[j] == players0[j]);
                }
            }
        }
        assert forall|j: int|
            0 <= j < players1.len() implies has_room(
            rooms2,
            (#[trigger] players1[j]).room_name@,
        ) by {
            if j == players1.len() - 1 {
                assert(rooms2[t].name@ == newn);
            } else {
                assert(players1[j] == players0[j]);
                lemma_has_room_update(
                    rooms0,
                    t,
                    (Room {
                        current_player_count: (rooms0[t].current_player_count + 1) as u32,
                        ..rooms0[t]
                    }),
                    players0[j].room_name@,
                );
            }
        }
    }
}

/// `q` is the promoted row of the disconnected record `lo`, rejoining in
/// `room_name` as the `count`-th player: username, class and rotation are
/// preserved from the record, everything else follows the fresh-spawn policy.
pub open spec fn spec_rejoined_player(
    q: PlayerData,
    lo: LoggedOutPlayerData,
    room_name: String,
    count: int,
) -> bool {
    &&& q.identity == lo.identity
    &&& q.username == lo.username
    &&& q.character_class == lo.character_class
    &&& q.position == spec_spawn_position(count)
    &&& q.rotation == lo.rotation
    &&& q.current_animation@ == "idle"@
    &&& q.is_moving == false
    &&& q.is_running == false
    &&& q.is_attacking == false
    &&& q.is_casting == false
    &&& q.last_input_seq == 0
    &&& q.input == InputState::spec_idle()
    &&& q.color@ == spec_palette_color(count)
    &&& q.has_voted == false
    &&& q.current_vote@ == Seq::<char>::empty()
    &&& q.room_name == room_name
}

/// What `register_player` does, case by case: an already-active caller only
/// moves rooms (vote state reset, never a duplicate row); a disconnected
/// caller is promoted back to active, its record deleted; anyone else gets a
/// fresh row. The target room is created when absent.
pub open spec fn spec_register_effect(
    s: GameState,
    t: GameState,
    sender: Identity,
    now: Timestamp,
    username: String,
    character_class: String,
    room_name: String,
) -> bool {
    let rooms1 = spec_rooms_with_target(s, room_name, now, sender);
    if has_player(s.players@, sender) {
        let i = player_idx(s.players@, sender);
        &&& t.players@.len() == s.players@.len()
        &&& vote_reset_moved(t.players@[i], s.players@[i], room_name@)
        &&& forall|j: int|
            0 <= j < s.players@.len() && j != i ==> t.players@[j] == s.players@[j]
        &&& t.rooms@ == (if s.players@[i].room_name@ == room_name@ {
            rooms1
        } else {
            spec_arrive(spec_depart(rooms1, s.players@[i].room_name@, sender), room_name@)
        })
        &&& t.logged_out@ == s.logged_out@
    } else if has_logged_out(s.logged_out@, sender) {
        let li = logged_out_idx(s.logged_out@, sender);
        &&& t.players@.len() == s.players@.len() + 1
        &&& forall|j: int| 0 <= j < s.players@.len() ==> t.players@[j] == s.players@[j]
        &&& spec_rejoined_player(
            t.players@.last(),
            s.logged_out@[li],
            room_name,
            s.players@.len() as int,
        )
        &&& t.rooms@ == spec_arrive(rooms1, room_name@)
        &&& t.logged_out@ == s.logged_out@.remove(li)
    } else {
        &&& t.players@.len() == s.players@.len() + 1
        &&& forall|j: int| 0 <= j < s.players@.len() ==> t.players@[j] == s.players@[j]
        &&& spec_initial_player(
            t.players@.last(),
            sender,
            username,
            character_class,
            room_name,
            s.players@.len() as int,
        )
        &&& t.rooms@ == spec_arrive(rooms1, room_name@)
        &&& t.logged_out@ == s.logged_out@
    }
}

/// Registers the caller: creates the target room when absent, then either
/// moves the already-active caller (idempotent, never duplicating its row),
/// promotes its disconnected record, or spawns a fresh row. Always succeeds.
pub fn register_player(
    state: &mut GameState,
    sender: Identity,
    now: Timestamp,
    username: String,
    character_class: String,
    room_name: String,
) -> (r: Result<(), GameError>)
    requires
        old(state).inv(),
        old(state).players@.len() < u32::MAX,
    ensures
        final(state).inv(),
        r is Ok,
        spec_register_effect(
            *old(state),
            *final(state),
            sender,
            now,
            username,
            character_class,
            room_name,
        ),
        final(state).tiles == old(state).tiles,
        final(state).schedules == old(state).schedules,
{
    let ghost s0 = *old(state);
    ensure_room(state, sender, now, &room_name);
    let ghost rooms1 = state.rooms@;
    let found = find_player(&state.players, sender);
    match found {
        Some(pi) => {
            proof {
                lemma_player_idx_of(state.players@, pi as int);
                lemma_count_bounds(state.players@, room_name@);
                let t = room_idx(rooms1, room_name@);
                assert(0 <= t < rooms1.len() && rooms1[t].name@ == room_name@);
            }
            switch_room(state, pi, room_name, sender);
            return Ok(());
        },
        None => {},
    }
    let found_lo = find_logged_out(&state.logged_out, sender);
    match found_lo {
        Some(li) => {
            proof {
                lemma_logged_out_idx_of(state.logged_out@, li as int);
            }
            let ghost logged0 = state.logged_out@;
            let lo = state.logged_out.remove(li);
            proof {
                crate::store::lemma_logged_out_unique_remove(logged0, li as int);
                assert forall|j: int|
                    0 <= j < state.logged_out@.len() implies (
                #[trigger] state.logged_out@[j]).identity != sender by {
                    let j0: int = if j < li {
                        j
                    } else {
                        j + 1
                    };
                    assert(state.logged_out@[j] == logged0[j0]);
                }
                assert(state.active_disjoint()) by {
                    assert forall|k: int|
                        0 <= k < state.players@.len() implies !has_logged_out(
                        state.logged_out@,
                        (#[trigger] state.players@[k]).identity,
                    ) by {
                        if has_logged_out(state.logged_out@, state.players@[k].identity) {
                            let w = choose|w: int|
                                0 <= w < state.logged_out@.len() && state.logged_out@[w].identity
                                    == state.players@[k].identity;
                            let w0: int = if w < li {
                                w
                            } else {
                                w + 1
                            };
                            assert(logged0[w0] == state.logged_out@[w]);
                            assert(has_logged_out(logged0, state.players@[k].identity));
                        }
                    }
                }
            }
            let mut q = initialize_player(
                state,
                sender,
                lo.username,
                lo.character_class,
                room_name.clone(),
            );
            q.rotation = lo.rotation;
            insert_player(state, q, &room_name);
            Ok(())
        },
        None => {
            let q = initialize_player(state, sender, username, character_class, room_name.clone());
            insert_player(state, q, &room_name);
            Ok(())
        },
    }
}

/// A transport-level connect: presence only, no state transition —
/// registration and rejoining happen through [`register_player`].
pub fn identity_connected(state: &mut GameState, _sender: Identity)
    ensures
        *final(state) == *old(state),
{
}

/// A transport-level disconnect: an active caller leaves its room (which may
/// be destroyed) and its row is snapshotted into a disconnected record
/// stamped `now`; a re-disconnect only refreshes that stamp; anyone else is
/// ignored.
pub fn identity_disconnected(state: &mut GameState, sender: Identity, now: Timestamp)
    requires
        old(state).inv(),
    ensures
        final(state).inv(),
        has_player(old(state).players@, sender) ==> ({
            let i = player_idx(old(state).players@, sender);
            let p = old(state).players@[i];
            &&& final(state).players@ == old(state).players@.remove(i)
            &&& final(state).rooms@ == spec_depart(old(state).rooms@, p.room_name@, sender)
            &&& final(state).logged_out@ == old(state).logged_out@.push(
                (LoggedOutPlayerData {
                    identity: p.identity,
                    username: p.username,
                    character_class: p.character_class,
                    position: p.position,
                    rotation: p.rotation,
                    last_seen: now,
                }),
            )
        }),
        !has_player(old(state).players@, sender) && has_logged_out(old(state).logged_out@, sender)
            ==> ({
            let li = logged_out_idx(old(state).logged_out@, sender);
            &&& final(state).logged_out@ == old(state).logged_out@.update(
                li,
                (LoggedOutPlayerData { last_seen: now, ..old(state).logged_out@[li] }),
            )
            &&& final(state).players == old(state).players
            &&& final(state).rooms == old(state).rooms
        }),
        !has_player(old(state).players@, sender) && !has_logged_out(
            old(state).logged_out@,
            sender,
        ) ==> same_state(*old(state), *final(state)),
        final(state).tiles == old(state).tiles,
        final(state).schedules == old(state).schedules,
{
    let found = find_player(&state.players, sender);
    match found {
        Some(pi) => {
            proof {
                lemma_player_idx_of(state.players@, pi as int);
            }
            let ghost logged0 = state.logged_out@;
            let ghost players0 = state.players@;
            let p = remove_active(state, pi, sender);
            let row = LoggedOutPlayerData {
                identity: p.identity,
                username: p.username,
                character_class: p.character_class,
                position: p.position,
                rotation: p.rotation,
                last_seen: now,
            };
            state.logged_out.push(row);
            proof {
                // The disconnecting identity held no disconnected row while
                // it was active, so the appended row is unique.
                assert(!has_logged_out(logged0, sender)) by {
                    assert(players0[pi as int].identity == sender);
                }
                assert forall|a: int, b: int|
                    0 <= a < b < state.logged_out@.len() implies state.logged_out@[a].identity
                    != state.logged_out@[b].identity by {
                    if b == state.logged_out@.len() - 1 {
                        assert(state.logged_out@[a] == logged0[a]);
                        assert(!has_logged_out(logged0, sender));
                    }
                }
                assert(state.active_disjoint()) by {
                    assert forall|j: int|
                        0 <= j < state.players@.len() implies !has_logged_out(
                        state.logged_out@,
                        (#[trigger] state.players@[j]).identity,
                    ) by {
                        let id = state.players@[j].identity;
                        assert(id != sender) by {
                            assert(!has_player(state.players@, sender));
                        }
                        if has_logged_out(state.logged_out@, id) {
                            let w = choose|w: int|
                                0 <= w < state.logged_out@.len() && state.logged_out@[w].identity
                                    == id;
                            assert(w < logged0.len());
                            assert(state.logged_out@[w] == logged0[w]);
                            assert(has_logged_out(logged0, id));
                        }
                    }
                }
            }
        },
        None => {
            let found_lo = find_logged_out(&state.logged_out, sender);
            match found_lo {
                Some(li) => {
                    proof {
                        lemma_logged_out_idx_of(state.logged_out@, li as int);
                    }
                    let ghost logged0 = state.logged_out@;
                    state.logged_out[li].last_seen = now;
                    proof {
                        assert(state.logged_out@ == logged0.update(
                            li as int,
                            (LoggedOutPlayerData { last_seen: now, ..logged0[li as int] }),
                        ));
                        assert forall|a: int, b: int|
                            0 <= a < b < state.logged_out@.len() implies state.logged_out@[
                        a].identity != state.logged_out@[b].identity by {
                            assert(logged0[a].identity != logged0[b].identity);
                            assert(state.logged_out@[a].identity == logged0[a].identity);
                            assert(state.logged_out@[b].identity == logged0[b].identity);
                        }
                        assert(state.active_disjoint()) by {
                            assert forall|j: int|
                                0 <= j < state.players@.len() implies !has_logged_out(
                                state.logged_out@,
                                (#[trigger] state.players@[j]).identity,
                            ) by {
                                let id = state.players@[j].identity;
                                if has_logged_out(state.logged_out@, id) {
                                    let w = choose|w: int|
                                        0 <= w < state.logged_out@.len()
                                            && state.logged_out@[w].identity == id;
                                    assert(logged0[w].identity == id);
                                    assert(has_logged_out(logged0, id));
                                }
                            }
                        }
                    }
                },
                None => {},
            }
        },
    }
}

} // verus!
