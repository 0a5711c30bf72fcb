//! Room lifecycle: creation, capacity and password enforcement, ownership,
//! membership moves and destruction-on-empty.

use vstd::prelude::*;
use crate::types::{GameError, Identity, Room, Timestamp, MAX_PLAYERS_PER_ROOM};
use crate::store::{
    arrive_room, count_in_room, depart_room, find_player, find_room, has_player, has_room,
    lemma_count_member, lemma_count_update, lemma_count_zero_iff, lemma_has_room_update,
    lemma_player_idx_of, lemma_room_idx_of, player_idx, room_idx, same_state, spec_arrive,
    spec_depart, vote_reset_moved, GameState,
};

verus! {

/// Creates the room `room_name` owned by the caller, with no password, the
/// default capacity and zero occupancy; rejected when the name is taken.
pub fn create_room(state: &mut GameState, sender: Identity, now: Timestamp, room_name: String)
    -> (r: Result<(), GameError>)
    requires
        old(state).inv(),
    ensures
        final(state).inv(),
        match r {
            Ok(()) => {
                &&& !has_room(old(state).rooms@, room_name@)
                &&& final(state).rooms@ == old(state).rooms@.push(
                    (Room {
                        name: room_name,
                        password: None,
                        max_players: MAX_PLAYERS_PER_ROOM,
                        current_player_count: 0,
                        created_at: now,
                        owner_identity: sender,
                    }),
                )
                &&& final(state).players == old(state).players
                &&& final(state).logged_out == old(state).logged_out
                &&& final(state).tiles == old(state).tiles
                &&& final(state).schedules == old(state).schedules
            },
            Err(e) => {
                &&& e == GameError::RoomAlreadyExists
                &&& has_room(old(state).rooms@, room_name@)
                &&& same_state(*old(state), *final(state))
            },
        },
{
    if find_room(&state.rooms, &room_name).is_some() {
        return Err(GameError::RoomAlreadyExists);
    }
    let new_room = Room {
        name: room_name,
        password: None,
        max_players: MAX_PLAYERS_PER_ROOM,
        current_player_count: 0,
        created_at: now,
        owner_identity: sender,
    };
    state.rooms.push(new_room);
    proof {
        let rooms0 = old(state).rooms@;
        let players = state.players@;
        let name = state.rooms@.last().name@;
        assert forall|j: int| 0 <= j < players.len() implies players[j].room_name@ != name by {
            assert(has_room(rooms0, players[j].room_name@));
        }
        lemma_count_zero_iff(players, name);
        assert forall|k: int|
            0 <= k < state.rooms@.len() implies (#[trigger] state.rooms@[k]).current_player_count
            == count_in_room(players, state.rooms@[k].name@) by {
            if k < rooms0.len() {
                assert(state.rooms@[k] == rooms0[k]);
            }
        }
        assert forall|j: int|
            0 <= j < players.len() implies has_room(
            state.rooms@,
            (#[trigger] players[j]).room_name@,
        ) by {
            let n = players[j].room_name@;
            let w = choose|w: int| 0 <= w < rooms0.len() && rooms0[w].name@ == n;
            assert(state.rooms@[w].name@ == n);
        }
    }
    Ok(())
}

/// Moves the active player at row `i` (the caller) into the existing room
/// `room_name` and clears its vote state. Occupancy counters follow the
/// move: the old room loses one occupant (and is destroyed when emptied and
/// not owned by the caller), the target gains one. Moving into the room the
/// player already occupies only clears the vote state.
pub fn switch_room(state: &mut GameState, i: usize, room_name: String, sender: Identity)
    requires
        old(state).inv(),
        i < old(state).players@.len(),
        old(state).players@[i as int].identity == sender,
        has_room(old(state).rooms@, room_name@),
        old(state).players@[i as int].room_name@ != room_name@ ==> old(state).rooms@[room_idx(
            old(state).rooms@,
            room_name@,
        )].current_player_count < u32::MAX,
    ensures
        final(state).inv(),
        final(state).players@.len() == old(state).players@.len(),
        vote_reset_moved(
            final(state).players@[i as int],
            old(state).players@[i as int],
            room_name@,
        ),
        forall|j: int|
            0 <= j < old(state).players@.len() && j != i ==> final(state).players@[j] == old(
                state,
            ).players@[j],
        final(state).rooms@ == (if old(state).players@[i as int].room_name@ == room_name@ {
            old(state).rooms@
        } else {
            spec_arrive(
                spec_depart(old(state).rooms@, old(state).players@[i as int].room_name@, sender),
                room_name@,
            )
        }),
        final(state).logged_out == old(state).logged_out,
        final(state).tiles == old(state).tiles,
        final(state).schedules == old(state).schedules,
{
    let ghost p0 = old(state).players@[i as int];
    let ghost rooms0 = old(state).rooms@;
    let ghost players0 = old(state).players@;
    let same = state.players[i].room_name == room_name;
    let old_name = state.players[i].room_name.clone();
    let target = room_name.clone();
    state.players[i].room_name = room_name;
    state.players[i].has_voted = false;
    state.players[i].current_vote = String::new();
    let ghost p1 = state.players@[i as int];
    proof {
        assert(state.players@ =~= players0.update(i as int, p1));
        assert(vote_reset_moved(p1, p0, target@));
        assert(forall|j: int|
            0 <= j < players0.len() && j != i ==> state.players@[j] == players0[j]);
        assert(state.players@.len() == players0.len());
    }
    if same {
        proof {
            assert(p1.room_name@ == p0.room_name@);
            assert forall|k: int|
                0 <= k < state.rooms@.len() implies (
            #[trigger] state.rooms@[k]).current_player_count == count_in_room(
                state.players@,
                state.rooms@[k].name@,
            ) by {
                lemma_count_update(players0, i as int, p1, state.rooms@[k].name@);
            }
            assert forall|j: int|
                0 <= j < state.players@.len() implies has_room(
                state.rooms@,
                (#[trigger] state.players@[j]).room_name@,
            ) by {
                if j != i {
                    assert(state.players@[j] == players0[j]);
                }
            }
            assert forall|a: int, b: int|
                0 <= a < b < state.players@.len() implies state.players@[a].identity
                != state.players@[b].identity by {
                assert(p1.identity == p0.identity);
            }
            assert(state.active_disjoint()) by {
                assert forall|j: int|
                    0 <= j < state.players@.len() implies !crate::store::has_logged_out(
                    state.logged_out@,
                    (#[trigger] state.players@[j]).identity,
                ) by {
                    assert(state.players@[j].identity == players0[j].identity);
                }
            }
        }
    } else {
        let ghost oldn = p0.room_name@;
        let ghost newn = target@;
        proof {
            // The old room exists (the player occupies it) and is distinct
            // from the target.
            assert(has_room(rooms0, oldn));
            let o = room_idx(rooms0, oldn);
            assert(0 <= o < rooms0.len() && rooms0[o].name@ == oldn);
            let t = room_idx(rooms0, newn);
            assert(0 <= t < rooms0.len() && rooms0[t].name@ == newn);
            assert(o != t);
            lemma_count_member(players0, i as int, oldn);
        }
        depart_room(state, &old_name, sender);
        proof {
            let o = room_idx(rooms0, oldn);
            let t = room_idx(rooms0, newn);
            let rooms1 = state.rooms@;
            let c_o = rooms0[o].current_player_count;
            assert(c_o >= 1);
            // Locate the target room after the departure.
            let t1: int = if c_o - 1 == 0 && rooms0[o].owner_identity != sender {
                if t < o {
                    t
                } else {
                    t - 1
                }
            } else {
                t
            };
            assert(rooms1[t1] == rooms0[t]);
            lemma_room_idx_of(rooms1, t1);
            assert(room_idx(rooms1, newn) == t1);
            assert(has_room(rooms1, newn));
            assert(rooms1[room_idx(rooms1, newn)].current_player_count < u32::MAX);
        }
        arrive_room(state, &target);
        proof {
            let o = room_idx(rooms0, oldn);
            let t = room_idx(rooms0, newn);
            let c_o = rooms0[o].current_player_count;
            let removed = c_o - 1 == 0 && rooms0[o].owner_identity != sender;
            let rooms1 = spec_depart(rooms0, oldn, sender);
            let t1: int = if removed {
                if t < o {
                    t
                } else {
                    t - 1
                }
            } else {
                t
            };
            let rooms2 = state.rooms@;
            assert(rooms2 == rooms1.update(
                t1,
                (Room {
                    current_player_count: (rooms1[t1].current_player_count + 1) as u32,
                    ..rooms1[t1]
                }),
            ));
            // Occupancy counters match the moved player set.
            assert forall|k: int|
                0 <= k < rooms2.len() implies (#[trigger] rooms2[k]).current_player_count
                == count_in_room(state.players@, rooms2[k].name@) by {
                lemma_count_update(players0, i as int, p1, rooms2[k].name@);
                if k == t1 {
                    assert(rooms2[k].name@ == newn);
                    assert(rooms2[k].current_player_count == rooms0[t].current_player_count + 1);
                } else {
                    assert(rooms2[k] == rooms1[k]);
                    if removed {
                        let k0: int = if k < o {
                            k
                        } else {
                            k + 1
                        };
                        assert(rooms1[k] == rooms0[k0]);
                        assert(rooms0[k0].name@ != oldn);
                        assert(rooms0[k0].name@ != newn);
                    } else {
                        if k == o {
                            assert(rooms1[k].name@ == oldn);
                            assert(rooms1[k].current_player_count == c_o - 1);
                        } else {
                            assert(rooms1[k] == rooms0[k]);
                            assert(rooms0[k].name@ != oldn);
                            assert(rooms0[k].name@ != newn);
                        }
                    }
                }
            }
            // Every player still points at an existing room.
            assert forall|j: int|
                0 <= j < state.players@.len() implies has_room(
                rooms2,
                (#[trigger] state.players@[j]).room_name@,
            ) by {
                if j == i {
                    assert(rooms2[t1].name@ == newn);
                } else {
                    let n = players0[j].room_name@;
                    assert(state.players@[j] == players0[j]);
                    assert(has_room(rooms0, n));
                    if n == oldn {
                        if removed {
                            lemma_count_update(players0, i as int, p1, oldn);
                            lemma_count_zero_iff(state.players@, oldn);
                            assert(false);
                        } else {
                            assert(rooms1[o].name@ == oldn);
                            assert(o != t1);
                            assert(rooms2[o].name@ == oldn);
                        }
                    } else {
                        let w = choose|w: int| 0 <= w < rooms0.len() && rooms0[w].name@ == n;
                        if removed {
                            let w1: int = if w < o {
                                w
                            } else {
                                w - 1
                            };
                            assert(w != o);
                            assert(rooms1[w1] == rooms0[w]);
                            assert(has_room(rooms1, n));
                            lemma_has_room_update(
                                rooms1,
                                t1,
                                (Room {
                                    current_player_count: (rooms1[t1].current_player_count
                                        + 1) as u32,
                                    ..rooms1[t1]
                                }),
                                n,
                            );
                        } else {
                            assert(rooms1[w].name@ == n);
                            assert(has_room(rooms1, n));
                            lemma_has_room_update(
                                rooms1,
                                t1,
                                (Room {
                                    current_player_count: (rooms1[t1].current_player_count
                                        + 1) as u32,
                                    ..rooms1[t1]
                                }),
                                n,
                            );
                        }
                    }
                }
            }
            // Identities are untouched.
            assert forall|a: int, b: int|
                0 <= a < b < state.players@.len() implies state.players@[a].identity
                != state.players@[b].identity by {
                assert(p1.identity == p0.identity);
            }
            assert(state.active_disjoint()) by {
                assert forall|j: int|
                    0 <= j < state.players@.len() implies !crate::store::has_logged_out(
                    state.logged_out@,
                    (#[trigger] state.players@[j]).identity,
                ) by {
                    assert(state.players@[j].identity == players0[j].identity);
                }
            }
        }
    }
}

/// The failure `join_room` returns, if any: absent room, wrong password
/// (plaintext equality, by design), full room, unregistered caller — checked
/// in that order.
pub open spec fn spec_join_error(
    s: GameState,
    sender: Identity,
    name: Seq<char>,
    pw: Seq<char>,
) -> Option<GameError> {
    if !has_room(s.rooms@, name) {
        Some(GameError::RoomNotFound)
    } else {
        let r = s.rooms@[room_idx(s.rooms@, name)];
        if r.password is Some && r.password.unwrap()@ != pw {
            Some(GameError::WrongPassword)
        } else if r.current_player_count >= r.max_players {
            Some(GameError::RoomFull)
        } else if !has_player(s.players@, sender) {
            Some(GameError::PlayerNotRegistered)
        } else {
            None
        }
    }
}

/// Moves the registered caller into the room `room_name`, enforcing
/// password and capacity; on success the caller occupies the target (vote
/// state cleared) and the occupancy counters of the old and new room follow.
/// On failure the state is untouched.
pub fn join_room(state: &mut GameState, sender: Identity, room_name: String, password: String)
    -> (r: Result<(), GameError>)
    requires
        old(state).inv(),
    ensures
        final(state).inv(),
        match r {
            Ok(()) => ({
                let i = player_idx(old(state).players@, sender);
                &&& spec_join_error(*old(state), sender, room_name@, password@) is None
                &&& final(state).players@.len() == old(state).players@.len()
                &&& vote_reset_moved(
                    final(state).players@[i],
                    old(state).players@[i],
                    room_name@,
                )
                &&& forall|j: int|
                    0 <= j < old(state).players@.len() && j != i ==> final(state).players@[j]
                        == old(state).players@[j]
                &&& final(state).rooms@ == (if old(state).players@[i].room_name@ == room_name@ {
                    old(state).rooms@
                } else {
                    spec_arrive(
                        spec_depart(old(state).rooms@, old(state).players@[i].room_name@, sender),
                        room_name@,
                    )
                })
                &&& final(state).logged_out == old(state).logged_out
                &&& final(state).tiles == old(state).tiles
                &&& final(state).schedules == old(state).schedules
            }),
            Err(e) => {
                &&& Some(e) == spec_join_error(*old(state), sender, room_name@, password@)
                &&& same_state(*old(state), *final(state))
            },
        },
{
    let ri = match find_room(&state.rooms, &room_name) {
        None => {
            return Err(GameError::RoomNotFound);
        },
        Some(ri) => ri,
    };
    proof {
        lemma_room_idx_of(state.rooms@, ri as int);
    }
    match &state.rooms[ri].password {
        Some(p) => {
            if !(*p == password) {
                return Err(GameError::WrongPassword);
            }
        },
        None => {},
    }
    if state.rooms[ri].current_player_count >= state.rooms[ri].max_players {
        return Err(GameError::RoomFull);
    }
    let pi = match find_player(&state.players, sender) {
        None => {
            return Err(GameError::PlayerNotRegistered);
        },
        Some(pi) => pi,
    };
    proof {
        lemma_player_idx_of(state.players@, pi as int);
    }
    switch_room(state, pi, room_name, sender);
    Ok(())
}

/// The failure `configure_room` returns, if any: absent room, caller is not
/// the owner, or a requested capacity below the current occupancy.
pub open spec fn spec_configure_error(
    s: GameState,
    sender: Identity,
    name: Seq<char>,
    new_max_players: Option<u32>,
) -> Option<GameError> {
    if !has_room(s.rooms@, name) {
        Some(GameError::RoomNotFound)
    } else {
        let r = s.rooms@[room_idx(s.rooms@, name)];
        if r.owner_identity != sender {
            Some(GameError::NotOwner)
        } else if new_max_players is Some && new_max_players.unwrap() < r.current_player_count {
            Some(GameError::CapacityBelowOccupancy)
        } else {
            None
        }
    }
}

/// The password field after a reconfiguration: an empty string clears it,
/// a non-empty string sets it, absence keeps the old one.
pub open spec fn spec_new_password(cur: Option<String>, req: Option<String>) -> Option<String> {
    if req is Some {
        if req.unwrap()@.len() == 0 {
            None
        } else {
            Some(req.unwrap())
        }
    } else {
        cur
    }
}

/// Lets the room's owner change its password and capacity; the capacity may
/// not drop below the current occupancy. On failure the state is untouched.
pub fn configure_room(
    state: &mut GameState,
    sender: Identity,
    room_name: String,
    new_password: Option<String>,
    new_max_players: Option<u32>,
) -> (r: Result<(), GameError>)
    requires
        old(state).inv(),
    ensures
        final(state).inv(),
        match r {
            Ok(()) => ({
                let i = room_idx(old(state).rooms@, room_name@);
                &&& spec_configure_error(*old(state), sender, room_name@, new_max_players) is None
                &&& final(state).rooms@ == old(state).rooms@.update(
                    i,
                    (Room {
                        password: spec_new_password(old(state).rooms@[i].password, new_password),
                        max_players: (if new_max_players is Some {
                            new_max_players.unwrap()
                        } else {
                            old(state).rooms@[i].max_players
                        }),
                        ..old(state).rooms@[i]
                    }),
                )
                &&& final(state).players == old(state).players
                &&& final(state).logged_out == old(state).logged_out
                &&& final(state).tiles == old(state).tiles
                &&& final(state).schedules == old(state).schedules
            }),
            Err(e) => {
                &&& Some(e) == spec_configure_error(*old(state), sender, room_name@, new_max_players)
                &&& same_state(*old(state), *final(state))
            },
        },
{
    let ghost rooms0 = old(state).rooms@;
    let ri = match find_room(&state.rooms, &room_name) {
        None => {
            return Err(GameError::RoomNotFound);
        },
        Some(ri) => ri,
    };
    proof {
        lemma_room_idx_of(rooms0, ri as int);
    }
    if state.rooms[ri].owner_identity != sender {
        return Err(GameError::NotOwner);
    }
    match new_max_players {
        Some(m) => {
            if m < state.rooms[ri].current_player_count {
                return Err(GameError::CapacityBelowOccupancy);
            }
        },
        None => {},
    }
    let ghost r0 = rooms0[ri as int];
    match new_password {
        Some(pw) => {
            if pw.as_str().is_empty() {
                state.rooms[ri].password = None;
            } else {
                state.rooms[ri].password = Some(pw);
            }
        },
        None => {},
    }
    match new_max_players {
        Some(m) => {
            state.rooms[ri].max_players = m;
        },
        None => {},
    }
    proof {
        let r2 = Room {
            password: spec_new_password(r0.password, new_password),
            max_players: (if new_max_players is Some {
                new_max_players.unwrap()
            } else {
                r0.max_players
            }),
            ..r0
        };
        assert(state.rooms@ =~= rooms0.update(ri as int, r2));
        crate::store::lemma_rooms_unique_update(rooms0, ri as int, r2);
        assert forall|k: int|
            0 <= k < state.rooms@.len() implies (#[trigger] state.rooms@[k]).current_player_count
            == count_in_room(state.players@, state.rooms@[k].name@) by {
            if k != ri {
                assert(state.rooms@[k] == rooms0[k]);
            }
        }
        assert forall|j: int|
            0 <= j < state.players@.len() implies has_room(
            state.rooms@,
            (#[trigger] state.players@[j]).room_name@,
        ) by {
            lemma_has_room_update(rooms0, ri as int, r2, state.players@[j].room_name@);
        }
    }
    Ok(())
}

/// Removes the caller's active row from the game without a disconnected
/// snapshot; its room loses one occupant and is destroyed when emptied and
/// not owned by the caller.
pub fn leave_room(state: &mut GameState, sender: Identity) -> (r: Result<(), GameError>)
    requires
        old(state).inv(),
    ensures
        final(state).inv(),
        match r {
            Ok(()) => ({
                let i = player_idx(old(state).players@, sender);
                &&& has_player(old(state).players@, sender)
                &&& final(state).players@ == old(state).players@.remove(i)
                &&& final(state).rooms@ == spec_depart(
                    old(state).rooms@,
                    old(state).players@[i].room_name@,
                    sender,
                )
                &&& final(state).logged_out == old(state).logged_out
                &&& final(state).tiles == old(state).tiles
                &&& final(state).schedules == old(state).schedules
            }),
            Err(e) => {
                &&& e == GameError::PlayerNotFound
                &&& !has_player(old(state).players@, sender)
                &&& same_state(*old(state), *final(state))
            },
        },
{
    let pi = match find_player(&state.players, sender) {
        None => {
            return Err(GameError::PlayerNotFound);
        },
        Some(pi) => pi,
    };
    proof {
        lemma_player_idx_of(state.players@, pi as int);
    }
    let _removed = crate::store::remove_active(state, pi, sender);
    Ok(())
}

} // verus!
