//! The entity store: one value holding every durable row, with the global
//! well-formedness invariant and the counting arguments the room-occupancy
//! bookkeeping rests on.

use vstd::prelude::*;
use crate::types::{GameTickSchedule, GameTile, Identity, LoggedOutPlayerData, PlayerData, Room};

verus! {

/// The whole durable state: rooms, active players, disconnected players,
/// static world tiles and the tick schedule. Every public operation of the
/// crate is a transaction on one `GameState`.
pub struct GameState {
    pub rooms: Vec<Room>,
    pub players: Vec<PlayerData>,
    pub logged_out: Vec<LoggedOutPlayerData>,
    pub tiles: Vec<GameTile>,
    pub schedules: Vec<GameTickSchedule>,
}

/// Number of active players whose `room_name` is `room`.
pub open spec fn count_in_room(players: Seq<PlayerData>, room: Seq<char>) -> int
    decreases players.len(),
{
    if players.len() == 0 {
        0
    } else {
        count_in_room(players.drop_last(), room) + if players.last().room_name@ == room {
            1int
        } else {
            0int
        }
    }
}

/// Some room in `rooms` is named `name`.
pub open spec fn has_room(rooms: Seq<Room>, name: Seq<char>) -> bool {
    exists|i: int| 0 <= i < rooms.len() && rooms[i].name@ == name
}

/// The index of the room named `name` (the index, once names are unique).
pub open spec fn room_idx(rooms: Seq<Room>, name: Seq<char>) -> int {
    choose|i: int| 0 <= i < rooms.len() && rooms[i].name@ == name
}

/// Some active player row belongs to `id`.
pub open spec fn has_player(players: Seq<PlayerData>, id: Identity) -> bool {
    exists|i: int| 0 <= i < players.len() && players[i].identity == id
}

/// The index of `id`'s active row (the index, once identities are unique).
pub open spec fn player_idx(players: Seq<PlayerData>, id: Identity) -> int {
    choose|i: int| 0 <= i < players.len() && players[i].identity == id
}

/// Some disconnected-player row belongs to `id`.
pub open spec fn has_logged_out(rows: Seq<LoggedOutPlayerData>, id: Identity) -> bool {
    exists|i: int| 0 <= i < rows.len() && rows[i].identity == id
}

/// The index of `id`'s disconnected row (the index, once identities are unique).
pub open spec fn logged_out_idx(rows: Seq<LoggedOutPlayerData>, id: Identity) -> int {
    choose|i: int| 0 <= i < rows.len() && rows[i].identity == id
}

/// Room names are pairwise distinct.
pub open spec fn rooms_unique(rooms: Seq<Room>) -> bool {
    forall|i: int, j: int|
        0 <= i < j < rooms.len() ==> rooms[i].name@ != rooms[j].name@
}

/// Active player identities are pairwise distinct.
pub open spec fn players_unique(players: Seq<PlayerData>) -> bool {
    forall|i: int, j: int|
        0 <= i < j < players.len() ==> players[i].identity != players[j].identity
}

/// Disconnected player identities are pairwise distinct.
pub open spec fn logged_out_unique(rows: Seq<LoggedOutPlayerData>) -> bool {
    forall|i: int, j: int|
        0 <= i < j < rows.len() ==> rows[i].identity != rows[j].identity
}

impl GameState {
    /// No identity holds both an active row and a disconnected row.
    pub open spec fn active_disjoint(self) -> bool {
        forall|i: int|
            0 <= i < self.players@.len() ==> !has_logged_out(
                self.logged_out@,
                (#[trigger] self.players@[i]).identity,
            )
    }

    /// Every room's occupancy counter equals the number of active players
    /// whose `room_name` matches it.
    pub open spec fn counts_consistent(self) -> bool {
        forall|i: int|
            0 <= i < self.rooms@.len() ==> (#[trigger] self.rooms@[i]).current_player_count
                == count_in_room(self.players@, self.rooms@[i].name@)
    }

    /// Every active player's `room_name` names an existing room.
    pub open spec fn players_rooms_exist(self) -> bool {
        forall|i: int|
            0 <= i < self.players@.len() ==> has_room(
                self.rooms@,
                (#[trigger] self.players@[i]).room_name@,
            )
    }

    /// Well-formedness of the whole store. Constructors establish it and
    /// every public operation preserves it.
    pub open spec fn inv(self) -> bool {
        &&& rooms_unique(self.rooms@)
        &&& players_unique(self.players@)
        &&& logged_out_unique(self.logged_out@)
        &&& self.active_disjoint()
        &&& self.counts_consistent()
        &&& self.players_rooms_exist()
    }

    /// The empty store.
    pub fn new() -> (s: GameState)
        ensures
            s.inv(),
            s.rooms@.len() == 0,
            s.players@.len() == 0,
            s.logged_out@.len() == 0,
            s.tiles@.len() == 0,
            s.schedules@.len() == 0,
    {
        GameState {
            rooms: Vec::new(),
            players: Vec::new(),
            logged_out: Vec::new(),
            tiles: Vec::new(),
            schedules: Vec::new(),
        }
    }
}

/// The two states hold exactly the same rows.
pub open spec fn same_state(a: GameState, b: GameState) -> bool {
    &&& a.rooms@ == b.rooms@
    &&& a.players@ == b.players@
    &&& a.logged_out@ == b.logged_out@
    &&& a.tiles@ == b.tiles@
    &&& a.schedules@ == b.schedules@
}

// --- Counting lemmas ---

/// The occupancy count is between 0 and the number of players.
pub proof fn lemma_count_bounds(players: Seq<PlayerData>, room: Seq<char>)
    ensures
        0 <= count_in_room(players, room) <= players.len(),
    decreases players.len(),
{
    if players.len() > 0 {
        lemma_count_bounds(players.drop_last(), room);
    }
}

/// Appending a player adds one to the count of exactly its own room.
pub proof fn lemma_count_push(players: Seq<PlayerData>, p: PlayerData, room: Seq<char>)
    ensures
        count_in_room(players.push(p), room) == count_in_room(players, room) + if p.room_name@
            == room {
            1int
        } else {
            0int
        },
{
    assert(players.push(p).drop_last() =~= players);
}

/// Replacing the row at `i` moves one count from the old row's room to the
/// new row's room.
pub proof fn lemma_count_update(players: Seq<PlayerData>, i: int, p: PlayerData, room: Seq<char>)
    requires
        0 <= i < players.len(),
    ensures
        count_in_room(players.update(i, p), room) == count_in_room(players, room) - (
        if players[i].room_name@ == room {
            1int
        } else {
            0int
        }) + (
        if p.room_name@ == room {
            1int
        } else {
            0int
        }),
    decreases players.len(),
{
    let s2 = players.update(i, p);
    if i == players.len() - 1 {
        assert(s2.drop_last() =~= players.drop_last());
        assert(s2.last() == p);
    } else {
        assert(s2.drop_last() =~= players.drop_last().update(i, p));
        assert(s2.last() == players.last());
        lemma_count_update(players.drop_last(), i, p, room);
    }
}

/// Removing the row at `i` subtracts one from the count of its room.
pub proof fn lemma_count_remove(players: Seq<PlayerData>, i: int, room: Seq<char>)
    requires
        0 <= i < players.len(),
    ensures
        count_in_room(players.remove(i), room) == count_in_room(players, room) - if players[i].room_name@
            == room {
            1int
        } else {
            0int
        },
    decreases players.len(),
{
    let s2 = players.remove(i);
    if i == players.len() - 1 {
        assert(s2 =~= players.drop_last());
    } else {
        assert(s2.drop_last() =~= players.drop_last().remove(i));
        assert(s2.last() == players.last());
        lemma_count_remove(players.drop_last(), i, room);
    }
}

/// A room's count is zero exactly when no player row points at it.
pub proof fn lemma_count_zero_iff(players: Seq<PlayerData>, room: Seq<char>)
    ensures
        (count_in_room(players, room) == 0) <==> (forall|j: int|
            0 <= j < players.len() ==> players[j].room_name@ != room),
    decreases players.len(),
{
    lemma_count_bounds(players, room);
    if players.len() > 0 {
        lemma_count_zero_iff(players.drop_last(), room);
        lemma_count_bounds(players.drop_last(), room);
        assert(forall|j: int|
            0 <= j < players.len() - 1 ==> players[j] == players.drop_last()[j]);
        assert(players.last() == players[players.len() - 1]);
    }
}

/// A room some player row points at has at least one occupant counted.
pub proof fn lemma_count_member(players: Seq<PlayerData>, j: int, room: Seq<char>)
    requires
        0 <= j < players.len(),
        players[j].room_name@ == room,
    ensures
        count_in_room(players, room) >= 1,
{
    lemma_count_bounds(players, room);
    lemma_count_zero_iff(players, room);
}

/// Two player sequences that agree on every row's room have equal counts.
pub proof fn lemma_count_congruent(s1: Seq<PlayerData>, s2: Seq<PlayerData>, room: Seq<char>)
    requires
        s1.len() == s2.len(),
        forall|j: int| 0 <= j < s1.len() ==> s1[j].room_name@ == s2[j].room_name@,
    ensures
        count_in_room(s1, room) == count_in_room(s2, room),
    decreases s1.len(),
{
    if s1.len() > 0 {
        assert(forall|j: int|
            0 <= j < s1.len() - 1 ==> s1.drop_last()[j].room_name@ == s2.drop_last()[j].room_name@);
        lemma_count_congruent(s1.drop_last(), s2.drop_last(), room);
    }
}

/// Under unique names, the room found at `i` is the room `room_idx` picks.
pub proof fn lemma_room_idx_of(rooms: Seq<Room>, i: int)
    requires
        rooms_unique(rooms),
        0 <= i < rooms.len(),
    ensures
        room_idx(rooms, rooms[i].name@) == i,
        has_room(rooms, rooms[i].name@),
{
    let name = rooms[i].name@;
    assert(has_room(rooms, name));
    let k = room_idx(rooms, name);
    assert(0 <= k < rooms.len() && rooms[k].name@ == name);
    if k != i {
        if k < i {
            assert(rooms[k].name@ != rooms[i].name@);
        } else {
            assert(rooms[i].name@ != rooms[k].name@);
        }
    }
}

/// Under unique identities, the player row at `i` is the one `player_idx` picks.
pub proof fn lemma_player_idx_of(players: Seq<PlayerData>, i: int)
    requires
        players_unique(players),
        0 <= i < players.len(),
    ensures
        player_idx(players, players[i].identity) == i,
        has_player(players, players[i].identity),
{
    let id = players[i].identity;
    assert(has_player(players, id));
    let k = player_idx(players, id);
    assert(0 <= k < players.len() && players[k].identity == id);
    if k < i {
        assert(players[k].identity != players[i].identity);
    } else if i < k {
        assert(players[i].identity != players[k].identity);
    }
}

/// Under unique identities, the disconnected row at `i` is the one
/// `logged_out_idx` picks.
pub proof fn lemma_logged_out_idx_of(rows: Seq<LoggedOutPlayerData>, i: int)
    requires
        logged_out_unique(rows),
        0 <= i < rows.len(),
    ensures
        logged_out_idx(rows, rows[i].identity) == i,
        has_logged_out(rows, rows[i].identity),
{
    let id = rows[i].identity;
    assert(has_logged_out(rows, id));
    let k = logged_out_idx(rows, id);
    assert(0 <= k < rows.len() && rows[k].identity == id);
    if k < i {
        assert(rows[k].identity != rows[i].identity);
    } else if i < k {
        assert(rows[i].identity != rows[k].identity);
    }
}

/// `p2` is `p1` moved to the room called `room` with its vote state
/// cleared; every other field is kept.
pub open spec fn vote_reset_moved(p2: PlayerData, p1: PlayerData, room: Seq<char>) -> bool {
    &&& p2.identity == p1.identity
    &&& p2.username == p1.username
    &&& p2.character_class == p1.character_class
    &&& p2.position == p1.position
    &&& p2.rotation == p1.rotation
    &&& p2.current_animation == p1.current_animation
    &&& p2.is_moving == p1.is_moving
    &&& p2.is_running == p1.is_running
    &&& p2.is_attacking == p1.is_attacking
    &&& p2.is_casting == p1.is_casting
    &&& p2.last_input_seq == p1.last_input_seq
    &&& p2.input == p1.input
    &&& p2.color == p1.color
    &&& p2.has_voted == false
    &&& p2.current_vote@ == Seq::<char>::empty()
    &&& p2.room_name@ == room
}

// --- Room membership transitions ---

/// The room list after one occupant named `leaver` has left the room called
/// `name`: its counter drops (saturating at zero), and an emptied room that
/// `leaver` does not own is destroyed.
pub open spec fn spec_depart(rooms: Seq<Room>, name: Seq<char>, leaver: Identity) -> Seq<Room> {
    if !has_room(rooms, name) {
        rooms
    } else {
        let i = room_idx(rooms, name);
        let r = rooms[i];
        let c = if r.current_player_count > 0 {
            (r.current_player_count - 1) as u32
        } else {
            0u32
        };
        if c == 0 && r.owner_identity != leaver {
            rooms.remove(i)
        } else {
            rooms.update(i, Room { current_player_count: c, ..r })
        }
    }
}

/// The room list after one occupant has entered the room called `name`:
/// its counter rises by one.
pub open spec fn spec_arrive(rooms: Seq<Room>, name: Seq<char>) -> Seq<Room> {
    if !has_room(rooms, name) {
        rooms
    } else {
        let i = room_idx(rooms, name);
        let r = rooms[i];
        rooms.update(i, Room { current_player_count: (r.current_player_count + 1) as u32, ..r })
    }
}

/// Removing a room keeps the remaining names pairwise distinct.
pub proof fn lemma_rooms_unique_remove(rooms: Seq<Room>, k: int)
    requires
        rooms_unique(rooms),
        0 <= k < rooms.len(),
    ensures
        rooms_unique(rooms.remove(k)),
{
    let s2 = rooms.remove(k);
    assert forall|i: int, j: int| 0 <= i < j < s2.len() implies s2[i].name@ != s2[j].name@ by {
        let i0: int = if i < k {
            i
        } else {
            i + 1
        };
        let j0: int = if j < k {
            j
        } else {
            j + 1
        };
        assert(s2[i] == rooms[i0]);
        assert(s2[j] == rooms[j0]);
    }
}

/// Replacing a room by one with the same name keeps names pairwise distinct.
pub proof fn lemma_rooms_unique_update(rooms: Seq<Room>, k: int, r2: Room)
    requires
        rooms_unique(rooms),
        0 <= k < rooms.len(),
        r2.name@ == rooms[k].name@,
    ensures
        rooms_unique(rooms.update(k, r2)),
{
    let s2 = rooms.update(k, r2);
    assert forall|i: int, j: int| 0 <= i < j < s2.len() implies s2[i].name@ != s2[j].name@ by {
        assert(rooms[i].name@ != rooms[j].name@);
    }
}

/// A room other than the removed one is still there afterwards.
pub proof fn lemma_has_room_remove(rooms: Seq<Room>, k: int, name: Seq<char>)
    requires
        0 <= k < rooms.len(),
        has_room(rooms, name),
        rooms[k].name@ != name,
    ensures
        has_room(rooms.remove(k), name),
{
    let j = choose|j: int| 0 <= j < rooms.len() && rooms[j].name@ == name;
    let s2 = rooms.remove(k);
    if j < k {
        assert(s2[j] == rooms[j]);
    } else {
        assert(s2[j - 1] == rooms[j]);
    }
}

/// Every room name present before an update with an equally-named room is
/// present afterwards.
pub proof fn lemma_has_room_update(rooms: Seq<Room>, k: int, r2: Room, name: Seq<char>)
    requires
        0 <= k < rooms.len(),
        has_room(rooms, name),
        r2.name@ == rooms[k].name@,
    ensures
        has_room(rooms.update(k, r2), name),
{
    let j = choose|j: int| 0 <= j < rooms.len() && rooms[j].name@ == name;
    let s2 = rooms.update(k, r2);
    if j == k {
        assert(s2[k].name@ == name);
    } else {
        assert(s2[j] == rooms[j]);
    }
}

/// One occupant named `leaver` leaves the room called `name`; see
/// [`spec_depart`] for the exact effect on the room list. Nothing else
/// changes.
pub fn depart_room(state: &mut GameState, name: &String, leaver: Identity)
    requires
        rooms_unique(old(state).rooms@),
    ensures
        final(state).rooms@ == spec_depart(old(state).rooms@, name@, leaver),
        rooms_unique(final(state).rooms@),
        final(state).players == old(state).players,
        final(state).logged_out == old(state).logged_out,
        final(state).tiles == old(state).tiles,
        final(state).schedules == old(state).schedules,
{
    let found = find_room(&state.rooms, name);
    match found {
        None => {},
        Some(i) => {
            proof {
                lemma_room_idx_of(state.rooms@, i as int);
            }
            let c0 = state.rooms[i].current_player_count;
            let c = if c0 > 0 {
                c0 - 1
            } else {
                0
            };
            if c == 0 && state.rooms[i].owner_identity != leaver {
                state.rooms.remove(i);
                proof {
                    lemma_rooms_unique_remove(old(state).rooms@, i as int);
                }
            } else {
                let ghost r = state.rooms@[i as int];
                state.rooms[i].current_player_count = c;
                proof {
                    assert(state.rooms@ == old(state).rooms@.update(
                        i as int,
                        (Room { current_player_count: c, ..r }),
                    ));
                    lemma_rooms_unique_update(
                        old(state).rooms@,
                        i as int,
                        (Room { current_player_count: c, ..r }),
                    );
                }
            }
        },
    }
}

/// Removing a player row keeps the remaining identities pairwise distinct.
pub proof fn lemma_players_unique_remove(players: Seq<PlayerData>, k: int)
    requires
        players_unique(players),
        0 <= k < players.len(),
    ensures
        players_unique(players.remove(k)),
{
    let s2 = players.remove(k);
    assert forall|i: int, j: int| 0 <= i < j < s2.len() implies s2[i].identity != s2[j].identity by {
        let i0: int = if i < k {
            i
        } else {
            i + 1
        };
        let j0: int = if j < k {
            j
        } else {
            j + 1
        };
        assert(s2[i] == players[i0]);
        assert(s2[j] == players[j0]);
    }
}

/// Removing a disconnected row keeps the remaining identities pairwise
/// distinct.
pub proof fn lemma_logged_out_unique_remove(rows: Seq<LoggedOutPlayerData>, k: int)
    requires
        logged_out_unique(rows),
        0 <= k < rows.len(),
    ensures
        logged_out_unique(rows.remove(k)),
{
    let s2 = rows.remove(k);
    assert forall|i: int, j: int| 0 <= i < j < s2.len() implies s2[i].identity != s2[j].identity by {
        let i0: int = if i < k {
            i
        } else {
            i + 1
        };
        let j0: int = if j < k {
            j
        } else {
            j + 1
        };
        assert(s2[i] == rows[i0]);
        assert(s2[j] == rows[j0]);
    }
}

/// Removes the active row at `pi` (the caller's) and lets it depart its
/// room; returns the removed row. The identity has no active row afterwards.
pub fn remove_active(state: &mut GameState, pi: usize, sender: Identity) -> (p: PlayerData)
    requires
        old(state).inv(),
        pi < old(state).players@.len(),
        old(state).players@[pi as int].identity == sender,
    ensures
        final(state).inv(),
        p == old(state).players@[pi as int],
        final(state).players@ == old(state).players@.remove(pi as int),
        final(state).rooms@ == spec_depart(
            old(state).rooms@,
            old(state).players@[pi as int].room_name@,
            sender,
        ),
        !has_player(final(state).players@, sender),
        final(state).logged_out == old(state).logged_out,
        final(state).tiles == old(state).tiles,
        final(state).schedules == old(state).schedules,
{
    let ghost players0 = old(state).players@;
    let ghost rooms0 = old(state).rooms@;
    let ghost oldn = players0[pi as int].room_name@;
    proof {
        assert(has_room(rooms0, oldn));
        lemma_count_member(players0, pi as int, oldn);
    }
    let p = state.players.remove(pi);
    let name = p.room_name.clone();
    depart_room(state, &name, sender);
    proof {
        let players1 = state.players@;
        let rooms1 = state.rooms@;
        let o = room_idx(rooms0, oldn);
        assert(0 <= o < rooms0.len() && rooms0[o].name@ == oldn);
        let c_o = rooms0[o].current_player_count;
        assert(c_o == count_in_room(players0, oldn));
        assert(c_o >= 1);
        let removed = c_o - 1 == 0 && rooms0[o].owner_identity != sender;
        assert forall|k: int|
            0 <= k < rooms1.len() implies (#[trigger] rooms1[k]).current_player_count
            == count_in_room(players1, rooms1[k].name@) by {
            lemma_count_remove(players0, pi as int, rooms1[k].name@);
            if removed {
                let k0: int = if k < o {
                    k
                } else {
                    k + 1
                };
                assert(rooms1[k] == rooms0[k0]);
                assert(rooms0[k0].name@ != oldn);
            } else {
                if k != o {
                    assert(rooms1[k] == rooms0[k]);
                    assert(rooms0[k].name@ != oldn);
                }
            }
        }
        lemma_players_unique_remove(players0, pi as int);
        assert forall|j: int| 0 <= j < players1.len() implies (#[trigger] players1[j]).identity
            != sender by {
            let j0: int = if j < pi {
                j
            } else {
                j + 1
            };
            assert(players1[j] == players0[j0]);
        }
        assert(state.active_disjoint()) by {
            assert forall|j: int|
                0 <= j < players1.len() implies !has_logged_out(
                state.logged_out@,
                (#[trigger] players1[j]).identity,
            ) by {
                let j0: int = if j < pi {
                    j
                } else {
                    j + 1
                };
                assert(players1[j] == players0[j0]);
            }
        }
        assert forall|j: int|
            0 <= j < players1.len() implies has_room(
            rooms1,
            (#[trigger] players1[j]).room_name@,
        ) by {
            let j0: int = if j < pi {
                j
            } else {
                j + 1
            };
            assert(players1[j] == players0[j0]);
            let n = players0[j0].room_name@;
            assert(has_room(rooms0, n));
            if n == oldn {
                if removed {
                    lemma_count_remove(players0, pi as int, oldn);
                    lemma_count_zero_iff(players1, oldn);
                    assert(false);
                } else {
                    assert(rooms1[o].name@ == oldn);
                }
            } else {
                if removed {
                    lemma_has_room_remove(rooms0, o, n);
                } else {
                    lemma_has_room_update(
                        rooms0,
                        o,
                        (Room {
                            current_player_count: (c_o - 1) as u32,
                            ..rooms0[o]
                        }),
                        n,
                    );
                }
            }
        }
    }
    p
}

/// One occupant enters the room called `name`; see [`spec_arrive`] for the
/// exact effect on the room list. Nothing else changes.
pub fn arrive_room(state: &mut GameState, name: &String)
    requires
        rooms_unique(old(state).rooms@),
        has_room(old(state).rooms@, name@) ==> old(state).rooms@[room_idx(
            old(state).rooms@,
            name@,
        )].current_player_count < u32::MAX,
    ensures
        final(state).rooms@ == spec_arrive(old(state).rooms@, name@),
        rooms_unique(final(state).rooms@),
        final(state).players == old(state).players,
        final(state).logged_out == old(state).logged_out,
        final(state).tiles == old(state).tiles,
        final(state).schedules == old(state).schedules,
{
    let found = find_room(&state.rooms, name);
    match found {
        None => {},
        Some(i) => {
            proof {
                lemma_room_idx_of(state.rooms@, i as int);
            }
            let ghost r = state.rooms@[i as int];
            let c = state.rooms[i].current_player_count;
            state.rooms[i].current_player_count = c + 1;
            proof {
                lemma_rooms_unique_update(
                    old(state).rooms@,
                    i as int,
                    (Room { current_player_count: (c + 1) as u32, ..r }),
                );
            }
        },
    }
}

// --- Executable lookups ---

/// Point lookup of a room by name.
pub fn find_room(rooms: &Vec<Room>, name: &String) -> (r: Option<usize>)
    ensures
        match r {
            Some(i) => i < rooms@.len() && rooms@[i as int].name@ == name@,
            None => !has_room(rooms@, name@),
        },
{
    let n = rooms.len();
    let mut i: usize = 0;
    while i < n
        invariant
            n == rooms@.len(),
            i <= n,
            forall|j: int| 0 <= j < i ==> rooms@[j].name@ != name@,
        decreases n - i,
    {
        if rooms[i].name == *name {
            return Some(i);
        }
        i += 1;
    }
    None
}

/// Point lookup of an active player by identity.
pub fn find_player(players: &Vec<PlayerData>, id: Identity) -> (r: Option<usize>)
    ensures
        match r {
            Some(i) => i < players@.len() && players@[i as int].identity == id,
            None => !has_player(players@, id),
        },
{
    let n = players.len();
    let mut i: usize = 0;
    while i < n
        invariant
            n == players@.len(),
            i <= n,
            forall|j: int| 0 <= j < i ==> players@[j].identity != id,
        decreases n - i,
    {
        if players[i].identity == id {
            return Some(i);
        }
        i += 1;
    }
    None
}

/// Point lookup of a disconnected player by identity.
pub fn find_logged_out(rows: &Vec<LoggedOutPlayerData>, id: Identity) -> (r: Option<usize>)
    ensures
        match r {
            Some(i) => i < rows@.len() && rows@[i as int].identity == id,
            None => !has_logged_out(rows@, id),
        },
{
    let n = rows.len();
    let mut i: usize = 0;
    while i < n
        invariant
            n == rows@.len(),
            i <= n,
            forall|j: int| 0 <= j < i ==> rows@[j].identity != id,
        decreases n - i,
    {
        if rows[i].identity == id {
            return Some(i);
        }
        i += 1;
    }
    None
}

} // verus!
