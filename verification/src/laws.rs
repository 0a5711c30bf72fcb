//! The store's global laws, stated on their own so a reader sees them
//! directly rather than inferring them from the operation contracts. Every
//! public operation requires and re-establishes `GameState::inv`, so these
//! hold of every committed state.

use vstd::prelude::*;
use crate::types::{Identity, Timestamp};
use crate::store::{count_in_room, has_logged_out, has_player, player_idx, vote_reset_moved, GameState};
use crate::session::spec_register_effect;

verus! {

/// In every committed state, each room's `current_player_count` equals the
/// number of active player rows whose `room_name` matches it.
pub proof fn lemma_room_count_matches_members(s: GameState, k: int)
    requires
        s.inv(),
        0 <= k < s.rooms@.len(),
    ensures
        s.rooms@[k].current_player_count == count_in_room(s.players@, s.rooms@[k].name@),
{
}

/// In every committed state, no identity holds both an active row and a
/// disconnected row.
pub proof fn lemma_no_identity_active_and_disconnected(s: GameState, i: int, j: int)
    requires
        s.inv(),
        0 <= i < s.players@.len(),
        0 <= j < s.logged_out@.len(),
    ensures
        s.players@[i].identity != s.logged_out@[j].identity,
{
    assert(!has_logged_out(s.logged_out@, s.players@[i].identity));
}

/// Registering an already-active identity never duplicates its row: the
/// player list keeps its length, every other row is untouched, and the
/// caller's row changes only in `room_name` and the vote-reset fields. So a
/// second registration right after a first one changes nothing else either.
pub proof fn lemma_register_active_no_duplicate(
    s: GameState,
    t: GameState,
    sender: Identity,
    now: Timestamp,
    username: String,
    character_class: String,
    room_name: String,
)
    requires
        has_player(s.players@, sender),
        spec_register_effect(s, t, sender, now, username, character_class, room_name),
    ensures
        t.players@.len() == s.players@.len(),
        vote_reset_moved(
            t.players@[player_idx(s.players@, sender)],
            s.players@[player_idx(s.players@, sender)],
            room_name@,
        ),
        forall|j: int|
            0 <= j < s.players@.len() && j != player_idx(s.players@, sender) ==> t.players@[j]
                == s.players@[j],
        t.logged_out@ == s.logged_out@,
{
}

} // verus!
