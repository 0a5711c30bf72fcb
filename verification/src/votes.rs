//! The per-room consensus mechanism: enumerated votes layered on player
//! rows.

use vstd::prelude::*;
use crate::types::{GameError, Identity, PlayerData};
use crate::store::{
    count_in_room, find_player, has_player, has_room, lemma_count_congruent, lemma_count_update,
    lemma_player_idx_of, player_idx, same_state, GameState,
};

verus! {

/// The fixed set of accepted vote tokens.
pub open spec fn is_valid_vote(v: Seq<char>) -> bool {
    v == "S"@ || v == "M"@ || v == "L"@ || v == "XL"@
}

/// `q` is `p` with its vote state cleared and every other field kept.
pub open spec fn spec_vote_cleared(q: PlayerData, p: PlayerData) -> bool {
    &&& q == (PlayerData { has_voted: false, current_vote: q.current_vote, ..p })
    &&& q.current_vote@ == Seq::<char>::empty()
}

/// Records the caller's vote: the token must be one of the accepted set and
/// the caller must hold an active row; on success the row's `current_vote`
/// becomes the token and `has_voted` is set.
pub fn submit_vote(state: &mut GameState, sender: Identity, vote: String) -> (r: Result<
    (),
    GameError,
>)
    requires
        old(state).inv(),
    ensures
        final(state).inv(),
        match r {
            Ok(()) => ({
                let i = player_idx(old(state).players@, sender);
                &&& is_valid_vote(vote@)
                &&& has_player(old(state).players@, sender)
                &&& final(state).players@ == old(state).players@.update(
                    i,
                    (PlayerData { current_vote: vote, has_voted: true, ..old(state).players@[i] }),
                )
                &&& final(state).rooms == old(state).rooms
                &&& final(state).logged_out == old(state).logged_out
                &&& final(state).tiles == old(state).tiles
                &&& final(state).schedules == old(state).schedules
            }),
            Err(e) => {
                &&& same_state(*old(state), *final(state))
                &&& (e == GameError::InvalidVote && !is_valid_vote(vote@) || e
                    == GameError::PlayerNotFound && is_valid_vote(vote@) && !has_player(
                    old(state).players@,
                    sender,
                ))
            },
        },
{
    let valid = vote == "S".to_owned() || vote == "M".to_owned() || vote == "L".to_owned() || vote
        == "XL".to_owned();
    if !valid {
        return Err(GameError::InvalidVote);
    }
    let found = find_player(&state.players, sender);
    match found {
        None => Err(GameError::PlayerNotFound),
        Some(pi) => {
            proof {
                lemma_player_idx_of(state.players@, pi as int);
            }
            let ghost players0 = state.players@;
            state.players[pi].current_vote = vote;
            state.players[pi].has_voted = true;
            proof {
                let q = state.players@[pi as int];
                assert(state.players@ =~= players0.update(pi as int, q));
                assert forall|k: int|
                    0 <= k < state.rooms@.len() implies (
                #[trigger] state.rooms@[k]).current_player_count == count_in_room(
                    state.players@,
                    state.rooms@[k].name@,
                ) by {
                    lemma_count_update(players0, pi as int, q, state.rooms@[k].name@);
                }
                assert forall|a: int, b: int|
                    0 <= a < b < state.players@.len() implies state.players@[a].identity
                    != state.players@[b].identity by {
                    assert(q.identity == players0[pi as int].identity);
                }
                assert(state.active_disjoint()) by {
                    assert forall|j: int|
                        0 <= j < state.players@.len() implies !crate::store::has_logged_out(
                        state.logged_out@,
                        (#[trigger] state.players@[j]).identity,
                    ) by {
                        assert(state.players@[j].identity == players0[j].identity);
                    }
                }
                assert forall|j: int|
                    0 <= j < state.players@.len() implies has_room(
                    state.rooms@,
                    (#[trigger] state.players@[j]).room_name@,
                ) by {
                    assert(state.players@[j].room_name@ == players0[j].room_name@);
                }
            }
            Ok(())
        },
    }
}

/// Starts a new voting round: clears `has_voted` and `current_vote` for
/// every active row, unconditionally and for any caller.
pub fn reset_votes(state: &mut GameState) -> (r: Result<(), GameError>)
    requires
        old(state).inv(),
    ensures
        final(state).inv(),
        r is Ok,
        final(state).players@.len() == old(state).players@.len(),
        forall|j: int|
            0 <= j < old(state).players@.len() ==> spec_vote_cleared(
                final(state).players@[j],
                old(state).players@[j],
            ),
        final(state).rooms == old(state).rooms,
        final(state).logged_out == old(state).logged_out,
        final(state).tiles == old(state).tiles,
        final(state).schedules == old(state).schedules,
{
    let ghost players0 = old(state).players@;
    let n = state.players.len();
    let mut i: usize = 0;
    while i < n
        invariant
            n == players0.len(),
            i <= n,
            state.players@.len() == n,
            forall|j: int| i <= j < n ==> state.players@[j] == players0[j],
            forall|j: int| 0 <= j < i ==> spec_vote_cleared(state.players@[j], players0[j]),
            state.rooms == old(state).rooms,
            state.logged_out == old(state).logged_out,
            state.tiles == old(state).tiles,
            state.schedules == old(state).schedules,
        decreases n - i,
    {
        state.players[i].current_vote = String::new();
        state.players[i].has_voted = false;
        i += 1;
    }
    proof {
        assert forall|k: int|
            0 <= k < state.rooms@.len() implies (#[trigger] state.rooms@[k]).current_player_count
            == count_in_room(state.players@, state.rooms@[k].name@) by {
            assert(forall|j: int|
                0 <= j < n ==> (#[trigger] state.players@[j]).room_name@ == players0[j].room_name@);
            lemma_count_congruent(players0, state.players@, state.rooms@[k].name@);
        }
        assert forall|a: int, b: int|
            0 <= a < b < state.players@.len() implies state.players@[a].identity
            != state.players@[b].identity by {
            assert(state.players@[a].identity == players0[a].identity);
            assert(state.players@[b].identity == players0[b].identity);
        }
        assert(state.active_disjoint()) by {
            assert forall|j: int|
                0 <= j < state.players@.len() implies !crate::store::has_logged_out(
                state.logged_out@,
                (#[trigger] state.players@[j]).identity,
            ) by {
                assert(state.players@[j].identity == players0[j].identity);
            }
        }
        assert forall|j: int|
            0 <= j < state.players@.len() implies has_room(
            state.rooms@,
            (#[trigger] state.players@[j]).room_name@,
        ) by {
            assert(state.players@[j].room_name@ == players0[j].room_name@);
        }
    }
    Ok(())
}

} // verus!
