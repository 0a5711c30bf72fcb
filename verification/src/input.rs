//! Input reconciliation: applies a client's latest input snapshot to its
//! server-side row under a monotonic sequence gate.

use vstd::prelude::*;
use crate::types::{Identity, InputState, PlayerData, Vector3};
use crate::store::{
    count_in_room, find_player, has_player, has_room, lemma_count_update, lemma_player_idx_of,
    player_idx, same_state, GameState,
};

verus! {

/// `q` is `p` with the snapshot `input` applied: action and movement flags
/// recomputed from the input, rotation and animation taken from the
/// client's report, and the sequence gate advanced. The position is left to
/// the simulation tick.
pub open spec fn spec_input_applied(
    q: PlayerData,
    p: PlayerData,
    input: InputState,
    client_rot: Vector3,
    client_animation: String,
) -> bool {
    let moving = input.forward || input.backward || input.left || input.right;
    q == (PlayerData {
        rotation: client_rot,
        current_animation: client_animation,
        input: input,
        last_input_seq: input.sequence,
        is_attacking: input.attack,
        is_casting: input.cast_spell,
        is_moving: moving,
        is_running: moving && input.sprint,
        ..p
    })
}

/// Applies the caller's input snapshot to its active row. A caller without
/// an active row is ignored (late packets after a disconnect are expected),
/// and a snapshot whose sequence does not exceed the stored one leaves every
/// field unchanged — out-of-order packets can never revert state.
pub fn update_player_input(
    state: &mut GameState,
    sender: Identity,
    input: InputState,
    _client_pos: Vector3,
    client_rot: Vector3,
    client_animation: String,
)
    requires
        old(state).inv(),
    ensures
        final(state).inv(),
        !has_player(old(state).players@, sender) ==> same_state(*old(state), *final(state)),
        has_player(old(state).players@, sender) ==> ({
            let i = player_idx(old(state).players@, sender);
            let p = old(state).players@[i];
            if input.sequence <= p.last_input_seq {
                same_state(*old(state), *final(state))
            } else {
                &&& final(state).players@.len() == old(state).players@.len()
                &&& spec_input_applied(
                    final(state).players@[i],
                    p,
                    input,
                    client_rot,
                    client_animation,
                )
                &&& forall|j: int|
                    0 <= j < old(state).players@.len() && j != i ==> final(state).players@[j]
                        == old(state).players@[j]
                &&& final(state).rooms == old(state).rooms
                &&& final(state).logged_out == old(state).logged_out
                &&& final(state).tiles == old(state).tiles
                &&& final(state).schedules == old(state).schedules
            }
        }),
{
    let ghost players0 = old(state).players@;
    let found = find_player(&state.players, sender);
    match found {
        None => {},
        Some(pi) => {
            proof {
                lemma_player_idx_of(players0, pi as int);
            }
            if input.sequence <= state.players[pi].last_input_seq {
                return ;
            }
            let moving = input.forward || input.backward || input.left || input.right;
            state.players[pi].is_attacking = input.attack;
            state.players[pi].is_casting = input.cast_spell;
            state.players[pi].is_moving = moving;
            state.players[pi].is_running = moving && input.sprint;
            state.players[pi].rotation = client_rot;
            state.players[pi].current_animation = client_animation;
            state.players[pi].input = input;
            state.players[pi].last_input_seq = input.sequence;
            proof {
                let q = state.players@[pi as int];
                assert(state.players@ =~= players0.update(pi as int, q));
                assert forall|k: int|
                    0 <= k < state.rooms@.len() implies (
                #[trigger] state.rooms@[k]).current_player_count == count_in_room(
                    state.players@,
                    state.rooms@[k].name@,
                ) by {
                    lemma_count_update(players0, pi as int, q, state.rooms@[k].name@);
                }
                assert forall|a: int, b: int|
                    0 <= a < b < state.players@.len() implies state.players@[a].identity
                    != state.players@[b].identity by {
                    assert(q.identity == players0[pi as int].identity);
                }
                assert(state.active_disjoint()) by {
                    assert forall|j: int|
                        0 <= j < state.players@.len() implies !crate::store::has_logged_out(
                        state.logged_out@,
                        (#[trigger] state.players@[j]).identity,
                    ) by {
                        assert(state.players@[j].identity == players0[j].identity);
                    }
                }
                assert forall|j: int|
                    0 <= j < state.players@.len() implies has_room(
                    state.rooms@,
                    (#[trigger] state.players@[j]).room_name@,
                ) by {
                    assert(state.players@[j].room_name@ == players0[j].room_name@);
                }
            }
        },
    }
}

} // verus!
