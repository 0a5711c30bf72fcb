//! The periodic simulation tick: advances every active player's position
//! from its movement flags over one fixed interval.

use vstd::prelude::*;
use crate::types::{GameTickSchedule, PlayerData, Vector3, RUN_STEP, WALK_STEP};
use crate::store::{count_in_room, has_room, lemma_count_congruent, GameState};

verus! {

/// Addition on `i64` clamped at the type's bounds.
pub open spec fn spec_sat_add(a: int, b: int) -> i64 {
    if a + b > i64::MAX {
        i64::MAX
    } else if a + b < i64::MIN {
        i64::MIN
    } else {
        (a + b) as i64
    }
}

/// Clamped addition on `i64`.
pub fn sat_add(a: i64, b: i64) -> (r: i64)
    ensures
        r == spec_sat_add(a as int, b as int),
{
    match a.checked_add(b) {
        Some(v) => v,
        None => if b > 0 {
            i64::MAX
        } else {
            i64::MIN
        },
    }
}

/// The signed step along one axis: `step` forward, `step` back, or nothing.
pub open spec fn spec_axis_step(pos: bool, neg: bool, step: int) -> int {
    (if pos {
        step
    } else {
        0
    }) - (if neg {
        step
    } else {
        0
    })
}

/// `q` is `p` advanced by one tick: a moving player covers one walking or
/// running step along the axes its directional flags select (clamped at the
/// coordinate bounds); a standing player is untouched. No other field moves.
pub open spec fn spec_ticked(q: PlayerData, p: PlayerData) -> bool {
    if !p.is_moving {
        q == p
    } else {
        let step: int = if p.is_running {
            RUN_STEP as int
        } else {
            WALK_STEP as int
        };
        q == (PlayerData {
            position: Vector3 {
                x: spec_sat_add(
                    p.position.x as int,
                    spec_axis_step(p.input.right, p.input.left, step),
                ),
                y: p.position.y,
                z: spec_sat_add(
                    p.position.z as int,
                    spec_axis_step(p.input.forward, p.input.backward, step),
                ),
            },
            ..p
        })
    }
}

/// One scheduled simulation tick over a fixed one-interval delta: advances
/// every active row independently (row-level independence: each update
/// depends on that row alone), touching nothing but positions.
pub fn game_tick(state: &mut GameState, _tick_info: GameTickSchedule)
    requires
        old(state).inv(),
    ensures
        final(state).inv(),
        final(state).players@.len() == old(state).players@.len(),
        forall|j: int|
            0 <= j < old(state).players@.len() ==> spec_ticked(
                final(state).players@[j],
                old(state).players@[j],
            ),
        final(state).rooms == old(state).rooms,
        final(state).logged_out == old(state).logged_out,
        final(state).tiles == old(state).tiles,
        final(state).schedules == old(state).schedules,
{
    let ghost players0 = old(state).players@;
    let n = state.players.len();
    let mut i: usize = 0;
    while i < n
        invariant
            n == players0.len(),
            i <= n,
            state.players@.len() == n,
            forall|j: int| i <= j < n ==> state.players@[j] == players0[j],
            forall|j: int| 0 <= j < i ==> spec_ticked(state.players@[j], players0[j]),
            state.rooms == old(state).rooms,
            state.logged_out == old(state).logged_out,
            state.tiles == old(state).tiles,
            state.schedules == old(state).schedules,
        decreases n - i,
    {
        if state.players[i].is_moving {
            let step: i64 = if state.players[i].is_running {
                RUN_STEP
            } else {
                WALK_STEP
            };
            let dx = (if state.players[i].input.right {
                step
            } else {
                0
            }) - (if state.players[i].input.left {
                step
            } else {
                0
            });
            let dz = (if state.players[i].input.forward {
                step
            } else {
                0
            }) - (if state.players[i].input.backward {
                step
            } else {
                0
            });
            let px = state.players[i].position.x;
            let pz = state.players[i].position.z;
            state.players[i].position.x = sat_add(px, dx);
            state.players[i].position.z = sat_add(pz, dz);
        }
        i += 1;
    }
    proof {
        assert forall|k: int|
            0 <= k < state.rooms@.len() implies (#[trigger] state.rooms@[k]).current_player_count
            == count_in_room(state.players@, state.rooms@[k].name@) by {
            assert(forall|j: int|
                0 <= j < n ==> (#[trigger] state.players@[j]).room_name@ == players0[j].room_name@);
            lemma_count_congruent(players0, state.players@, state.rooms@[k].name@);
        }
        assert forall|a: int, b: int|
            0 <= a < b < state.players@.len() implies state.players@[a].identity
            != state.players@[b].identity by {
            assert(state.players@[a].identity == players0[a].identity);
            assert(state.players@[b].identity == players0[b].identity);
        }
        assert(state.active_disjoint()) by {
            assert forall|j: int|
                0 <= j < state.players@.len() implies !crate::store::has_logged_out(
                state.logged_out@,
                (#[trigger] state.players@[j]).identity,
            ) by {
                assert(state.players@[j].identity == players0[j].identity);
            }
        }
        assert forall|j: int|
            0 <= j < state.players@.len() implies has_room(
            state.rooms@,
            (#[trigger] state.players@[j]).room_name@,
        ) by {
            assert(state.players@[j].room_name@ == players0[j].room_name@);
        }
    }
}

} // verus!
