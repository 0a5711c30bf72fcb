//! Module initialization: schedules the recurring simulation tick and seeds
//! the static world-tile grid, both only when absent.

use vstd::prelude::*;
use crate::types::{GameError, GameTickSchedule, GameTile, Vector3};
use crate::store::GameState;

verus! {

/// The fixed simulation-tick interval, in microseconds.
pub const TICK_INTERVAL_MICROS: u64 = 1_000_000;

/// The tile grid spans this many tiles along each axis (coordinates -20
/// through 20).
pub const TILE_GRID_SIDE: usize = 41;

/// Tiles are laid on a grid of this pitch (ten world units, in thousandths).
pub const TILE_PITCH: i64 = 10000;

/// The `k`-th seeded tile: identifiers count from one in row-major order,
/// positions span a centered 41-by-41 grid at ten-unit pitch.
pub open spec fn spec_tile_at(k: int) -> GameTile {
    GameTile {
        tile_id: (k + 1) as u64,
        position: Vector3 {
            x: ((k / 41 - 20) * 10000) as i64,
            y: 0,
            z: ((k % 41 - 20) * 10000) as i64,
        },
        size: Vector3 { x: 10000, y: 1000, z: 10000 },
    }
}

/// One-time module initialization: inserts the recurring tick trigger when
/// none is scheduled, and seeds the 41-by-41 world-tile grid when no tiles
/// exist. Re-running it changes nothing. Never fails.
pub fn init(state: &mut GameState) -> (r: Result<(), GameError>)
    requires
        old(state).inv(),
    ensures
        final(state).inv(),
        r is Ok,
        final(state).rooms == old(state).rooms,
        final(state).players == old(state).players,
        final(state).logged_out == old(state).logged_out,
        old(state).schedules@.len() == 0 ==> final(state).schedules@ == seq![
            (GameTickSchedule { scheduled_id: 1, interval_micros: TICK_INTERVAL_MICROS }),
        ],
        old(state).schedules@.len() > 0 ==> final(state).schedules@ == old(state).schedules@,
        old(state).tiles@.len() == 0 ==> final(state).tiles@.len() == 1681 && (forall|k: int|
            0 <= k < 1681 ==> final(state).tiles@[k] == spec_tile_at(k)),
        old(state).tiles@.len() > 0 ==> final(state).tiles@ == old(state).tiles@,
{
    if state.schedules.len() == 0 {
        let schedule = GameTickSchedule { scheduled_id: 1, interval_micros: TICK_INTERVAL_MICROS };
        state.schedules.push(schedule);
        proof {
            assert(state.schedules@ =~= seq![
                (GameTickSchedule { scheduled_id: 1, interval_micros: TICK_INTERVAL_MICROS }),
            ]);
        }
    }
    let ghost schedules1 = state.schedules@;
    if state.tiles.len() == 0 {
        let mut xi: usize = 0;
        while xi < TILE_GRID_SIDE
            invariant
                xi <= 41,
                state.tiles@.len() == xi * 41,
                forall|k: int| 0 <= k < xi * 41 ==> state.tiles@[k] == spec_tile_at(k),
                state.rooms == old(state).rooms,
                state.players == old(state).players,
                state.logged_out == old(state).logged_out,
                state.schedules@ == schedules1,
            decreases 41 - xi,
        {
            let mut zi: usize = 0;
            while zi < TILE_GRID_SIDE
                invariant
                    xi < 41,
                    zi <= 41,
                    state.tiles@.len() == xi * 41 + zi,
                    forall|k: int| 0 <= k < xi * 41 + zi ==> state.tiles@[k] == spec_tile_at(k),
                    state.rooms == old(state).rooms,
                    state.players == old(state).players,
                    state.logged_out == old(state).logged_out,
                    state.schedules@ == schedules1,
                decreases 41 - zi,
            {
                let k: usize = xi * 41 + zi;
                let tile = GameTile {
                    tile_id: (k as u64) + 1,
                    position: Vector3 {
                        x: ((xi as i64) - 20) * 10000,
                        y: 0,
                        z: ((zi as i64) - 20) * 10000,
                    },
                    size: Vector3 { x: 10000, y: 1000, z: 10000 },
                };
                proof {
                    assert(k as int / 41 == xi as int && k as int % 41 == zi as int)
                        by (nonlinear_arith)
                        requires
                            k as int == xi as int * 41 + zi as int,
                            0 <= zi < 41,
                            0 <= xi,
                    ;
                    assert(tile == spec_tile_at(k as int));
                }
                state.tiles.push(tile);
                zi += 1;
            }
            xi += 1;
        }
    }
    Ok(())
}

} // verus!
