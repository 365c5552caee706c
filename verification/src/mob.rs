//! Where mobs enter the world: a batch of spawn positions along the lower
//! edge of the starting area, horizontally randomised.

use vstd::prelude::*;
use crate::random::random_in_range;

verus! {

/// Leftmost horizontal spawn position (inclusive).
pub const MOB_SPAWN_MIN_X: i64 = -300;

/// Rightmost horizontal spawn position (exclusive).
pub const MOB_SPAWN_MAX_X: i64 = 300;

/// Vertical position every mob spawns at.
pub const MOB_SPAWN_Y: i64 = -300;

/// How many mobs one spawn batch creates.
pub const MOB_SPAWN_COUNT: usize = 10;

/// The world positions of one batch of mobs: each at a random horizontal
/// position within the spawn band, all on the spawn row.
pub fn mob_spawn_positions() -> (r: Vec<(i64, i64)>)
    ensures
        r@.len() == MOB_SPAWN_COUNT,
        forall|k: int|
            0 <= k < r@.len() ==> MOB_SPAWN_MIN_X <= #[trigger] r@[k].0 < MOB_SPAWN_MAX_X
                && r@[k].1 == MOB_SPAWN_Y,
{
    let mut r: Vec<(i64, i64)> = Vec::new();
    let mut k: usize = 0;
    while k < MOB_SPAWN_COUNT
        invariant
            k <= MOB_SPAWN_COUNT,
            r@.len() == k,
            forall|j: int|
                0 <= j < r@.len() ==> MOB_SPAWN_MIN_X <= #[trigger] r@[j].0 < MOB_SPAWN_MAX_X
                    && r@[j].1 == MOB_SPAWN_Y,
        decreases MOB_SPAWN_COUNT - k,
    {
        let x = random_in_range(MOB_SPAWN_MIN_X, MOB_SPAWN_MAX_X);
        r.push((x, MOB_SPAWN_Y));
        k = k + 1;
    }
    r
}

} // verus!
