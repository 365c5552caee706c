//! What opening a tile creates: a full grid of ground sprites covering the
//! cell, and a handful of trees scattered over it. Sprite-sheet frames and
//! tree placement are drawn from the random source, so the contracts state
//! what holds of every draw: every sprite lies on the sub-tile grid of its
//! cell and every frame index is within its sheet.

use vstd::prelude::*;
use crate::random::random_in_range;
use crate::tiles::coord_in_bounds;
use crate::world::{MAX_WORLD_POS, SUB_TILES, TILE_SIZE};

verus! {

/// Frames in the ground sprite sheet.
pub const GROUND_FRAMES: i64 = 9;

/// Frames in the tree sprite sheet.
pub const TREE_FRAMES: i64 = 4;

/// Radius of the circular collider under a tree, offset downwards by the
/// same amount from the sprite's centre.
pub const TREE_COLLIDER_RADIUS: i64 = 4;

/// One sprite to draw: a position and a frame index into its sheet.
#[derive(Clone, Copy, PartialEq, Eq, Structural, Debug)]
pub struct SpriteInstance {
    pub x: i64,
    pub y: i64,
    pub frame: i64,
}

/// Everything an opened tile is populated with.
pub struct OpenTilePlan {
    pub ground: Vec<SpriteInstance>,
    pub trees: Vec<SpriteInstance>,
}

/// The `k`-th ground sprite sits on the sub-tile grid, offset so the grid
/// is centred on the tile: sub-cell `(k / 15, k % 15)` at
/// `16 * sub - 112` relative to the tile's centre, frame within the sheet.
pub open spec fn ground_sprite_ok(s: Seq<SpriteInstance>, k: int) -> bool {
    &&& s[k].x as int == 16 * (k / 15) - 112
    &&& s[k].y as int == 16 * (k % 15) - 112
    &&& 0 <= s[k].frame < GROUND_FRAMES
}

/// A complete ground covering: one sprite for each of the 15 x 15
/// sub-cells, in row-major order.
pub open spec fn ground_ok(s: Seq<SpriteInstance>) -> bool {
    &&& s.len() == 225
    &&& forall|k: int| 0 <= k < 225 ==> #[trigger] ground_sprite_ok(s, k)
}

/// A tree of the tile at `(x, y)`: placed on that tile's sub-tile grid
/// (so it stays within the tile's extent), frame within the sheet.
pub open spec fn tree_sprite_ok(s: SpriteInstance, x: int, y: int) -> bool {
    let cx = x * (TILE_SIZE as int);
    let cy = y * (TILE_SIZE as int);
    &&& cx - 112 <= s.x <= cx + 112
    &&& (s.x - (cx - 112)) % 16 == 0
    &&& cy - 112 <= s.y <= cy + 112
    &&& (s.y - (cy - 112)) % 16 == 0
    &&& 0 <= s.frame < TREE_FRAMES
}

/// Between 10 and 19 trees, every one of them on the tile's sub-tile grid.
pub open spec fn trees_ok(s: Seq<SpriteInstance>, x: int, y: int) -> bool {
    &&& 10 <= s.len() < 20
    &&& forall|k: int| 0 <= k < s.len() ==> #[trigger] tree_sprite_ok(s[k], x, y)
}

/// The ground covering of one tile: a sprite per sub-cell, each with a
/// frame drawn from the ground sheet. Positions are relative to the tile's
/// centre.
pub fn ground_sprites() -> (r: Vec<SpriteInstance>)
    ensures
        ground_ok(r@),
{
    let mut r: Vec<SpriteInstance> = Vec::new();
    let mut i: i64 = 0;
    while i < SUB_TILES
        invariant
            0 <= i <= 15,
            r@.len() == 15 * i,
            forall|k: int| 0 <= k < r@.len() ==> #[trigger] ground_sprite_ok(r@, k),
        decreases 15 - i,
    {
        let mut j: i64 = 0;
        while j < SUB_TILES
            invariant
                0 <= i < 15,
                0 <= j <= 15,
                r@.len() == 15 * i + j,
                forall|k: int| 0 <= k < r@.len() ==> #[trigger] ground_sprite_ok(r@, k),
            decreases 15 - j,
        {
            let frame = random_in_range(0, GROUND_FRAMES);
            let s = SpriteInstance { x: i * 16 - 112, y: j * 16 - 112, frame };
            let ghost n = r@.len() as int;
            let ghost pre = r@;
            r.push(s);
            proof {
                vstd::arithmetic::div_mod::lemma_fundamental_div_mod_converse_div(
                    n,
                    15,
                    i as int,
                    j as int,
                );
                vstd::arithmetic::div_mod::lemma_fundamental_div_mod_converse_mod(
                    n,
                    15,
                    i as int,
                    j as int,
                );
                assert(ground_sprite_ok(r@, n));
                assert forall|k: int| 0 <= k < n implies #[trigger] ground_sprite_ok(r@, k) by {
                    assert(r@[k] == pre[k]);
                    assert(ground_sprite_ok(pre, k));
                }
            }
            j = j + 1;
        }
        i = i + 1;
    }
    r
}

/// The trees of the tile at grid coordinate `(x, y)`: a random number of
/// them (at least 10, fewer than 20), each on a random sub-cell of that
/// tile, each with a frame drawn from the tree sheet. Positions are
/// absolute world positions.
pub fn tree_sprites(x: i64, y: i64) -> (r: Vec<SpriteInstance>)
    requires
        coord_in_bounds(x as int, y as int),
    ensures
        trees_ok(r@, x as int, y as int),
{
    let (tile_x, tile_y) = crate::world::tile_world_pos(x, y);
    let count = random_in_range(10, 20);
    let mut r: Vec<SpriteInstance> = Vec::new();
    let mut k: i64 = 0;
    while k < count
        invariant
            0 <= k <= count,
            10 <= count < 20,
            coord_in_bounds(x as int, y as int),
            tile_x == x as int * (TILE_SIZE as int),
            tile_y == y as int * (TILE_SIZE as int),
            -MAX_WORLD_POS <= tile_x <= MAX_WORLD_POS,
            -MAX_WORLD_POS <= tile_y <= MAX_WORLD_POS,
            r@.len() == k,
            forall|m: int|
                0 <= m < r@.len() ==> #[trigger] tree_sprite_ok(r@[m], x as int, y as int),
        decreases count - k,
    {
        let sx = random_in_range(0, SUB_TILES);
        let sy = random_in_range(0, SUB_TILES);
        let frame = random_in_range(0, TREE_FRAMES);
        let s = SpriteInstance {
            x: tile_x + sx * 16 - 112,
            y: tile_y + sy * 16 - 112,
            frame,
        };
        proof {
            vstd::arithmetic::div_mod::lemma_mod_multiples_basic(sx as int, 16);
            vstd::arithmetic::div_mod::lemma_mod_multiples_basic(sy as int, 16);
            assert(tree_sprite_ok(s, x as int, y as int));
        }
        r.push(s);
        k = k + 1;
    }
    r
}

/// The spawn plan for opening the tile at grid coordinate `(x, y)`: the
/// full ground covering and the scattered trees.
pub fn open_tile(x: i64, y: i64) -> (plan: OpenTilePlan)
    requires
        coord_in_bounds(x as int, y as int),
    ensures
        ground_ok(plan.ground@),
        trees_ok(plan.trees@, x as int, y as int),
{
    OpenTilePlan { ground: ground_sprites(), trees: tree_sprites(x, y) }
}

} // verus!
