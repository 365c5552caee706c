//! The per-frame fog-of-war pipeline: hover detection over the closed
//! tiles, highlight decisions, confirmation gating, and activation of the
//! hovered tiles together with frontier maintenance.
//!
//! One frame runs the stages in a fixed order: hover first, then highlight
//! and confirmation gating over the hover notifications, then activation.
//! Hover notifications are recomputed every frame and discarded at its end;
//! without a confirming click they have no effect at all.

use vstd::prelude::*;
use crate::grid;
use crate::tiles::{
    TileRegistry, TileState, MAX_COORD, coord_in_bounds, spec_activate_all,
};

verus! {

/// How many ground sprites an open tile holds along each axis.
pub const SUB_TILES: i64 = 15;

/// Edge length of one ground sprite in world units.
pub const SUB_TILE_SIZE: i64 = 16;

/// Edge length of one tile in world units.
pub const TILE_SIZE: i64 = SUB_TILES * SUB_TILE_SIZE;

/// Edge length of one tree sprite in world units.
pub const TREE_SPRITE_SIZE: i64 = 16;

/// Largest pointer magnitude the pipeline accepts; any position within it
/// lands on a tile coordinate within `MAX_COORD`.
pub const MAX_WORLD_POS: i64 = MAX_COORD * TILE_SIZE;

/// Collision layer tags, as the physics colliders carry them. Hover
/// detection only looks at colliders on the closed-tile layer, which is why
/// open tiles can never produce a hover notification.
#[derive(Clone, Copy, PartialEq, Eq, Structural, Debug)]
pub enum Layer {
    Player,
    Mob,
    Entity,
    Wall,
    ClosedTile,
    Spell,
}

/// The collision layer an entity's collider is tagged with.
#[derive(Clone, Copy, PartialEq, Eq, Structural, Debug)]
pub struct LayerType(pub Layer);

/// The pointer currently overlaps the closed tile at this coordinate.
/// Emitted once per overlapping tile per frame, never deduplicated across
/// frames.
#[derive(Clone, Copy, PartialEq, Eq, Structural, Debug)]
pub struct HoverTileEvent(pub i64, pub i64);

/// The closed tile at this coordinate is to be activated this frame.
#[derive(Clone, Copy, PartialEq, Eq, Structural, Debug)]
pub struct ActivateTileEvent(pub i64, pub i64);

/// The collider layer of a tile in the given state: closed tiles carry a
/// collider on the closed-tile layer, open tiles have no collider at all.
pub open spec fn spec_collider_layer(state: TileState) -> Option<LayerType> {
    match state {
        TileState::Closed => Some(LayerType(Layer::ClosedTile)),
        TileState::Open => None,
    }
}

/// Executable form of [`spec_collider_layer`].
pub fn tile_collider_layer(state: TileState) -> (r: Option<LayerType>)
    ensures
        r == spec_collider_layer(state),
{
    match state {
        TileState::Closed => Some(LayerType(Layer::ClosedTile)),
        TileState::Open => None,
    }
}

/// The world-space translation a tile entity is placed at: grid
/// coordinate times tile size on each axis.
pub fn tile_world_pos(x: i64, y: i64) -> (p: (i64, i64))
    requires
        coord_in_bounds(x as int, y as int),
    ensures
        p.0 == x as int * (TILE_SIZE as int),
        p.1 == y as int * (TILE_SIZE as int),
        -MAX_WORLD_POS <= p.0 <= MAX_WORLD_POS,
        -MAX_WORLD_POS <= p.1 <= MAX_WORLD_POS,
{
    proof {
        vstd::arithmetic::mul::lemma_mul_inequality(x as int, MAX_COORD as int, TILE_SIZE as int);
        vstd::arithmetic::mul::lemma_mul_inequality(-MAX_COORD as int, x as int, TILE_SIZE as int);
        vstd::arithmetic::mul::lemma_mul_inequality(y as int, MAX_COORD as int, TILE_SIZE as int);
        vstd::arithmetic::mul::lemma_mul_inequality(-MAX_COORD as int, y as int, TILE_SIZE as int);
    }
    (x * TILE_SIZE, y * TILE_SIZE)
}

/// The grid coordinate under a pointer at world position `p`.
pub open spec fn pointer_tile(p: (i64, i64)) -> (int, int) {
    (p.0 as int / TILE_SIZE as int, p.1 as int / TILE_SIZE as int)
}

/// The pointer position is within the world the pipeline addresses.
pub open spec fn pointer_in_bounds(pointer: Option<(i64, i64)>) -> bool {
    match pointer {
        None => true,
        Some(p) => {
            &&& -MAX_WORLD_POS <= p.0 <= MAX_WORLD_POS
            &&& -MAX_WORLD_POS <= p.1 <= MAX_WORLD_POS
        },
    }
}

/// The coordinates of the closed tiles the pointer overlaps: the one tile
/// whose cell contains the pointer, if a closed tile exists there; no tile
/// when the pointer is outside the viewport (`None`) or the cell holds no
/// closed tile.
pub open spec fn spec_hovered(
    m: Map<(int, int), TileState>,
    pointer: Option<(i64, i64)>,
) -> Seq<(int, int)> {
    match pointer {
        None => Seq::empty(),
        Some(p) => {
            let c = pointer_tile(p);
            if m.dom().contains(c) && m[c] == TileState::Closed {
                seq![c]
            } else {
                Seq::empty()
            }
        },
    }
}

/// The coordinates named by a sequence of hover notifications.
pub open spec fn hover_coords(evs: Seq<HoverTileEvent>) -> Seq<(int, int)> {
    evs.map_values(|e: HoverTileEvent| (e.0 as int, e.1 as int))
}

/// The coordinates named by a sequence of activation events.
pub open spec fn activate_coords(evs: Seq<ActivateTileEvent>) -> Seq<(int, int)> {
    evs.map_values(|e: ActivateTileEvent| (e.0 as int, e.1 as int))
}

/// A pointer within `MAX_WORLD_POS` lands on a coordinate within
/// `MAX_COORD`.
proof fn lemma_pointer_tile_bounds(p: (i64, i64))
    requires
        -MAX_WORLD_POS <= p.0 <= MAX_WORLD_POS,
        -MAX_WORLD_POS <= p.1 <= MAX_WORLD_POS,
    ensures
        coord_in_bounds(pointer_tile(p).0, pointer_tile(p).1),
{
    let t = TILE_SIZE as int;
    vstd::arithmetic::div_mod::lemma_div_multiples_vanish(MAX_COORD as int, t);
    vstd::arithmetic::div_mod::lemma_div_multiples_vanish(-MAX_COORD as int, t);
    assert(t * MAX_COORD == MAX_WORLD_POS);
    assert(t * -MAX_COORD == -MAX_WORLD_POS);
    vstd::arithmetic::div_mod::lemma_div_is_ordered(p.0 as int, MAX_WORLD_POS as int, t);
    vstd::arithmetic::div_mod::lemma_div_is_ordered(-MAX_WORLD_POS as int, p.0 as int, t);
    vstd::arithmetic::div_mod::lemma_div_is_ordered(p.1 as int, MAX_WORLD_POS as int, t);
    vstd::arithmetic::div_mod::lemma_div_is_ordered(-MAX_WORLD_POS as int, p.1 as int, t);
}

/// Hover detection: which closed tiles does the pointer overlap this
/// frame? Colliders are filtered by the closed-tile layer, so open tiles
/// never notify. A pointer outside the viewport (`None`) hovers nothing.
pub fn hover_tile(tiles: &TileRegistry, pointer: Option<(i64, i64)>) -> (hovered: Vec<
    HoverTileEvent,
>)
    requires
        tiles.wf(),
        pointer_in_bounds(pointer),
    ensures
        hover_coords(hovered@) == spec_hovered(tiles@, pointer),
        forall|k: int|
            0 <= k < hovered@.len() ==> coord_in_bounds(
                #[trigger] hovered@[k].0 as int,
                hovered@[k].1 as int,
            ),
{
    let mut hovered: Vec<HoverTileEvent> = Vec::new();
    if let Some(p) = pointer {
        proof {
            lemma_pointer_tile_bounds(p);
        }
        let (cx, cy) = grid::world_to_tile(p.0, p.1, TILE_SIZE);
        if let Some(state) = tiles.state_of(cx, cy) {
            if let Some(layer) = tile_collider_layer(state) {
                if layer.0 == Layer::ClosedTile {
                    hovered.push(HoverTileEvent(cx, cy));
                }
            }
        }
    }
    proof {
        assert(hover_coords(hovered@) =~= spec_hovered(tiles@, pointer));
    }
    hovered
}

/// The highlight decision for one closed tile: highlighted exactly when a
/// hover notification of this frame names its coordinate.
pub fn tile_highlighted(hovered: &Vec<HoverTileEvent>, x: i64, y: i64) -> (r: bool)
    ensures
        r == hover_coords(hovered@).contains((x as int, y as int)),
{
    let n = hovered.len();
    let mut k: usize = 0;
    while k < n
        invariant
            n == hovered@.len(),
            k <= n,
            forall|j: int|
                0 <= j < k ==> !(#[trigger] hovered@[j].0 == x && hovered@[j].1 == y),
        decreases n - k,
    {
        let e = hovered[k];
        if e.0 == x && e.1 == y {
            proof {
                assert(hover_coords(hovered@)[k as int] == (x as int, y as int));
            }
            return true;
        }
        k = k + 1;
    }
    proof {
        assert forall|j: int| 0 <= j < n implies #[trigger] hover_coords(hovered@)[j] != (
        x as int,
        y as int,
        ) by {
            assert(!(hovered@[j].0 == x && hovered@[j].1 == y));
        }
    }
    false
}

/// Confirmation gating: with a confirming click this frame, every pending
/// hover notification becomes an activation event; without one, the
/// notifications are discarded and nothing is activated (clear-on-miss).
pub fn activate_hovered_tiles(hovered: &Vec<HoverTileEvent>, confirm: bool) -> (events: Vec<
    ActivateTileEvent,
>)
    ensures
        !confirm ==> events@.len() == 0,
        confirm ==> activate_coords(events@) == hover_coords(hovered@),
{
    let mut events: Vec<ActivateTileEvent> = Vec::new();
    if !confirm {
        return events;
    }
    let n = hovered.len();
    let mut k: usize = 0;
    while k < n
        invariant
            n == hovered@.len(),
            k <= n,
            activate_coords(events@) == hover_coords(hovered@.take(k as int)),
        decreases n - k,
    {
        let e = hovered[k];
        let ghost pre = events@;
        events.push(ActivateTileEvent(e.0, e.1));
        proof {
            assert(events@ == pre.push(ActivateTileEvent(e.0, e.1)));
            assert(activate_coords(pre).len() == pre.len());
            assert(hover_coords(hovered@.take(k as int)).len() == k as int);
            assert(pre.len() == k as int);
            let target = hovered@.take(k as int + 1);
            assert forall|i: int| 0 <= i < k as int + 1 implies activate_coords(events@)[i]
                == hover_coords(target)[i] by {
                assert(target[i] == hovered@[i]);
                if i < k as int {
                    assert(events@[i] == pre[i]);
                    assert(activate_coords(pre)[i] == hover_coords(hovered@.take(k as int))[i]);
                    assert(hovered@.take(k as int)[i] == hovered@[i]);
                } else {
                    assert(events@[i] == ActivateTileEvent(e.0, e.1));
                    assert(hovered@[k as int] == e);
                }
            }
            assert(activate_coords(events@) =~= hover_coords(target));
        }
        k = k + 1;
    }
    proof {
        assert(hovered@.take(n as int) == hovered@);
    }
    events
}

/// Activation: apply every activation event of this frame to the registry,
/// in order. Each event opens its tile and fences the neighbourhood if the
/// tile is still closed; events naming open tiles or cells without a tile
/// — stale events included — are skipped rather than failing.
pub fn activate_tiles(tiles: &mut TileRegistry, events: &Vec<ActivateTileEvent>)
    requires
        old(tiles).wf(),
        forall|k: int|
            0 <= k < events@.len() ==> coord_in_bounds(
                #[trigger] events@[k].0 as int,
                events@[k].1 as int,
            ),
    ensures
        final(tiles).wf(),
        final(tiles)@ == spec_activate_all(old(tiles)@, activate_coords(events@)),
{
    let n = events.len();
    let mut k: usize = 0;
    proof {
        assert(events@.skip(0) =~= events@);
    }
    while k < n
        invariant
            n == events@.len(),
            k <= n,
            tiles.wf(),
            forall|j: int|
                0 <= j < events@.len() ==> coord_in_bounds(
                    #[trigger] events@[j].0 as int,
                    events@[j].1 as int,
                ),
            spec_activate_all(tiles@, activate_coords(events@.skip(k as int))) == spec_activate_all(
                old(tiles)@,
                activate_coords(events@),
            ),
        decreases n - k,
    {
        let e = events[k];
        proof {
            assert(activate_coords(events@.skip(k as int)).drop_first() =~= activate_coords(
                events@.skip(k as int + 1),
            ));
            assert(activate_coords(events@.skip(k as int))[0] == (e.0 as int, e.1 as int));
        }
        tiles.activate(e.0, e.1);
        k = k + 1;
    }
    proof {
        assert(activate_coords(events@.skip(n as int)).len() == 0);
    }
}

/// One frame of the fog-of-war pipeline, stages in their fixed order:
/// hover detection, then confirmation gating, then activation with
/// frontier maintenance. Returns the frame's hover notifications (the
/// highlight stage reads them). Without a confirming click the registry is
/// left exactly as it was: hovering alone never changes any tile state.
pub fn frame(tiles: &mut TileRegistry, pointer: Option<(i64, i64)>, confirm: bool) -> (hovered:
    Vec<HoverTileEvent>)
    requires
        old(tiles).wf(),
        pointer_in_bounds(pointer),
    ensures
        final(tiles).wf(),
        hover_coords(hovered@) == spec_hovered(old(tiles)@, pointer),
        !confirm ==> final(tiles)@ == old(tiles)@,
        confirm ==> final(tiles)@ == spec_activate_all(
            old(tiles)@,
            spec_hovered(old(tiles)@, pointer),
        ),
{
    let hovered = hover_tile(tiles, pointer);
    let events = activate_hovered_tiles(&hovered, confirm);
    proof {
        if confirm {
            assert(activate_coords(events@).len() == events@.len());
            assert(hover_coords(hovered@).len() == hovered@.len());
            assert forall|k: int| 0 <= k < events@.len() implies coord_in_bounds(
                #[trigger] events@[k].0 as int,
                events@[k].1 as int,
            ) by {
                assert(activate_coords(events@)[k] == hover_coords(hovered@)[k]);
                assert((events@[k].0 as int, events@[k].1 as int) == (
                    hovered@[k].0 as int,
                    hovered@[k].1 as int,
                ));
                assert(coord_in_bounds(hovered@[k].0 as int, hovered@[k].1 as int));
            }
        }
    }
    activate_tiles(tiles, &events);
    proof {
        if !confirm {
            assert(activate_coords(events@).len() == 0);
        }
    }
    hovered
}

} // verus!
