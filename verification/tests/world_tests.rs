use frozen_forest::grid::{tile_coord, world_to_tile};
use frozen_forest::tiles::{TileRegistry, TileState};
use frozen_forest::world::{
    activate_hovered_tiles, activate_tiles, frame, hover_tile, tile_highlighted,
    tile_world_pos, ActivateTileEvent, HoverTileEvent, TILE_SIZE,
};

#[test]
fn tile_size_is_fixed() {
    assert_eq!(TILE_SIZE, 240);
}

#[test]
fn grid_addressing_floors_toward_negative_infinity() {
    // World position (145, -10) with tile_size 240 lies in tile (0, -1).
    assert_eq!(world_to_tile(145, -10, 240), (0, -1));
}

#[test]
fn grid_addressing_examples() {
    assert_eq!(tile_coord(0, 240), 0);
    assert_eq!(tile_coord(239, 240), 0);
    assert_eq!(tile_coord(240, 240), 1);
    assert_eq!(tile_coord(-1, 240), -1);
    assert_eq!(tile_coord(-240, 240), -1);
    assert_eq!(tile_coord(-241, 240), -2);
    assert_eq!(world_to_tile(500, 10, 240), (2, 0));
}

#[test]
fn tile_placement_and_addressing_are_inverse() {
    assert_eq!(tile_world_pos(2, 0), (480, 0));
    assert_eq!(tile_world_pos(-1, 3), (-240, 720));
    for c in [-3i64, -1, 0, 2, 5] {
        let (wx, wy) = tile_world_pos(c, -c);
        assert_eq!(world_to_tile(wx, wy, TILE_SIZE), (c, -c));
    }
}

#[test]
fn initial_area_is_bordered_by_closed_tiles() {
    let reg = TileRegistry::initial_area();
    for x in -2i64..=2 {
        for y in -2i64..=2 {
            let expected = if x == -2 || x == 2 || y == -2 || y == 2 {
                TileState::Closed
            } else {
                TileState::Open
            };
            assert_eq!(reg.state_of(x, y), Some(expected));
        }
    }
    assert_eq!(reg.state_of(3, 0), None);
    assert_eq!(reg.state_of(0, -3), None);
}

#[test]
fn hover_reports_the_closed_tile_under_the_pointer() {
    let reg = TileRegistry::initial_area();
    let hovered = hover_tile(&reg, Some((500, 10)));
    assert_eq!(hovered.len(), 1);
    assert_eq!(hovered[0], HoverTileEvent(2, 0));
}

#[test]
fn hover_ignores_open_tiles() {
    // (10, 10) lies in tile (0, 0), which is open: the closed-tile layer
    // filter leaves open tiles without a collider to hit.
    let reg = TileRegistry::initial_area();
    let hovered = hover_tile(&reg, Some((10, 10)));
    assert!(hovered.is_empty());
}

#[test]
fn hover_without_pointer_reports_nothing() {
    let reg = TileRegistry::initial_area();
    let hovered = hover_tile(&reg, None);
    assert!(hovered.is_empty());
}

#[test]
fn hover_outside_the_world_reports_nothing() {
    let reg = TileRegistry::initial_area();
    let hovered = hover_tile(&reg, Some((5000, 5000)));
    assert!(hovered.is_empty());
}

#[test]
fn highlight_decision_follows_the_hover_notifications() {
    let hovered = vec![HoverTileEvent(2, 0)];
    assert!(tile_highlighted(&hovered, 2, 0));
    assert!(!tile_highlighted(&hovered, 2, 1));
    let none: Vec<HoverTileEvent> = Vec::new();
    assert!(!tile_highlighted(&none, 2, 0));
}

#[test]
fn hovering_without_confirm_never_changes_any_tile() {
    let mut reg = TileRegistry::initial_area();
    for _ in 0..10 {
        let hovered = frame(&mut reg, Some((500, 10)), false);
        assert_eq!(hovered.len(), 1);
    }
    for x in -2i64..=2 {
        for y in -2i64..=2 {
            let expected = if x == -2 || x == 2 || y == -2 || y == 2 {
                TileState::Closed
            } else {
                TileState::Open
            };
            assert_eq!(reg.state_of(x, y), Some(expected));
        }
    }
    assert_eq!(reg.state_of(3, 0), None);
}

#[test]
fn unconfirmed_hovers_produce_no_activation_events() {
    let hovered = vec![HoverTileEvent(2, 0)];
    let events = activate_hovered_tiles(&hovered, false);
    assert!(events.is_empty());
    let events = activate_hovered_tiles(&hovered, true);
    assert_eq!(events.len(), 1);
    assert_eq!(events[0], ActivateTileEvent(2, 0));
}

#[test]
fn click_on_hovered_tile_opens_it_and_fences_the_frontier() {
    let mut reg = TileRegistry::initial_area();
    let hovered = frame(&mut reg, Some((500, 10)), true);
    assert_eq!(hovered.len(), 1);
    assert_eq!(reg.state_of(2, 0), Some(TileState::Open));
    // Newly created frontier tiles.
    assert_eq!(reg.state_of(3, -1), Some(TileState::Closed));
    assert_eq!(reg.state_of(3, 0), Some(TileState::Closed));
    assert_eq!(reg.state_of(3, 1), Some(TileState::Closed));
    // Neighbours that already existed keep their state.
    assert_eq!(reg.state_of(2, -1), Some(TileState::Closed));
    assert_eq!(reg.state_of(2, 1), Some(TileState::Closed));
    assert_eq!(reg.state_of(1, -1), Some(TileState::Open));
    assert_eq!(reg.state_of(1, 0), Some(TileState::Open));
    assert_eq!(reg.state_of(1, 1), Some(TileState::Open));
}

#[test]
fn activating_an_open_tile_is_a_no_op() {
    let mut reg = TileRegistry::initial_area();
    assert!(!reg.activate(0, 0));
    assert_eq!(reg.state_of(0, 0), Some(TileState::Open));
    assert_eq!(reg.state_of(3, 0), None);
    assert_eq!(reg.state_of(-3, 0), None);
}

#[test]
fn activating_a_missing_coordinate_is_skipped() {
    let mut reg = TileRegistry::initial_area();
    let events = vec![ActivateTileEvent(9, 9)];
    activate_tiles(&mut reg, &events);
    assert_eq!(reg.state_of(9, 9), None);
    assert_eq!(reg.state_of(0, 0), Some(TileState::Open));
}

#[test]
fn double_activation_within_one_frame_opens_once() {
    let mut reg = TileRegistry::initial_area();
    let events = vec![ActivateTileEvent(2, 0), ActivateTileEvent(2, 0)];
    activate_tiles(&mut reg, &events);

    let mut once = TileRegistry::initial_area();
    let single = vec![ActivateTileEvent(2, 0)];
    activate_tiles(&mut once, &single);

    for x in -3i64..=4 {
        for y in -3i64..=4 {
            assert_eq!(reg.state_of(x, y), once.state_of(x, y));
        }
    }
    assert_eq!(reg.state_of(2, 0), Some(TileState::Open));
}

#[test]
fn repeated_activation_returns_true_only_once() {
    let mut reg = TileRegistry::initial_area();
    assert!(reg.activate(2, 0));
    assert!(!reg.activate(2, 0));
    assert_eq!(reg.state_of(2, 0), Some(TileState::Open));
}

#[test]
fn frontier_holds_after_a_chain_of_activations() {
    let mut reg = TileRegistry::initial_area();
    assert!(reg.activate(2, 0));
    assert!(reg.activate(3, 0));
    assert!(reg.activate(4, 0));
    // Every open tile's eight neighbours must exist.
    for t in reg.all_tiles() {
        if t.state == TileState::Open {
            for dx in -1i64..=1 {
                for dy in -1i64..=1 {
                    if dx != 0 || dy != 0 {
                        assert!(reg.state_of(t.x + dx, t.y + dy).is_some());
                    }
                }
            }
        }
    }
}
