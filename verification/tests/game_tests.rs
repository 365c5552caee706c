use frozen_forest::decor::{
    ground_sprites, open_tile, tree_sprites, GROUND_FRAMES, TREE_FRAMES,
};
use frozen_forest::entities::{
    can_be_attacked, record_new_targets, AttackableFrom, EntityType, LongTimeAttack,
};
use frozen_forest::mob::{
    mob_spawn_positions, MOB_SPAWN_COUNT, MOB_SPAWN_MAX_X, MOB_SPAWN_MIN_X, MOB_SPAWN_Y,
};
use frozen_forest::player::{handle_keyboard_input, has_attack_event, PlayerAttackEvent, PlayerMoveEvent};
use frozen_forest::ui::{
    initial_inventory, select_inventory_slot_keyboard, select_inventory_slot_wheel,
    selected_attack, AttackType, InvalidSlot, SelectedSlot, SLOT_COUNT,
};

#[test]
fn ground_covering_is_complete_and_in_row_major_order() {
    let ground = ground_sprites();
    assert_eq!(ground.len(), 225);
    for i in 0i64..15 {
        for j in 0i64..15 {
            let s = &ground[(15 * i + j) as usize];
            assert_eq!(s.x, 16 * i - 112);
            assert_eq!(s.y, 16 * j - 112);
            assert!(0 <= s.frame && s.frame < GROUND_FRAMES);
        }
    }
}

#[test]
fn trees_stay_on_their_tile_and_its_sub_grid() {
    for _ in 0..5 {
        let trees = tree_sprites(1, -1);
        assert!(trees.len() >= 10 && trees.len() < 20);
        for t in &trees {
            assert!(240 - 112 <= t.x && t.x <= 240 + 112);
            assert!(-240 - 112 <= t.y && t.y <= -240 + 112);
            assert_eq!((t.x - (240 - 112)).rem_euclid(16), 0);
            assert_eq!((t.y - (-240 - 112)).rem_euclid(16), 0);
            assert!(0 <= t.frame && t.frame < TREE_FRAMES);
        }
    }
}

#[test]
fn open_tile_plan_holds_ground_and_trees() {
    let plan = open_tile(0, 0);
    assert_eq!(plan.ground.len(), 225);
    assert!(plan.trees.len() >= 10 && plan.trees.len() < 20);
    for t in &plan.trees {
        assert!(-112 <= t.x && t.x <= 112);
        assert!(-112 <= t.y && t.y <= 112);
    }
}

#[test]
fn mob_spawns_fill_the_spawn_band() {
    let spawns = mob_spawn_positions();
    assert_eq!(spawns.len(), MOB_SPAWN_COUNT);
    for p in &spawns {
        assert!(MOB_SPAWN_MIN_X <= p.0 && p.0 < MOB_SPAWN_MAX_X);
        assert_eq!(p.1, MOB_SPAWN_Y);
    }
}

#[test]
fn attack_permission_follows_the_carried_list() {
    let player_like = AttackableFrom(vec![EntityType::Mob]);
    assert!(can_be_attacked(&player_like, EntityType::Mob));
    assert!(!can_be_attacked(&player_like, EntityType::Player));
    assert!(!can_be_attacked(&player_like, EntityType::Spell));

    let mob_like = AttackableFrom(vec![EntityType::Player, EntityType::Spell]);
    assert!(can_be_attacked(&mob_like, EntityType::Player));
    assert!(can_be_attacked(&mob_like, EntityType::Spell));
    assert!(!can_be_attacked(&mob_like, EntityType::Mob));

    let untouchable = AttackableFrom(Vec::new());
    assert!(!can_be_attacked(&untouchable, EntityType::Player));
}

#[test]
fn persistent_attack_damages_each_entity_at_most_once() {
    let mut attack = LongTimeAttack { damaged_entities: Vec::new() };
    let touching = vec![
        (1u64, Some(AttackableFrom(vec![EntityType::Player]))),
        (2u64, None),
        (1u64, Some(AttackableFrom(vec![EntityType::Player]))),
        (3u64, Some(AttackableFrom(vec![EntityType::Mob]))),
        (4u64, Some(AttackableFrom(vec![EntityType::Player]))),
    ];
    let targets = record_new_targets(&mut attack, &touching, EntityType::Player);
    assert_eq!(targets, vec![1u64, 4u64]);
    assert_eq!(attack.damaged_entities, vec![1u64, 4u64]);

    // A later frame touching the same entities damages nobody again.
    let targets = record_new_targets(&mut attack, &touching, EntityType::Player);
    assert!(targets.is_empty());
    assert_eq!(attack.damaged_entities, vec![1u64, 4u64]);
}

#[test]
fn keyboard_input_becomes_one_movement_event() {
    assert_eq!(handle_keyboard_input(false, false, false, false), None);
    assert_eq!(
        handle_keyboard_input(true, false, false, false),
        Some(PlayerMoveEvent(-1, 0))
    );
    assert_eq!(
        handle_keyboard_input(false, true, true, false),
        Some(PlayerMoveEvent(1, 1))
    );
    // Opposite keys cancel; with no net direction there is no event.
    assert_eq!(handle_keyboard_input(true, true, false, false), None);
    assert_eq!(
        handle_keyboard_input(true, true, false, true),
        Some(PlayerMoveEvent(0, -1))
    );
}

#[test]
fn attack_events_are_found_by_kind() {
    let events = vec![PlayerAttackEvent(AttackType::Melee)];
    assert!(has_attack_event(&events, AttackType::Melee));
    assert!(!has_attack_event(&events, AttackType::Fireball));
    let none: Vec<PlayerAttackEvent> = Vec::new();
    assert!(!has_attack_event(&none, AttackType::Melee));
}

#[test]
fn initial_inventory_holds_melee_and_fireball() {
    let (slots, selected) = initial_inventory();
    assert_eq!(slots.len(), SLOT_COUNT);
    assert_eq!(selected.index, 0);
    assert_eq!(slots[0].attack, Some(AttackType::Melee));
    assert_eq!(slots[1].attack, Some(AttackType::Fireball));
    for k in 2..SLOT_COUNT {
        assert_eq!(slots[k].index, k);
        assert_eq!(slots[k].attack, None);
    }
}

#[test]
fn digit_keys_select_their_slot() {
    let mut selected = SelectedSlot { index: 0 };
    select_inventory_slot_keyboard(&mut selected, 3);
    assert_eq!(selected.index, 2);
    select_inventory_slot_keyboard(&mut selected, 1);
    assert_eq!(selected.index, 0);
    select_inventory_slot_keyboard(&mut selected, 5);
    assert_eq!(selected.index, 4);
}

#[test]
fn wheel_selection_wraps_around() {
    let mut selected = SelectedSlot { index: 4 };
    select_inventory_slot_wheel(&mut selected, true);
    assert_eq!(selected.index, 0);
    select_inventory_slot_wheel(&mut selected, false);
    assert_eq!(selected.index, 4);
    let mut selected = SelectedSlot { index: 1 };
    select_inventory_slot_wheel(&mut selected, true);
    assert_eq!(selected.index, 2);
    select_inventory_slot_wheel(&mut selected, false);
    assert_eq!(selected.index, 1);
}

#[test]
fn selected_attack_reads_the_selected_slot() {
    let (slots, _) = initial_inventory();
    assert_eq!(
        selected_attack(&slots, &SelectedSlot { index: 0 }),
        Ok(Some(AttackType::Melee))
    );
    assert_eq!(
        selected_attack(&slots, &SelectedSlot { index: 1 }),
        Ok(Some(AttackType::Fireball))
    );
    // An empty slot is a valid selection with nothing to fire.
    assert_eq!(selected_attack(&slots, &SelectedSlot { index: 3 }), Ok(None));
}

#[test]
fn invalid_selection_is_reported_not_fatal() {
    let (slots, _) = initial_inventory();
    assert_eq!(
        selected_attack(&slots, &SelectedSlot { index: 7 }),
        Err(InvalidSlot(7))
    );
}
