//! The inventory bar: five slots, an attack type in some of them, and one
//! selected slot. Selection moves by digit key or mouse wheel; an attack
//! press looks the selected slot up, and a selection naming no slot is
//! reported as invalid rather than failing.

use vstd::prelude::*;

verus! {

/// How many inventory slots the bar has.
pub const SLOT_COUNT: usize = 5;

/// The kinds of attack a slot can hold.
#[derive(Clone, Copy, PartialEq, Eq, Structural, Debug)]
pub enum AttackType {
    Melee,
    Fireball,
}

/// One slot of the inventory bar: its position and, if it is not empty,
/// the attack it holds.
#[derive(Clone, Copy, Debug)]
pub struct InventorySlot {
    pub index: usize,
    pub attack: Option<AttackType>,
}

/// Which slot is currently selected.
#[derive(Clone, Copy, Debug)]
pub struct SelectedSlot {
    pub index: usize,
}

/// A selection that names no existing slot; carries the offending index.
#[derive(Clone, Copy, PartialEq, Eq, Structural, Debug)]
pub struct InvalidSlot(pub usize);

/// Digit-key selection: digit `n` selects slot `n - 1`.
pub fn select_inventory_slot_keyboard(selected: &mut SelectedSlot, digit: usize)
    requires
        1 <= digit <= SLOT_COUNT,
    ensures
        final(selected).index == digit - 1,
{
    selected.index = digit - 1;
}

/// Mouse-wheel selection: one step forward or backward, wrapping around
/// the five slots.
pub fn select_inventory_slot_wheel(selected: &mut SelectedSlot, up: bool)
    requires
        old(selected).index < SLOT_COUNT,
    ensures
        final(selected).index == (if up {
            (old(selected).index + 1) % 5
        } else {
            (old(selected).index + 4) % 5
        }),
{
    if up {
        selected.index = (selected.index + 1) % 5;
    } else {
        selected.index = (selected.index + 4) % 5;
    }
}

/// Slot `k` is the first slot carrying index `idx`.
pub open spec fn found_at(s: Seq<InventorySlot>, idx: int, k: int) -> bool {
    &&& 0 <= k < s.len()
    &&& s[k].index == idx
    &&& forall|j: int| 0 <= j < k ==> #[trigger] s[j].index != idx
}

/// Some slot carries index `idx`.
pub open spec fn slot_with_index(s: Seq<InventorySlot>, idx: int) -> bool {
    exists|k: int| 0 <= k < s.len() && #[trigger] s[k].index == idx
}

/// The attack behind an attack press: the content of the first slot whose
/// index is the selected one — possibly an empty slot, which is no error.
/// A selection naming no slot at all is reported as invalid, never fatal.
pub fn selected_attack(slots: &Vec<InventorySlot>, selected: &SelectedSlot) -> (r: Result<
    Option<AttackType>,
    InvalidSlot,
>)
    ensures
        match r {
            Ok(att) => exists|k: int|
                #[trigger] found_at(slots@, selected.index as int, k) && slots@[k].attack == att,
            Err(e) => e == InvalidSlot(selected.index) && !slot_with_index(
                slots@,
                selected.index as int,
            ),
        },
{
    let n = slots.len();
    let mut k: usize = 0;
    while k < n
        invariant
            n == slots@.len(),
            k <= n,
            forall|j: int| 0 <= j < k ==> #[trigger] slots@[j].index != selected.index,
        decreases n - k,
    {
        if slots[k].index == selected.index {
            proof {
                assert(found_at(slots@, selected.index as int, k as int));
            }
            return Ok(slots[k].attack);
        }
        k = k + 1;
    }
    Err(InvalidSlot(selected.index))
}

/// The inventory bar the game starts with: melee in the first slot, the
/// fireball in the second, the rest empty, and the first slot selected.
pub fn initial_inventory() -> (r: (Vec<InventorySlot>, SelectedSlot))
    ensures
        r.0@.len() == SLOT_COUNT,
        forall|k: int| 0 <= k < r.0@.len() ==> (#[trigger] r.0@[k].index) == k,
        r.0@[0].attack == Some(AttackType::Melee),
        r.0@[1].attack == Some(AttackType::Fireball),
        forall|k: int| 2 <= k < r.0@.len() ==> (#[trigger] r.0@[k].attack) is None,
        r.1.index == 0,
{
    let mut slots: Vec<InventorySlot> = Vec::new();
    slots.push(InventorySlot { index: 0, attack: Some(AttackType::Melee) });
    slots.push(InventorySlot { index: 1, attack: Some(AttackType::Fireball) });
    let mut k: usize = 2;
    while k < SLOT_COUNT
        invariant
            2 <= k <= SLOT_COUNT,
            slots@.len() == k,
            forall|j: int| 0 <= j < slots@.len() ==> (#[trigger] slots@[j].index) == j,
            slots@[0].attack == Some(AttackType::Melee),
            slots@[1].attack == Some(AttackType::Fireball),
            forall|j: int| 2 <= j < slots@.len() ==> (#[trigger] slots@[j].attack) is None,
        decreases SLOT_COUNT - k,
    {
        slots.push(InventorySlot { index: k, attack: None });
        k = k + 1;
    }
    (slots, SelectedSlot { index: 0 })
}

} // verus!
