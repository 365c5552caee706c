//! Player input decisions: turning the four direction keys into a movement
//! event, and asking whether an attack of a given kind was requested this
//! frame.

use vstd::prelude::*;
use crate::ui::AttackType;

verus! {

/// The player asked to move in this direction (one unit per axis; the
/// engine scales it to a velocity).
#[derive(Clone, Copy, PartialEq, Eq, Structural, Debug)]
pub struct PlayerMoveEvent(pub i64, pub i64);

/// The player pressed an attack while this attack type was selected.
#[derive(Clone, Copy, PartialEq, Eq, Structural, Debug)]
pub struct PlayerAttackEvent(pub AttackType);

/// The net direction of one axis from its two keys.
pub open spec fn axis(pos: bool, neg: bool) -> int {
    (if pos {
        1int
    } else {
        0int
    }) - (if neg {
        1int
    } else {
        0int
    })
}

/// Keyboard handling: the pressed direction keys become one movement
/// event; opposite keys cancel, and with no net direction no event is
/// sent at all.
pub fn handle_keyboard_input(left: bool, right: bool, up: bool, down: bool) -> (r: Option<
    PlayerMoveEvent,
>)
    ensures
        r == (if axis(right, left) == 0 && axis(up, down) == 0 {
            None::<PlayerMoveEvent>
        } else {
            Some(PlayerMoveEvent(axis(right, left) as i64, axis(up, down) as i64))
        }),
{
    let mut dx: i64 = 0;
    let mut dy: i64 = 0;
    if left {
        dx = dx - 1;
    }
    if right {
        dx = dx + 1;
    }
    if up {
        dy = dy + 1;
    }
    if down {
        dy = dy - 1;
    }
    if dx == 0 && dy == 0 {
        None
    } else {
        Some(PlayerMoveEvent(dx, dy))
    }
}

/// Whether an attack of kind `attack` was requested by any event of this
/// frame. The attack spawners fire only when their own kind occurs.
pub fn has_attack_event(events: &Vec<PlayerAttackEvent>, attack: AttackType) -> (r: bool)
    ensures
        r == events@.contains(PlayerAttackEvent(attack)),
{
    let n = events.len();
    let mut k: usize = 0;
    while k < n
        invariant
            n == events@.len(),
            k <= n,
            forall|j: int| 0 <= j < k ==> events@[j] != PlayerAttackEvent(attack),
        decreases n - k,
    {
        if events[k].0 == attack {
            proof {
                assert(events@[k as int] == PlayerAttackEvent(attack));
            }
            return true;
        }
        k = k + 1;
    }
    false
}

} // verus!
