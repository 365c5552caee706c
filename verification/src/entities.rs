//! Entity kinds and the combat decision rules: which kinds of entity may
//! damage which, and the bookkeeping that makes an area attack damage each
//! entity at most once over its lifetime.

use vstd::prelude::*;

verus! {

/// The kind of an entity, as combat rules see it.
#[derive(Clone, Copy, PartialEq, Eq, Structural, Debug)]
pub enum EntityType {
    Player,
    Mob,
    Wall,
    Spell,
}

/// Which kinds of entity may damage the carrier.
#[derive(Clone, Debug)]
pub struct AttackableFrom(pub Vec<EntityType>);

/// Marker for the player entity.
pub struct Player;

/// Marker for mob entities.
pub struct Mob;

/// Marker for fireball projectiles.
pub struct Fireball();

/// An attack that persists for a while and must damage each entity it
/// touches at most once: entities already damaged are remembered by id.
pub struct LongTimeAttack {
    pub damaged_entities: Vec<u64>,
}

/// Whether an entity carrying `attackable` may be damaged by an entity of
/// kind `attacker`.
pub fn can_be_attacked(attackable: &AttackableFrom, attacker: EntityType) -> (r: bool)
    ensures
        r == attackable.0@.contains(attacker),
{
    let n = attackable.0.len();
    let mut k: usize = 0;
    while k < n
        invariant
            n == attackable.0@.len(),
            k <= n,
            forall|j: int| 0 <= j < k ==> attackable.0@[j] != attacker,
        decreases n - k,
    {
        if attackable.0[k] == attacker {
            proof {
                assert(attackable.0@[k as int] == attacker);
            }
            return true;
        }
        k = k + 1;
    }
    false
}

/// What an optional attack-permission component allows: an entity without
/// the component can never be damaged.
pub open spec fn can_attack_entry(att: Option<Seq<EntityType>>, attacker: EntityType) -> bool {
    match att {
        Some(s) => s.contains(attacker),
        None => false,
    }
}

/// The entities a persistent attack damages this frame, given the ids it
/// touches (with their attack permissions, where present), the kind of the
/// attacker, and the ids damaged before: each touched id that the attacker
/// may damage and that was not damaged yet, first touch first, each at
/// most once.
pub open spec fn new_targets(
    done: Seq<u64>,
    touching: Seq<(u64, Option<Seq<EntityType>>)>,
    attacker: EntityType,
) -> Seq<u64>
    decreases touching.len(),
{
    if touching.len() == 0 {
        Seq::empty()
    } else {
        let id = touching[0].0;
        if can_attack_entry(touching[0].1, attacker) && !done.contains(id) {
            seq![id] + new_targets(done.push(id), touching.drop_first(), attacker)
        } else {
            new_targets(done, touching.drop_first(), attacker)
        }
    }
}

/// The view of the touched entities: id and, where the entity has one, its
/// attack permissions.
pub open spec fn touching_view(s: Seq<(u64, Option<AttackableFrom>)>) -> Seq<
    (u64, Option<Seq<EntityType>>),
> {
    s.map_values(
        |p: (u64, Option<AttackableFrom>)|
            (
                p.0,
                match p.1 {
                    Some(a) => Some(a.0@),
                    None => None,
                },
            ),
    )
}

fn contains_id(v: &Vec<u64>, id: u64) -> (r: bool)
    ensures
        r == v@.contains(id),
{
    let n = v.len();
    let mut k: usize = 0;
    while k < n
        invariant
            n == v@.len(),
            k <= n,
            forall|j: int| 0 <= j < k ==> v@[j] != id,
        decreases n - k,
    {
        if v[k] == id {
            proof {
                assert(v@[k as int] == id);
            }
            return true;
        }
        k = k + 1;
    }
    false
}

/// One frame of a persistent attack: record and return the newly damaged
/// ids among the touched entities. Ids damaged in earlier frames, touched
/// twice this frame, or not open to this attacker are passed over.
pub fn record_new_targets(
    attack: &mut LongTimeAttack,
    touching: &Vec<(u64, Option<AttackableFrom>)>,
    attacker: EntityType,
) -> (targets: Vec<u64>)
    ensures
        targets@ == new_targets(
            old(attack).damaged_entities@,
            touching_view(touching@),
            attacker,
        ),
        final(attack).damaged_entities@ == old(attack).damaged_entities@ + targets@,
{
    let ghost tv = touching_view(touching@);
    let ghost done0 = attack.damaged_entities@;
    let mut targets: Vec<u64> = Vec::new();
    let n = touching.len();
    let mut k: usize = 0;
    proof {
        assert(tv.skip(0) =~= tv);
        assert(done0 + targets@ =~= done0);
    }
    while k < n
        invariant
            n == touching@.len(),
            k <= n,
            tv == touching_view(touching@),
            targets@ + new_targets(attack.damaged_entities@, tv.skip(k as int), attacker)
                == new_targets(done0, tv, attacker),
            attack.damaged_entities@ == done0 + targets@,
        decreases n - k,
    {
        let entry = &touching[k];
        let id = entry.0;
        let allowed = match &entry.1 {
            Some(a) => can_be_attacked(a, attacker),
            None => false,
        };
        proof {
            assert(tv[k as int] == (
                id,
                match touching@[k as int].1 {
                    Some(a) => Some(a.0@),
                    None => None,
                },
            ));
            assert(tv.skip(k as int)[0] == tv[k as int]);
            assert(tv.skip(k as int).drop_first() =~= tv.skip(k as int + 1));
            assert(allowed == can_attack_entry(tv[k as int].1, attacker));
        }
        if allowed && !contains_id(&attack.damaged_entities, id) {
            let ghost done_pre = attack.damaged_entities@;
            let ghost targets_pre = targets@;
            attack.damaged_entities.push(id);
            targets.push(id);
            proof {
                assert(new_targets(done_pre, tv.skip(k as int), attacker) == seq![id]
                    + new_targets(done_pre.push(id), tv.skip(k as int + 1), attacker));
                assert(targets@ =~= targets_pre.push(id));
                assert(targets_pre.push(id) + new_targets(
                    done_pre.push(id),
                    tv.skip(k as int + 1),
                    attacker,
                ) =~= targets_pre + (seq![id] + new_targets(
                    done_pre.push(id),
                    tv.skip(k as int + 1),
                    attacker,
                )));
                assert(attack.damaged_entities@ =~= done0 + targets@);
            }
        } else {
            proof {
                assert(new_targets(attack.damaged_entities@, tv.skip(k as int), attacker)
                    == new_targets(attack.damaged_entities@, tv.skip(k as int + 1), attacker));
            }
        }
        k = k + 1;
    }
    proof {
        assert(tv.skip(n as int).len() == 0);
        assert(targets@ + new_targets(attack.damaged_entities@, tv.skip(n as int), attacker)
            =~= targets@);
    }
    targets
}

} // verus!
