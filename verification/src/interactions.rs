use vstd::prelude::*;

use crate::ability::{Ability, AbilityTargetType};
use crate::battle_field::BattleField;
use crate::character::Group;
use crate::hex::{spec_dist, Hex};
use crate::lifecycle::Combatant;

verus! {

/// Whether some listed tile equals the given one.
pub open spec fn tile_listed(s: Seq<usize>, t: int) -> bool {
    exists|i: int| 0 <= i < s.len() && #[trigger] s[i] == t
}

/// All tiles within the ability's range of the given tile, in tile order.
/// This is the set of legal aiming spots the targeting layer offers.
#[verifier::loop_isolation(false)]
pub fn get_ability_range(ability: &Ability, target_tile: usize, battle_field: &BattleField) -> (r:
    Vec<usize>)
    requires
        battle_field.wf(),
        target_tile < battle_field.tile_count(),
    ensures
        forall|i: int|
            0 <= i < r@.len() ==> (#[trigger] r@[i]) < battle_field.tile_count() && spec_dist(
                battle_field.spec_hex_of(r@[i] as int),
                battle_field.spec_hex_of(target_tile as int),
            ) <= ability.range,
        forall|t: int|
            0 <= t < battle_field.tile_count() && spec_dist(
                battle_field.spec_hex_of(t),
                battle_field.spec_hex_of(target_tile as int),
            ) <= ability.range ==> #[trigger] tile_listed(r@, t),
        forall|i: int, j: int| 0 <= i < j < r@.len() ==> r@[i] < r@[j],
{
    let target_hex = battle_field.hex(target_tile).unwrap();
    let total: usize = battle_field.occupants.len();
    let mut out: Vec<usize> = Vec::new();
    let mut t: usize = 0;
    while t < total
        invariant
            0 <= t <= total,
            forall|i: int|
                0 <= i < out@.len() ==> (#[trigger] out@[i]) < t && spec_dist(
                    battle_field.spec_hex_of(out@[i] as int),
                    battle_field.spec_hex_of(target_tile as int),
                ) <= ability.range,
            forall|t2: int|
                0 <= t2 < t && spec_dist(
                    battle_field.spec_hex_of(t2),
                    battle_field.spec_hex_of(target_tile as int),
                ) <= ability.range ==> #[trigger] tile_listed(out@, t2),
            forall|i: int, j: int| 0 <= i < j < out@.len() ==> out@[i] < out@[j],
        decreases total - t,
    {
        let hex = battle_field.hex(t).unwrap();
        let ghost pre = out@;
        if hex.dist(target_hex) <= ability.range {
            out.push(t);
        }
        proof {
            assert forall|t2: int|
                0 <= t2 < t + 1 && spec_dist(
                    battle_field.spec_hex_of(t2),
                    battle_field.spec_hex_of(target_tile as int),
                ) <= ability.range implies #[trigger] tile_listed(out@, t2) by {
                if t2 < t {
                    assert(tile_listed(pre, t2));
                    let i = choose|i: int| 0 <= i < pre.len() && #[trigger] pre[i] == t2;
                    assert(out@[i] == t2);
                } else {
                    assert(out@[out@.len() - 1] == t2);
                }
            }
        }
        t = t + 1;
    }
    out
}

/// The occupancy kind of a tile as the targeting layer sees it: empty, an
/// ally of the player side, or an enemy.
pub fn target_type_of(combatants: &Vec<Combatant>, occupant: Option<usize>) -> (r:
    AbilityTargetType)
    requires
        occupant is Some ==> (occupant->0 as int) < combatants@.len(),
    ensures
        r == (match occupant {
            Option::None => AbilityTargetType::Empty,
            Option::Some(c) => match combatants@[c as int].bundle.group {
                Group::Player => AbilityTargetType::Ally,
                Group::Enemy => AbilityTargetType::Enemy,
            },
        }),
{
    match occupant {
        Option::None => AbilityTargetType::Empty,
        Option::Some(c) => match combatants[c].bundle.group {
            Group::Player => AbilityTargetType::Ally,
            Group::Enemy => AbilityTargetType::Enemy,
        },
    }
}

/// Whether a click on `tile` is a legal aim for the chosen ability: the
/// tile's occupancy kind is among the ability's target types, and the tile
/// lies in the precomputed range. This check lives with the targeting
/// layer; the resolution engine trusts it and does not repeat it.
#[verifier::loop_isolation(false)]
pub fn is_valid_target(
    ability: &Ability,
    target_type: AbilityTargetType,
    allowed_targets: &Vec<usize>,
    tile: usize,
) -> (r: bool)
    ensures
        r == (ability.target.spec_contains(target_type) && tile_listed(
            allowed_targets@,
            tile as int,
        )),
{
    if !ability.target.contains(target_type) {
        return false;
    }
    let n: usize = allowed_targets.len();
    let mut i: usize = 0;
    while i < n
        invariant
            n == allowed_targets@.len(),
            0 <= i <= n,
            forall|j: int| 0 <= j < i ==> allowed_targets@[j] != tile,
        decreases n - i,
    {
        if allowed_targets[i] == tile {
            proof {
                assert(allowed_targets@[i as int] == tile as int);
            }
            return true;
        }
        i = i + 1;
    }
    false
}

} // verus!
