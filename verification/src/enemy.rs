use vstd::prelude::*;

use crate::ability::{Ability, AbilityTargetType, TurnEvent};
use crate::battle_field::BattleField;
use crate::character::Group;
use crate::hex::{hex_wf, spec_dist, spec_line_point, Hex};
use crate::interactions::tile_listed;
use crate::lifecycle::Combatant;
use crate::resolution::find_tile_of;
use crate::rng::random_below;

verus! {

/// The combatant's ability list.
pub open spec fn inventory(c: Seq<Combatant>, who: usize) -> Seq<Ability> {
    c[who as int].bundle.abilities.0@
}

/// Whether the combatant's inventory holds this very ability.
pub open spec fn in_inventory(c: Seq<Combatant>, who: usize, a: Ability) -> bool {
    exists|i: int| 0 <= i < inventory(c, who).len() && (#[trigger] inventory(c, who)[i]) == a
}

/// A tile occupied by a player-side combatant.
pub open spec fn placed_player_tile(f: BattleField, c: Seq<Combatant>, t: int) -> bool {
    &&& 0 <= t < f.tile_count()
    &&& f.spec_occupant(t) is Some
    &&& (f.spec_occupant(t)->0 as int) < c.len()
    &&& c[f.spec_occupant(t)->0 as int].bundle.group == Group::Player
}

/// The hex the combatant stands on.
pub open spec fn standing_hex_of(f: BattleField, who: usize) -> Hex {
    f.spec_hex_of(f.spec_tile_of(who))
}

/// No inventory ability of `who` attacks across the given distance: none
/// both targets the opposing faction and reaches that far.
pub open spec fn no_attack_in_range(c: Seq<Combatant>, who: usize, d: int) -> bool {
    forall|j: int|
        0 <= j < inventory(c, who).len() ==> !((#[trigger] inventory(c, who)[j]).target.enemy && d
            <= inventory(c, who)[j].range)
}

/// Step `i` of the straight line from `from_hex` back to `enemy_hex` is a
/// spot the enemy could move to: a well-formed on-grid hex whose tile is
/// empty and within `range` of the enemy.
pub open spec fn line_move_step_ok(
    f: BattleField,
    from_hex: Hex,
    enemy_hex: Hex,
    range: i32,
    i: int,
) -> bool {
    let h = spec_line_point(from_hex, enemy_hex, i);
    &&& hex_wf(h)
    &&& f.spec_tile(h) is Some
    &&& f.spec_occupant(f.spec_tile(h)->0) is None
    &&& spec_dist(enemy_hex, h) <= range
}

/// No step of the line from `from_hex` back to the enemy, its start
/// excluded, is a spot the enemy could move to.
pub open spec fn no_line_move(f: BattleField, from_hex: Hex, enemy_hex: Hex, range: i32) -> bool {
    forall|i: int|
        1 <= i <= spec_dist(from_hex, enemy_hex) ==> !(#[trigger] line_move_step_ok(
            f,
            from_hex,
            enemy_hex,
            range,
            i,
        ))
}

/// Whether the advance search can succeed at all with the given range:
/// some straight line from a grid hex back to the enemy passes a
/// reachable empty tile.
pub open spec fn move_search_finds(f: BattleField, enemy_hex: Hex, range: i32) -> bool {
    exists|t: int, i: int|
        0 <= t < f.tile_count() && 1 <= i <= spec_dist(f.spec_hex_of(t), enemy_hex)
            && #[trigger] line_move_step_ok(f, f.spec_hex_of(t), enemy_hex, range, i)
}

/// A search that succeeds with some range succeeds with any longer one.
proof fn lemma_move_search_monotone(f: BattleField, enemy_hex: Hex, r1: i32, r2: i32)
    requires
        r1 <= r2,
        move_search_finds(f, enemy_hex, r1),
    ensures
        move_search_finds(f, enemy_hex, r2),
{
    let (t, i) = choose|t: int, i: int|
        0 <= t < f.tile_count() && 1 <= i <= spec_dist(f.spec_hex_of(t), enemy_hex)
            && #[trigger] line_move_step_ok(f, f.spec_hex_of(t), enemy_hex, r1, i);
    assert(line_move_step_ok(f, f.spec_hex_of(t), enemy_hex, r2, i));
}

/// Whether some listed inventory index equals the given one.
spec fn choice_listed(s: Seq<usize>, j: int) -> bool {
    exists|k: int| 0 <= k < s.len() && (#[trigger] s[k]) as int == j
}

/// Checks well-formedness of a hex value.
fn hex_checked(h: &Hex) -> (r: bool)
    ensures
        r == hex_wf(*h),
{
    match h {
        Hex::Oddr(pos) => -0x800_0000 <= pos.x && pos.x <= 0x800_0000 && -0x800_0000 <= pos.y
            && pos.y <= 0x800_0000,
        Hex::Cube(pos) => -0x800_0000 <= pos.x && pos.x <= 0x800_0000 && -0x800_0000 <= pos.y
            && pos.y <= 0x800_0000 && pos.x > i32::MIN && pos.z == -pos.x + pos.y,
    }
}

/// Decides the active enemy's turn.
///
/// The policy first looks for an attack: an inventory ability aimed at the
/// opposing faction whose range covers a randomly chosen player-held tile.
/// Failing that it tries to advance: taking its longest-range ability that
/// targets empty tiles, it walks the field nearest-the-player first and
/// follows the straight line from each candidate back towards itself,
/// moving to the first reachable empty tile. With no move left it passes.
///
/// The contract owes an action, not only legality. An emitted attack is an
/// inventory ability cast at a player-held tile within its range; an
/// emitted reposition is an empty-targeting inventory ability of maximal
/// range, cast at an empty tile within that range, and happens only after
/// no attack reached the drawn player. A pass comes back only as the last
/// resort: some player-held tile that no inventory ability attacks in
/// range, and no straight-line advance is possible with any
/// empty-targeting ability's range. In particular, when every player-held
/// tile can be attacked the event is never a pass, whatever the random
/// draws.
#[verifier::loop_isolation(false)]
#[verifier::rlimit(90)]
pub fn handle_enemy_turn(
    field: &BattleField,
    combatants: &Vec<Combatant>,
    active_enemy: usize,
) -> (ev: TurnEvent)
    requires
        field.wf(),
        field.occupancy_injective(),
        (active_enemy as int) < combatants@.len(),
        field.spec_placed(active_enemy),
        exists|t: int| #[trigger] placed_player_tile(*field, combatants@, t),
        forall|t: int|
            0 <= t < field.tile_count() && (#[trigger] field.spec_occupant(t)) is Some ==> (
            field.spec_occupant(t)->0 as int) < combatants@.len(),
    ensures
        match ev {
            TurnEvent::Pass(by) => {
                &&& by == active_enemy
                &&& exists|p: int|
                    #[trigger] placed_player_tile(*field, combatants@, p) && no_attack_in_range(
                        combatants@,
                        active_enemy,
                        spec_dist(
                            field.spec_hex_of(p),
                            standing_hex_of(*field, active_enemy),
                        ),
                    )
                &&& forall|j: int|
                    0 <= j < inventory(combatants@, active_enemy).len() && (#[trigger] inventory(
                        combatants@,
                        active_enemy,
                    )[j]).target.empty ==> !move_search_finds(
                        *field,
                        standing_hex_of(*field, active_enemy),
                        inventory(combatants@, active_enemy)[j].range,
                    )
            },
            TurnEvent::Ability { ability, by, on } => {
                &&& by == active_enemy
                &&& in_inventory(combatants@, active_enemy, ability)
                &&& (on as int) < field.tile_count()
                &&& ({
                    ||| (ability.target.enemy && placed_player_tile(*field, combatants@, on as int)
                        && spec_dist(
                        field.spec_hex_of(on as int),
                        standing_hex_of(*field, active_enemy),
                    ) <= ability.range)
                    ||| (ability.target.empty && field.spec_occupant(on as int) is None
                        && spec_dist(
                        standing_hex_of(*field, active_enemy),
                        field.spec_hex_of(on as int),
                    ) <= ability.range && (forall|j: int|
                        0 <= j < inventory(combatants@, active_enemy).len()
                            && (#[trigger] inventory(combatants@, active_enemy)[j]).target.empty
                            ==> inventory(combatants@, active_enemy)[j].range <= ability.range)
                        && exists|p: int|
                        #[trigger] placed_player_tile(*field, combatants@, p)
                            && no_attack_in_range(
                            combatants@,
                            active_enemy,
                            spec_dist(
                                field.spec_hex_of(p),
                                standing_hex_of(*field, active_enemy),
                            ),
                        ))
                })
            },
        },
{
    let total: usize = field.occupants.len();
    let mut players: Vec<usize> = Vec::new();
    let mut t: usize = 0;
    while t < total
        invariant
            0 <= t <= total,
            forall|i: int|
                0 <= i < players@.len() ==> placed_player_tile(
                    *field,
                    combatants@,
                    #[trigger] players@[i] as int,
                ),
            forall|t2: int|
                0 <= t2 < t && placed_player_tile(*field, combatants@, t2)
                    ==> #[trigger] tile_listed(players@, t2),
        decreases total - t,
    {
        let ghost pre = players@;
        proof {
            assert(field.spec_occupant(t as int) == field.occupants@[t as int]);
        }
        let keep = match field.occupants[t] {
            Option::Some(c) => match combatants[c].bundle.group {
                Group::Player => true,
                Group::Enemy => false,
            },
            Option::None => false,
        };
        if keep {
            players.push(t);
        }
        proof {
            assert forall|t2: int|
                0 <= t2 < t + 1 && placed_player_tile(*field, combatants@, t2)
                    implies #[trigger] tile_listed(players@, t2) by {
                if t2 < t {
                    assert(tile_listed(pre, t2));
                    let i = choose|i: int| 0 <= i < pre.len() && (#[trigger] pre[i]) == t2;
                    assert(players@[i] == t2);
                } else {
                    assert(players@[players@.len() - 1] == t2);
                }
            }
        }
        t = t + 1;
    }
    proof {
        let tw = choose|t2: int| #[trigger] placed_player_tile(*field, combatants@, t2);
        assert(tile_listed(players@, tw));
    }
    let cap: u32 = if players.len() < 0xffff_ffff {
        players.len() as u32
    } else {
        0xffff_ffff
    };
    let pick = random_below(cap) as usize;
    let player_tile = players[pick];
    let player_hex = field.hex(player_tile).unwrap();
    let enemy_tile = find_tile_of(field, active_enemy).unwrap();
    proof {
        let t0 = field.spec_tile_of(active_enemy);
        assert(0 <= t0 < field.tile_count() && field.spec_occupant(t0) == Option::Some(
            active_enemy,
        ));
        assert(enemy_tile as int == t0);
    }
    let enemy_hex = field.hex(enemy_tile).unwrap();
    let d_to_player: i32 = player_hex.dist(enemy_hex);

    let n_ab: usize = combatants[active_enemy].bundle.abilities.0.len();
    let mut attack_choices: Vec<usize> = Vec::new();
    let mut i: usize = 0;
    while i < n_ab
        invariant
            0 <= i <= n_ab,
            forall|k: int|
                0 <= k < attack_choices@.len() ==> (#[trigger] attack_choices@[k] as int) < n_ab
                    && inventory(combatants@, active_enemy)[attack_choices@[k] as int].target.enemy
                    && inventory(combatants@, active_enemy)[attack_choices@[k] as int].range
                    >= d_to_player,
            forall|j: int|
                0 <= j < i && (#[trigger] inventory(combatants@, active_enemy)[j]).target.enemy
                    && d_to_player <= inventory(combatants@, active_enemy)[j].range
                    ==> choice_listed(attack_choices@, j),
        decreases n_ab - i,
    {
        let ghost pre = attack_choices@;
        let ab = &combatants[active_enemy].bundle.abilities.0[i];
        if ab.target.contains(AbilityTargetType::Enemy) && d_to_player <= ab.range {
            attack_choices.push(i);
        }
        proof {
            assert forall|j: int|
                0 <= j < i + 1 && (#[trigger] inventory(combatants@, active_enemy)[j]).target.enemy
                    && d_to_player <= inventory(combatants@, active_enemy)[j].range
                    implies choice_listed(attack_choices@, j) by {
                if j < i {
                    assert(choice_listed(pre, j));
                    let k = choose|k: int| 0 <= k < pre.len() && (#[trigger] pre[k]) as int == j;
                    assert((attack_choices@[k]) as int == j);
                } else {
                    assert((attack_choices@[attack_choices@.len() - 1]) as int == j);
                }
            }
        }
        i = i + 1;
    }
    if attack_choices.len() > 0 {
        let acap: u32 = if attack_choices.len() < 0xffff_ffff {
            attack_choices.len() as u32
        } else {
            0xffff_ffff
        };
        let k = random_below(acap) as usize;
        let chosen_index = attack_choices[k];
        let ability = combatants[active_enemy].bundle.abilities.0[chosen_index].clone();
        return TurnEvent::Ability { ability, by: active_enemy, on: player_tile };
    }
    proof {
        assert forall|j: int|
            0 <= j < inventory(combatants@, active_enemy).len() implies !((#[trigger] inventory(
            combatants@,
            active_enemy,
        )[j]).target.enemy && spec_dist(
            field.spec_hex_of(player_tile as int),
            standing_hex_of(*field, active_enemy),
        ) <= inventory(combatants@, active_enemy)[j].range) by {
            if inventory(combatants@, active_enemy)[j].target.enemy && d_to_player <= inventory(
                combatants@,
                active_enemy,
            )[j].range {
                assert(choice_listed(attack_choices@, j));
                let k = choose|k: int|
                    0 <= k < attack_choices@.len() && (#[trigger] attack_choices@[k]) as int == j;
                assert(false);
            }
        }
        assert(placed_player_tile(*field, combatants@, player_tile as int));
        assert(no_attack_in_range(
            combatants@,
            active_enemy,
            spec_dist(
                field.spec_hex_of(player_tile as int),
                standing_hex_of(*field, active_enemy),
            ),
        ));
    }

    let mut best: Option<usize> = Option::None;
    let mut i2: usize = 0;
    while i2 < n_ab
        invariant
            0 <= i2 <= n_ab,
            match best {
                Option::None => forall|j: int|
                    0 <= j < i2 ==> !(#[trigger] inventory(
                        combatants@,
                        active_enemy,
                    )[j]).target.empty,
                Option::Some(b) => (b as int) < n_ab && inventory(
                    combatants@,
                    active_enemy,
                )[b as int].target.empty && forall|j: int|
                    0 <= j < i2 && (#[trigger] inventory(
                        combatants@,
                        active_enemy,
                    )[j]).target.empty ==> inventory(combatants@, active_enemy)[j].range
                        <= inventory(combatants@, active_enemy)[b as int].range,
            },
        decreases n_ab - i2,
    {
        let ab = &combatants[active_enemy].bundle.abilities.0[i2];
        if ab.target.contains(AbilityTargetType::Empty) {
            let better = match best {
                Option::None => true,
                Option::Some(b) => combatants[active_enemy].bundle.abilities.0[b].range
                    <= ab.range,
            };
            if better {
                best = Option::Some(i2);
            }
        }
        i2 = i2 + 1;
    }
    match best {
        Option::Some(bi) => {
            let range: i32 = combatants[active_enemy].bundle.abilities.0[bi].range;
            let order = field.hexes_by_dist(&player_hex, Option::Some(enemy_hex));
            let n_ord: usize = order.len();
            let mut k: usize = 0;
            while k < n_ord
                invariant
                    0 <= k <= n_ord,
                    n_ord == order@.len(),
                    forall|k2: int|
                        0 <= k2 < k ==> no_line_move(
                            *field,
                            (#[trigger] order@[k2]).1,
                            standing_hex_of(*field, active_enemy),
                            range,
                        ),
                decreases n_ord - k,
            {
                let move_target = order[k].1;
                let lin = move_target.line(enemy_hex);
                let n_lin: usize = lin.len();
                let mut li: usize = 1;
                while li < n_lin
                    invariant
                        1 <= li <= n_lin,
                        n_lin == lin@.len(),
                        forall|i3: int|
                            1 <= i3 < li ==> !(#[trigger] line_move_step_ok(
                                *field,
                                order@[k as int].1,
                                standing_hex_of(*field, active_enemy),
                                range,
                                i3,
                            )),
                    decreases n_lin - li,
                {
                    let h = lin[li];
                    let mut step_found: Option<usize> = Option::None;
                    if hex_checked(&h) {
                        let on_grid = match field.tile(&h) {
                            Option::Some(_) => true,
                            Option::None => false,
                        };
                        if on_grid {
                            step_found = field.in_range_and_empty(enemy_hex, h, range);
                        }
                    }
                    match step_found {
                        Option::Some(tl) => {
                            proof {
                                crate::hex::lemma_wf_cube_of_oddr(h);
                                let o = crate::hex::spec_to_oddr(h);
                                field.lemma_grid_round_trip(o.0, o.1);
                                crate::hex::lemma_wf_cube_of_oddr(
                                    field.spec_hex_of(tl as int),
                                );
                            }
                            let ability = combatants[active_enemy].bundle.abilities.0[
                                bi
                            ].clone();
                            return TurnEvent::Ability {
                                ability,
                                by: active_enemy,
                                on: tl,
                            };
                        },
                        Option::None => {
                            proof {
                                assert(!line_move_step_ok(
                                    *field,
                                    order@[k as int].1,
                                    standing_hex_of(*field, active_enemy),
                                    range,
                                    li as int,
                                ));
                            }
                        },
                    }
                    li = li + 1;
                }
                proof {
                    assert(no_line_move(
                        *field,
                        order@[k as int].1,
                        standing_hex_of(*field, active_enemy),
                        range,
                    ));
                }
                k = k + 1;
            }
            proof {
                let ehex = standing_hex_of(*field, active_enemy);
                assert(!move_search_finds(*field, ehex, range)) by {
                    if move_search_finds(*field, ehex, range) {
                        let (tt, i3) = choose|tt: int, i3: int|
                            0 <= tt < field.tile_count() && 1 <= i3 <= spec_dist(
                                field.spec_hex_of(tt),
                                ehex,
                            ) && #[trigger] line_move_step_ok(
                                *field,
                                field.spec_hex_of(tt),
                                ehex,
                                range,
                                i3,
                            );
                        assert(crate::battle_field::hex_listed(
                            order@,
                            field.spec_hex_of(tt),
                        ));
                        let kk = choose|kk: int|
                            0 <= kk < order@.len() && (#[trigger] order@[kk].1)
                                == field.spec_hex_of(tt);
                        assert(no_line_move(*field, order@[kk].1, ehex, range));
                        assert(line_move_step_ok(*field, order@[kk].1, ehex, range, i3));
                        assert(false);
                    }
                }
                assert forall|j: int|
                    0 <= j < inventory(combatants@, active_enemy).len() && (#[trigger] inventory(
                        combatants@,
                        active_enemy,
                    )[j]).target.empty implies !move_search_finds(
                    *field,
                    ehex,
                    inventory(combatants@, active_enemy)[j].range,
                ) by {
                    if move_search_finds(
                        *field,
                        ehex,
                        inventory(combatants@, active_enemy)[j].range,
                    ) {
                        lemma_move_search_monotone(
                            *field,
                            ehex,
                            inventory(combatants@, active_enemy)[j].range,
                            range,
                        );
                        assert(false);
                    }
                }
            }
            TurnEvent::Pass(active_enemy)
        },
        Option::None => {
            TurnEvent::Pass(active_enemy)
        },
    }
}

} // verus!
