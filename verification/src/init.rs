use vstd::prelude::*;

use std::collections::VecDeque;

use crate::battle_field::BattleField;
use crate::character::{bundle_equiv, Character, Group};
use crate::hex::{hex_wf, spec_to_oddr, Hex};
use crate::lifecycle::{BattleQueue, Combatant, LifeState};

verus! {

/// The configured battle ground: its size and the starting hexes of each
/// side, in seating order.
#[derive(Debug)]
pub struct BattleFieldLayout {
    pub width: usize,
    pub height: usize,
    pub player_start: Vec<Hex>,
    pub enemy_start: Vec<Hex>,
}

/// A running battle: the field with its occupancy, the combatants, and the
/// turn order.
#[derive(Debug)]
pub struct Battle {
    pub field: BattleField,
    pub combatants: Vec<Combatant>,
    pub queue: BattleQueue,
}

/// The tile a hex denotes on a field of the layout's size.
pub open spec fn layout_tile(layout: BattleFieldLayout, h: Hex) -> Option<int> {
    let o = spec_to_oddr(h);
    if 0 <= o.0 < layout.width && 0 <= o.1 < layout.height {
        Option::Some(o.1 * layout.width + o.0)
    } else {
        Option::None
    }
}

/// How many of the first `upto` roster entries belong to the group.
pub open spec fn count_group(s: Seq<Character>, g: Group, upto: int) -> int
    decreases upto,
{
    if upto <= 0 {
        0
    } else {
        count_group(s, g, upto - 1) + (if s[upto - 1].bundle.group == g {
            1int
        } else {
            0int
        })
    }
}

/// The group counter never decreases, grows by at most one per entry, and
/// grows strictly past a member of the group.
pub proof fn lemma_count_group_bounds(s: Seq<Character>, g: Group, i: int, j: int)
    requires
        0 <= i <= j,
    ensures
        count_group(s, g, i) <= count_group(s, g, j),
        count_group(s, g, j) - count_group(s, g, i) <= j - i,
        0 <= i < j && s[i].bundle.group == g ==> count_group(s, g, i) < count_group(s, g, j),
    decreases j - i,
{
    if i < j {
        lemma_count_group_bounds(s, g, i, j - 1);
    }
}

/// The start hex a roster entry is seated on: its group's list, indexed by
/// how many of its own group came before it.
pub open spec fn start_hex_of(layout: BattleFieldLayout, s: Seq<Character>, i: int) -> Hex {
    if s[i].bundle.group == Group::Player {
        layout.player_start@[count_group(s, Group::Player, i)]
    } else {
        layout.enemy_start@[count_group(s, Group::Enemy, i)]
    }
}

/// What a layout must provide for a roster: enough well-formed on-grid
/// start hexes for each side, and no two start hexes sharing a tile.
pub open spec fn layout_fits(layout: BattleFieldLayout, s: Seq<Character>) -> bool {
    &&& count_group(s, Group::Player, s.len() as int) <= layout.player_start@.len()
    &&& count_group(s, Group::Enemy, s.len() as int) <= layout.enemy_start@.len()
    &&& forall|k: int|
        0 <= k < layout.player_start@.len() ==> hex_wf(#[trigger] layout.player_start@[k])
            && layout_tile(layout, layout.player_start@[k]) is Some
    &&& forall|k: int|
        0 <= k < layout.enemy_start@.len() ==> hex_wf(#[trigger] layout.enemy_start@[k])
            && layout_tile(layout, layout.enemy_start@[k]) is Some
    &&& forall|k1: int, k2: int|
        0 <= k1 < k2 < layout.player_start@.len() ==> layout_tile(
            layout,
            #[trigger] layout.player_start@[k1],
        ) != layout_tile(layout, #[trigger] layout.player_start@[k2])
    &&& forall|k1: int, k2: int|
        0 <= k1 < k2 < layout.enemy_start@.len() ==> layout_tile(
            layout,
            #[trigger] layout.enemy_start@[k1],
        ) != layout_tile(layout, #[trigger] layout.enemy_start@[k2])
    &&& forall|k1: int, k2: int|
        0 <= k1 < layout.player_start@.len() && 0 <= k2 < layout.enemy_start@.len()
            ==> layout_tile(layout, #[trigger] layout.player_start@[k1]) != layout_tile(
            layout,
            #[trigger] layout.enemy_start@[k2],
        )
}

/// Builds the battle: an empty field of the layout's size, every roster
/// character seated alive on its side's next start hex, and the turn
/// order running through the roster front to back.
#[verifier::loop_isolation(false)]
#[verifier::rlimit(90)]
pub fn setup_battle(characters: &Vec<Character>, layout: &BattleFieldLayout) -> (r: Battle)
    requires
        layout.width <= 0x800_0000,
        layout.height <= 0x800_0000,
        layout.width * layout.height <= usize::MAX,
        layout_fits(*layout, characters@),
    ensures
        r.field.wf(),
        r.field.occupancy_injective(),
        r.field.width == layout.width,
        r.field.height == layout.height,
        r.combatants@.len() == characters@.len(),
        forall|i: int|
            0 <= i < characters@.len() ==> bundle_equiv(
                (#[trigger] r.combatants@[i]).bundle,
                characters@[i].bundle,
            ) && r.combatants@[i].life == LifeState::Alive,
        r.queue.queue@.len() == characters@.len(),
        forall|i: int| 0 <= i < characters@.len() ==> (#[trigger] r.queue.queue@[i]) == i,
        forall|i: int|
            0 <= i < characters@.len() ==> r.field.spec_occupant(
                layout_tile(*layout, #[trigger] start_hex_of(*layout, characters@, i))->0,
            ) == Option::Some(i as usize),
        forall|t: int|
            0 <= t < r.field.tile_count() && (#[trigger] r.field.spec_occupant(t)) is Some
                ==> (r.field.spec_occupant(t)->0 as int) < characters@.len(),
{
    let mut field = BattleField::new(layout.width, layout.height);
    let mut combatants: Vec<Combatant> = Vec::new();
    let mut queue_inner: VecDeque<usize> = VecDeque::new();
    let n: usize = characters.len();
    let pmax: usize = layout.player_start.len();
    let emax: usize = layout.enemy_start.len();
    let mut pc: usize = 0;
    let mut ec: usize = 0;
    let mut i: usize = 0;
    while i < n
        invariant
            0 <= i <= n,
            pc == count_group(characters@, Group::Player, i as int),
            ec == count_group(characters@, Group::Enemy, i as int),
            pc <= pmax,
            ec <= emax,
            field.wf(),
            field.width == layout.width,
            field.height == layout.height,
            combatants@.len() == i,
            forall|k: int|
                0 <= k < i ==> bundle_equiv(
                    (#[trigger] combatants@[k]).bundle,
                    characters@[k].bundle,
                ) && combatants@[k].life == LifeState::Alive,
            queue_inner@.len() == i,
            forall|k: int| 0 <= k < i ==> (#[trigger] queue_inner@[k]) == k,
            forall|k: int|
                0 <= k < i ==> 0 <= layout_tile(
                    *layout,
                    #[trigger] start_hex_of(*layout, characters@, k),
                )->0 < field.tile_count() && field.spec_occupant(
                    layout_tile(*layout, start_hex_of(*layout, characters@, k))->0,
                ) == Option::Some(k as usize),
            forall|t: int|
                0 <= t < field.tile_count() && (#[trigger] field.spec_occupant(t)) is Some
                    ==> (field.spec_occupant(t)->0 as int) < i && t == layout_tile(
                    *layout,
                    start_hex_of(*layout, characters@, field.spec_occupant(t)->0 as int),
                )->0,
        decreases n - i,
    {
        proof {
            lemma_count_group_bounds(
                characters@,
                Group::Player,
                i as int,
                characters@.len() as int,
            );
            lemma_count_group_bounds(
                characters@,
                Group::Enemy,
                i as int,
                characters@.len() as int,
            );
        }
        let group = characters[i].bundle.group;
        let start = match group {
            Group::Player => {
                let h = layout.player_start[pc];
                pc = pc + 1;
                h
            },
            Group::Enemy => {
                let h = layout.enemy_start[ec];
                ec = ec + 1;
                h
            },
        };
        proof {
            assert(start == start_hex_of(*layout, characters@, i as int));
            assert(hex_wf(start) && layout_tile(*layout, start) is Some);
            assert(field.spec_tile(start) == layout_tile(*layout, start));
        }
        let tile = field.tile(&start).unwrap();
        proof {
            let o = spec_to_oddr(start);
            field.lemma_grid_round_trip(o.0, o.1);
            if field.spec_occupant(tile as int) is Some {
                let k = field.spec_occupant(tile as int)->0 as int;
                let gk = characters@[k].bundle.group;
                let rk = count_group(characters@, gk, k);
                let ri = count_group(characters@, group, i as int);
                lemma_count_group_bounds(characters@, gk, 0, k);
                lemma_count_group_bounds(characters@, group, 0, i as int);
                lemma_count_group_bounds(characters@, gk, k, i as int);
                lemma_count_group_bounds(characters@, gk, k, characters@.len() as int);
                assert(start_hex_of(*layout, characters@, k) == (if gk == Group::Player {
                    layout.player_start@[rk]
                } else {
                    layout.enemy_start@[rk]
                }));
                assert(start == (if group == Group::Player {
                    layout.player_start@[ri]
                } else {
                    layout.enemy_start@[ri]
                }));
                assert(rk < (if gk == Group::Player {
                    layout.player_start@.len() as int
                } else {
                    layout.enemy_start@.len() as int
                }));
                assert(ri < (if group == Group::Player {
                    layout.player_start@.len() as int
                } else {
                    layout.enemy_start@.len() as int
                }));
                if gk == group {
                    assert(rk < ri);
                    if gk == Group::Player {
                        assert(layout_tile(*layout, layout.player_start@[rk]) != layout_tile(
                            *layout,
                            layout.player_start@[ri],
                        ));
                    } else {
                        assert(layout_tile(*layout, layout.enemy_start@[rk]) != layout_tile(
                            *layout,
                            layout.enemy_start@[ri],
                        ));
                    }
                } else if gk == Group::Player {
                    assert(layout_tile(*layout, layout.player_start@[rk]) != layout_tile(
                        *layout,
                        layout.enemy_start@[ri],
                    ));
                } else {
                    assert(layout_tile(*layout, layout.player_start@[ri]) != layout_tile(
                        *layout,
                        layout.enemy_start@[rk],
                    ));
                }
                assert(false);
            }
        }
        let ghost pre_place = field;
        field.place(tile, i);
        combatants.push(
            Combatant { bundle: characters[i].bundle.clone(), life: LifeState::Alive },
        );
        queue_inner.push_back(i);
        proof {
            assert forall|k: int|
                0 <= k < i + 1 implies 0 <= layout_tile(
                *layout,
                #[trigger] start_hex_of(*layout, characters@, k),
            )->0 < field.tile_count() && field.spec_occupant(
                layout_tile(*layout, start_hex_of(*layout, characters@, k))->0,
            ) == Option::Some(k as usize) by {
                if k < i {
                    let tk = layout_tile(*layout, start_hex_of(*layout, characters@, k))->0;
                    assert(pre_place.spec_occupant(tk) == Option::Some(k as usize));
                    assert(tk != tile as int);
                    assert(field.spec_occupant(tk) == pre_place.spec_occupant(tk));
                }
            }
            assert forall|t: int|
                0 <= t < field.tile_count() && (#[trigger] field.spec_occupant(t)) is Some
                    implies (field.spec_occupant(t)->0 as int) < i + 1 && t == layout_tile(
                *layout,
                start_hex_of(*layout, characters@, field.spec_occupant(t)->0 as int),
            )->0 by {
                if t == tile as int {
                    assert(field.spec_occupant(t) == Option::Some(i));
                } else {
                    assert(field.spec_occupant(t) == pre_place.spec_occupant(t));
                }
            }
        }
        i = i + 1;
    }
    proof {
        assert forall|t1: int, t2: int|
            0 <= t1 < t2 < field.occupants@.len() implies !(field.occupants@[t1] is Some
            && field.occupants@[t1] == field.occupants@[t2]) by {
            assert(field.spec_occupant(t1) == field.occupants@[t1]);
            assert(field.spec_occupant(t2) == field.occupants@[t2]);
            if field.spec_occupant(t1) is Some && field.spec_occupant(t1) == field.spec_occupant(
                t2,
            ) {
                assert(t1 == layout_tile(
                    *layout,
                    start_hex_of(*layout, characters@, field.spec_occupant(t1)->0 as int),
                )->0);
                assert(t2 == layout_tile(
                    *layout,
                    start_hex_of(*layout, characters@, field.spec_occupant(t2)->0 as int),
                )->0);
                assert(false);
            }
        }
        assert(field.occupancy_injective());
    }
    Battle { field, combatants, queue: BattleQueue { queue: queue_inner } }
}

} // verus!
