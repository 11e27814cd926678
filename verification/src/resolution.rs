use vstd::prelude::*;

use vstd::arithmetic::power::pow;
use vstd::string::StringExecFns;

use crate::ability::{Ability, AbilityProximity, AbilityTargetSet, AbilityType, TargetedAbilityType, TurnEvent};
use crate::battle_field::BattleField;
use crate::character::{attribute_wf, Attribute, AttributeType};
use crate::hex::{spec_dist, spec_to_oddr};
use crate::lifecycle::{BattleLifecycleEvent, Combatant};
use crate::log::BattleLogEvent;
use crate::text::{int_to_string, spec_int_string};

verus! {

/// The damage multiplier `round(1.1 ^ d)` as exact integer arithmetic:
/// the rational `11^d / 10^d` rounded to the nearest integer, halves
/// rounding up. Every point of attack advantage multiplies damage by 1.1;
/// disadvantage divides it.
pub open spec fn damage_multiplier(d: int) -> int {
    if d >= 0 {
        (2 * pow(11, d as nat) + pow(10, d as nat)) / (2 * pow(10, d as nat))
    } else {
        (2 * pow(10, (-d) as nat) + pow(11, (-d) as nat)) / (2 * pow(11, (-d) as nat))
    }
}

/// The damage an ability of the given potency does when cast with the
/// given attack against the given defense.
pub open spec fn spec_calculate_damage(potency: int, attack: int, defense: int) -> int {
    potency * damage_multiplier(attack - defense)
}

/// At eight or more points of disadvantage the multiplier vanishes:
/// `11^e` outgrows `2 * 10^e` from `e == 8` on.
proof fn lemma_pow11_outgrows(e: nat)
    requires
        e >= 8,
    ensures
        pow(11, e) > 2 * pow(10, e),
    decreases e,
{
    if e == 8 {
        reveal_with_fuel(pow, 9);
    } else {
        lemma_pow11_outgrows((e - 1) as nat);
        reveal(pow);
        vstd::arithmetic::power::lemma_pow_positive(10, (e - 1) as nat);
        assert(pow(11, e) == 11 * pow(11, (e - 1) as nat));
        assert(pow(10, e) == 10 * pow(10, (e - 1) as nat));
        assert(11 * pow(11, (e - 1) as nat) > 11 * (2 * pow(10, (e - 1) as nat)))
            by (nonlinear_arith)
            requires
                pow(11, (e - 1) as nat) > 2 * pow(10, (e - 1) as nat),
        ;
        assert(11 * (2 * pow(10, (e - 1) as nat)) >= 2 * (10 * pow(10, (e - 1) as nat)))
            by (nonlinear_arith)
            requires
                pow(10, (e - 1) as nat) >= 0,
        ;
    }
}

/// Far past that point no damage is left at all.
proof fn lemma_multiplier_zero_far_negative(d: int)
    requires
        d < 0,
        pow(11, (-d) as nat) > 2 * pow(10, (-d) as nat),
    ensures
        damage_multiplier(d) == 0,
{
    let e = (-d) as nat;
    vstd::arithmetic::power::lemma_pow_positive(10, e);
    vstd::arithmetic::power::lemma_pow_positive(11, e);
    vstd::arithmetic::div_mod::lemma_basic_div(
        2 * pow(10, e) + pow(11, e),
        2 * pow(11, e),
    );
}

/// Executable integer power.
pub fn pow_u128(b: u128, e: u32) -> (r: u128)
    requires
        1 <= b,
        pow(b as int, e as nat) <= u128::MAX,
    ensures
        r == pow(b as int, e as nat),
{
    let mut acc: u128 = 1;
    let mut i: u32 = 0;
    proof {
        reveal(pow);
    }
    while i < e
        invariant
            1 <= b,
            0 <= i <= e,
            pow(b as int, e as nat) <= u128::MAX,
            acc == pow(b as int, i as nat),
        decreases e - i,
    {
        proof {
            reveal(pow);
            vstd::arithmetic::power::lemma_pow_increases(b as nat, (i + 1) as nat, e as nat);
            assert(pow(b as int, (i + 1) as nat) == b * pow(b as int, i as nat));
            vstd::arithmetic::power::lemma_pow_positive(b as int, i as nat);
        }
        acc = b * acc;
        i = i + 1;
    }
    acc
}

/// The exact numerators and denominators fit the machine words up to an
/// advantage of 36 points.
proof fn lemma_pow_word_bounds()
    ensures
        pow(11, 36) < 0x4000_0000_0000_0000_0000_0000_0000_0000,
        pow(10, 36) < pow(11, 36),
        1 <= pow(10, 36),
{
    reveal_with_fuel(pow, 37);
}

/// Integer-rounded multiplicative damage scaling: `potency` times the
/// multiplier `round(1.1 ^ (attack - defense))`, computed exactly.
///
/// The advantage is capped at 36 so that the exact powers fit a machine
/// word, and the scaled result must fit the result type.
pub fn calculate_damage(potency: i32, attack: i32, defense: i32) -> (r: i32)
    requires
        attack - defense <= 36,
        i32::MIN <= spec_calculate_damage(potency as int, attack as int, defense as int)
            <= i32::MAX,
    ensures
        r == spec_calculate_damage(potency as int, attack as int, defense as int),
{
    let d: i64 = (attack as i64) - (defense as i64);
    proof {
        lemma_pow_word_bounds();
        if d >= 0 {
            vstd::arithmetic::power::lemma_pow_increases(11, d as nat, 36);
            vstd::arithmetic::power::lemma_pow_increases(10, d as nat, 36);
            vstd::arithmetic::power::lemma_pow_positive(10, d as nat);
            vstd::arithmetic::power::lemma_pow_positive(11, d as nat);
        } else if d >= -36 {
            vstd::arithmetic::power::lemma_pow_increases(11, (-d) as nat, 36);
            vstd::arithmetic::power::lemma_pow_increases(10, (-d) as nat, 36);
            vstd::arithmetic::power::lemma_pow_positive(10, (-d) as nat);
            vstd::arithmetic::power::lemma_pow_positive(11, (-d) as nat);
        }
    }
    let m: u128 = if d >= 0 {
        let p11 = pow_u128(11, d as u32);
        let p10 = pow_u128(10, d as u32);
        (2 * p11 + p10) / (2 * p10)
    } else if d >= -36 {
        let p11 = pow_u128(11, (-d) as u32);
        let p10 = pow_u128(10, (-d) as u32);
        (2 * p10 + p11) / (2 * p11)
    } else {
        proof {
            lemma_pow11_outgrows((-d) as nat);
            lemma_multiplier_zero_far_negative(d as int);
        }
        0
    };
    assert(m == damage_multiplier(attack - defense));
    if potency == 0 {
        proof {
            let dm = damage_multiplier(attack - defense);
            assert(0 * dm == 0) by (nonlinear_arith);
        }
        return 0;
    }
    proof {
        let dm = damage_multiplier(attack - defense);
        if d >= 0 {
            vstd::arithmetic::div_mod::lemma_div_pos_is_pos(
                2 * pow(11, d as nat) + pow(10, d as nat),
                2 * pow(10, d as nat),
            );
        } else if d >= -36 {
            vstd::arithmetic::div_mod::lemma_div_pos_is_pos(
                2 * pow(10, (-d) as nat) + pow(11, (-d) as nat),
                2 * pow(11, (-d) as nat),
            );
        }
        assert(dm <= potency * dm || dm <= -(potency * dm)) by (nonlinear_arith)
            requires
                potency != 0,
                0 <= dm,
        ;
    }
    let mi: i64 = m as i64;
    let r64: i64 = (potency as i64) * mi;
    r64 as i32
}


/// The log line for a combatant that waits out its turn.
pub open spec fn pass_message(name: Seq<char>) -> Seq<char> {
    name + " waits"@
}

/// The log line for a combatant moving between two hexes, in offset
/// coordinates.
pub open spec fn move_message(name: Seq<char>, x0: int, y0: int, x1: int, y1: int) -> Seq<char> {
    name + " moved from ("@ + spec_int_string(x0) + ", "@ + spec_int_string(y0) + ") to ("@
        + spec_int_string(x1) + ", "@ + spec_int_string(y1) + ")"@
}

/// The log line for a damaging hit, quoting the gauge value it left behind.
pub open spec fn damage_message(
    caster: Seq<char>,
    ability: Seq<char>,
    target: Seq<char>,
    hp: int,
) -> Seq<char> {
    caster + " used "@ + ability + " on "@ + target + ". Hp removed to: "@ + spec_int_string(hp)
}

/// Builds the movement log line.
fn build_move_message(name: &String, x0: i32, y0: i32, x1: i32, y1: i32) -> (s: String)
    ensures
        s@ == move_message(name@, x0 as int, y0 as int, x1 as int, y1 as int),
{
    let mut s = name.clone();
    s.append(" moved from (");
    s.append(int_to_string(x0 as i64).as_str());
    s.append(", ");
    s.append(int_to_string(y0 as i64).as_str());
    s.append(") to (");
    s.append(int_to_string(x1 as i64).as_str());
    s.append(", ");
    s.append(int_to_string(y1 as i64).as_str());
    s.append(")");
    s
}

/// Builds the damage log line.
fn build_damage_message(caster: &String, ability: &String, target: &String, hp: i32) -> (s: String)
    ensures
        s@ == damage_message(caster@, ability@, target@, hp as int),
{
    let mut s = caster.clone();
    s.append(" used ");
    s.append(ability.as_str());
    s.append(" on ");
    s.append(target.as_str());
    s.append(". Hp removed to: ");
    s.append(int_to_string(hp as i64).as_str());
    s
}

/// Finds the tile a combatant stands on.
pub fn find_tile_of(field: &BattleField, who: usize) -> (r: Option<usize>)
    requires
        field.wf(),
    ensures
        match r {
            Option::Some(t) => t < field.tile_count() && field.spec_occupant(t as int)
                == Option::Some(who),
            Option::None => !field.spec_placed(who),
        },
{
    let total: usize = field.occupants.len();
    let mut t: usize = 0;
    while t < total
        invariant
            field.wf(),
            total == field.tile_count(),
            0 <= t <= total,
            forall|j: int| 0 <= j < t ==> #[trigger] field.spec_occupant(j) != Option::Some(who),
        decreases total - t,
    {
        if let Option::Some(occ) = field.occupants[t] {
            if occ == who {
                return Option::Some(t);
            }
        }
        t = t + 1;
    }
    Option::None
}

/// Clamping to a closed interval.
pub open spec fn clamp_int(v: int, lo: int, hi: int) -> int {
    if v < lo {
        lo
    } else if v > hi {
        hi
    } else {
        v
    }
}

/// Gauge clamp law: however large the damage, a gauge stays within its
/// bounds after the change, and damage exceeding the headroom above the
/// floor lands exactly on the floor.
pub proof fn lemma_gauge_clamp(value: int, min: int, max: int, dmg: int)
    requires
        min <= value <= max,
    ensures
        min <= clamp_int(value - dmg, min, max) <= max,
        dmg > value - min ==> clamp_int(value - dmg, min, max) == min,
{
}

/// Moves a combatant onto an empty tile and reports the move.
///
/// The field keeps its invariants; the combatant's old tile is cleared and
/// the target tile now holds it.
pub fn move_char(field: &mut BattleField, who: usize, where_to: usize, caster_name: &String) -> (log:
    BattleLogEvent)
    requires
        old(field).wf(),
        old(field).occupancy_injective(),
        where_to < old(field).tile_count(),
        old(field).spec_occupant(where_to as int) is None,
        old(field).spec_placed(who),
    ensures
        final(field).wf(),
        final(field).occupancy_injective(),
        final(field).width == old(field).width,
        final(field).height == old(field).height,
        final(field).occupants@ == old(field).occupants@.update(
            old(field).spec_tile_of(who),
            Option::None::<usize>,
        ).update(where_to as int, Option::Some(who)),
        log.message@ == move_message(
            caster_name@,
            spec_to_oddr(old(field).spec_hex_of(old(field).spec_tile_of(who))).0,
            spec_to_oddr(old(field).spec_hex_of(old(field).spec_tile_of(who))).1,
            spec_to_oddr(old(field).spec_hex_of(where_to as int)).0,
            spec_to_oddr(old(field).spec_hex_of(where_to as int)).1,
        ),
{
    let caster_tile = find_tile_of(field, who).unwrap();
    proof {
        let t0 = old(field).spec_tile_of(who);
        assert(0 <= t0 < old(field).tile_count() && old(field).spec_occupant(t0) == Option::Some(
            who,
        ));
        assert(caster_tile as int == t0);
    }
    let caster_hex = field.hex(caster_tile).unwrap();
    let target_hex = field.hex(where_to).unwrap();
    let from = caster_hex.to_oddr();
    let to = target_hex.to_oddr();
    let message = build_move_message(caster_name, from.x, from.y, to.x, to.y);
    field.vacate(caster_tile);
    field.place(where_to, who);
    proof {
        assert forall|t1: int, t2: int|
            0 <= t1 < t2 < field.occupants@.len() implies !(field.spec_occupant(t1) is Some
            && field.spec_occupant(t1) == field.spec_occupant(t2)) by {
            if field.spec_occupant(t1) is Some && field.spec_occupant(t1) == field.spec_occupant(
                t2,
            ) {
                if t1 != where_to && t2 != where_to {
                    assert(old(field).spec_occupant(t1) == field.spec_occupant(t1));
                    assert(old(field).spec_occupant(t2) == field.spec_occupant(t2));
                } else {
                    let other = if t1 == where_to {
                        t2
                    } else {
                        t1
                    };
                    assert(field.spec_occupant(other) == Option::Some(who));
                    assert(other != caster_tile && other != where_to);
                    assert(old(field).spec_occupant(other) == Option::Some(who));
                    assert(old(field).spec_occupant(caster_tile as int) == Option::Some(who));
                }
            }
        }
    }
    BattleLogEvent { message }
}


/// What a resolved turn hands back: log lines and lifecycle events, in
/// order. The lifecycle sequence always ends with the end of the turn.
#[derive(Debug)]
pub struct ResolutionOutcome {
    pub log: Vec<BattleLogEvent>,
    pub lifecycle: Vec<BattleLifecycleEvent>,
}

/// A combatant after one attribute write: everything else untouched, the
/// written type holding `a` wherever it existed before.
pub open spec fn attr_updated(
    before: Combatant,
    after: Combatant,
    t: AttributeType,
    a: Attribute,
) -> bool {
    &&& after.bundle.name == before.bundle.name
    &&& after.bundle.category == before.bundle.category
    &&& after.bundle.abilities == before.bundle.abilities
    &&& after.bundle.group == before.bundle.group
    &&& after.life == before.life
    &&& after.bundle.attributes.wf()
    &&& after.bundle.attributes.0@.len() == before.bundle.attributes.0@.len()
    &&& after.bundle.attributes.spec_get(t) == (match before.bundle.attributes.spec_get(t) {
        Option::None => Option::None::<Attribute>,
        Option::Some(_) => Option::Some(a),
    })
    &&& forall|u: AttributeType|
        u != t ==> after.bundle.attributes.spec_get(u) == before.bundle.attributes.spec_get(u)
}

/// Writes one attribute of one combatant, leaving all else unchanged.
fn set_combatant_attr(combatants: &mut Vec<Combatant>, c: usize, t: AttributeType, a: Attribute)
    requires
        c < old(combatants)@.len(),
        old(combatants)@[c as int].bundle.attributes.wf(),
        attribute_wf(a),
    ensures
        final(combatants)@.len() == old(combatants)@.len(),
        forall|i: int|
            0 <= i < old(combatants)@.len() && i != c ==> final(combatants)@[i] == old(
                combatants,
            )@[i],
        attr_updated(old(combatants)@[c as int], final(combatants)@[c as int], t, a),
{
    let mut comb = combatants.remove(c);
    comb.bundle.attributes.set(t, a);
    combatants.insert(c, comb);
    proof {
        assert(combatants@ =~= old(combatants)@.update(c as int, combatants@[c as int]));
    }
}

/// Whether a melee cast has to close distance first: the caster stands
/// farther than one step from the target tile.
pub open spec fn melee_move_needed(
    f0: BattleField,
    by: usize,
    on: usize,
    proximity: AbilityProximity,
) -> bool {
    proximity is Melee && spec_dist(
        f0.spec_hex_of(f0.spec_tile_of(by)),
        f0.spec_hex_of(on as int),
    ) > 1
}

/// The combatants, log tail and lifecycle events a targeted attribute
/// change produces. An attribute type the target does not carry changes
/// nothing and logs nothing; a scalar is lowered by the raw potency
/// silently; a gauge takes scaled damage, clamped to its bounds, with a
/// log line, and its holder dies when the fatal hit-point gauge reaches
/// its floor.
pub open spec fn targeted_effect_spec(
    c0: Seq<Combatant>,
    c1: Seq<Combatant>,
    by: usize,
    target: usize,
    ability_name: Seq<char>,
    at_typ: AttributeType,
    potency: int,
    rest_log: Seq<BattleLogEvent>,
    lifecycle: Seq<BattleLifecycleEvent>,
) -> bool {
    match c0[target as int].bundle.attributes.spec_get(at_typ) {
        Option::None => {
            &&& c1 == c0
            &&& rest_log.len() == 0
            &&& lifecycle.len() == 1 && lifecycle[0] is EndTurn
        },
        Option::Some(Attribute::Value(v)) => {
            &&& c1.len() == c0.len()
            &&& forall|i: int| 0 <= i < c0.len() && i != target ==> c1[i] == c0[i]
            &&& attr_updated(
                c0[target as int],
                c1[target as int],
                at_typ,
                Attribute::Value((v - potency) as i32),
            )
            &&& rest_log.len() == 0
            &&& lifecycle.len() == 1 && lifecycle[0] is EndTurn
        },
        Option::Some(Attribute::Gauge { value, min, max }) => {
            let atk = c0[by as int].bundle.attributes.spec_get(
                AttributeType::Attack,
            )->0.spec_value();
            let def = c0[target as int].bundle.attributes.spec_get(
                AttributeType::Defense,
            )->0.spec_value();
            let dmg = spec_calculate_damage(potency, atk, def);
            let nv = clamp_int(value - dmg, min as int, max as int);
            &&& c1.len() == c0.len()
            &&& forall|i: int| 0 <= i < c0.len() && i != target ==> c1[i] == c0[i]
            &&& attr_updated(
                c0[target as int],
                c1[target as int],
                at_typ,
                (Attribute::Gauge { value: nv as i32, min, max }),
            )
            &&& rest_log.len() == 1 && rest_log[0].message@ == damage_message(
                c0[by as int].bundle.name.0@,
                ability_name,
                c0[target as int].bundle.name.0@,
                nv,
            )
            &&& if at_typ == AttributeType::HitPoints && nv == min {
                lifecycle.len() == 2 && lifecycle[0] == BattleLifecycleEvent::CharacterDied(target)
                    && lifecycle[1] is EndTurn
            } else {
                lifecycle.len() == 1 && lifecycle[0] is EndTurn
            }
        },
    }
}

/// What the resolver asks of its input. The targeting collaborator
/// produces only events over live entities, so these are the structural
/// facts the engine trusts rather than re-checks; the bounds on attribute
/// arithmetic are machine limits of the damage math.
pub open spec fn resolve_requires(f0: BattleField, c0: Seq<Combatant>, ev: TurnEvent) -> bool {
    &&& f0.wf()
    &&& f0.occupancy_injective()
    &&& match ev {
        TurnEvent::Pass(by) => (by as int) < c0.len(),
        TurnEvent::Ability { ability, by, on } => {
            &&& (by as int) < c0.len()
            &&& (on as int) < f0.tile_count()
            &&& match ability.typ {
                AbilityType::Movement => {
                    &&& f0.spec_occupant(on as int) is None
                    &&& f0.spec_placed(by)
                },
                AbilityType::Targeted { ab_typ, proximity } => {
                    match ab_typ {
                        TargetedAbilityType::ChangeAttribute { at_typ, potency } => {
                            let tgt = f0.spec_occupant(on as int);
                            &&& tgt is Some
                            &&& (tgt->0 as int) < c0.len()
                            &&& c0[tgt->0 as int].bundle.attributes.wf()
                            &&& c0[tgt->0 as int].bundle.attributes.spec_get(
                                AttributeType::Defense,
                            ) is Some
                            &&& (proximity is Melee ==> f0.spec_placed(by))
                            &&& match c0[tgt->0 as int].bundle.attributes.spec_get(at_typ) {
                                Option::None => true,
                                Option::Some(Attribute::Value(v)) => i32::MIN <= v - potency
                                    <= i32::MAX,
                                Option::Some(Attribute::Gauge { value, min, max }) => {
                                    let atk_attr = c0[by as int].bundle.attributes.spec_get(
                                        AttributeType::Attack,
                                    );
                                    let def = c0[tgt->0 as int].bundle.attributes.spec_get(
                                        AttributeType::Defense,
                                    )->0.spec_value();
                                    &&& atk_attr is Some
                                    &&& atk_attr->0.spec_value() - def <= 36
                                    &&& i32::MIN <= spec_calculate_damage(
                                        potency as int,
                                        atk_attr->0.spec_value(),
                                        def,
                                    ) <= i32::MAX
                                },
                            }
                        },
                    }
                },
            }
        },
    }
}

/// What the resolver guarantees, case by case over the event.
pub open spec fn resolve_ensures(
    f0: BattleField,
    c0: Seq<Combatant>,
    ev: TurnEvent,
    f1: BattleField,
    c1: Seq<Combatant>,
    out: ResolutionOutcome,
) -> bool {
    match ev {
        TurnEvent::Pass(by) => {
            &&& f1 == f0
            &&& c1 == c0
            &&& out.log@.len() == 1 && out.log@[0].message@ == pass_message(
                c0[by as int].bundle.name.0@,
            )
            &&& out.lifecycle@.len() == 1 && out.lifecycle@[0] is EndTurn
        },
        TurnEvent::Ability { ability, by, on } => match ability.typ {
            AbilityType::Movement => {
                let t0 = f0.spec_tile_of(by);
                &&& c1 == c0
                &&& f1.width == f0.width && f1.height == f0.height
                &&& f1.wf() && f1.occupancy_injective()
                &&& f1.occupants@ == f0.occupants@.update(t0, Option::None::<usize>).update(
                    on as int,
                    Option::Some(by),
                )
                &&& out.log@.len() == 1 && out.log@[0].message@ == move_message(
                    c0[by as int].bundle.name.0@,
                    spec_to_oddr(f0.spec_hex_of(t0)).0,
                    spec_to_oddr(f0.spec_hex_of(t0)).1,
                    spec_to_oddr(f0.spec_hex_of(on as int)).0,
                    spec_to_oddr(f0.spec_hex_of(on as int)).1,
                )
                &&& out.lifecycle@.len() == 1 && out.lifecycle@[0] is EndTurn
            },
            AbilityType::Targeted { ab_typ, proximity } => match ab_typ {
                TargetedAbilityType::ChangeAttribute { at_typ, potency } => {
                    let target = f0.spec_occupant(on as int)->0;
                    let t0 = f0.spec_tile_of(by);
                    let ch = f0.spec_hex_of(t0);
                    &&& f1.width == f0.width && f1.height == f0.height
                    &&& f1.wf() && f1.occupancy_injective()
                    &&& if !melee_move_needed(f0, by, on, proximity) {
                        &&& f1.occupants@ == f0.occupants@
                        &&& targeted_effect_spec(
                            c0,
                            c1,
                            by,
                            target,
                            ability.name@,
                            at_typ,
                            potency as int,
                            out.log@,
                            out.lifecycle@,
                        )
                    } else if exists|mt: int|
                        #[trigger] f0.valid_close_tile(ch, ability.range, mt) {
                        exists|mt: int|
                            {
                                &&& #[trigger] f0.valid_close_tile(ch, ability.range, mt)
                                &&& forall|t2: int|
                                    #[trigger] f0.valid_close_tile(ch, ability.range, t2)
                                        ==> f0.approach_key_le(
                                        f0.spec_hex_of(on as int),
                                        ch,
                                        mt,
                                        t2,
                                    )
                                &&& f1.occupants@ == f0.occupants@.update(
                                    t0,
                                    Option::None::<usize>,
                                ).update(mt, Option::Some(by))
                                &&& out.log@.len() >= 1
                                &&& out.log@[0].message@ == move_message(
                                    c0[by as int].bundle.name.0@,
                                    spec_to_oddr(ch).0,
                                    spec_to_oddr(ch).1,
                                    spec_to_oddr(f0.spec_hex_of(mt)).0,
                                    spec_to_oddr(f0.spec_hex_of(mt)).1,
                                )
                                &&& targeted_effect_spec(
                                    c0,
                                    c1,
                                    by,
                                    target,
                                    ability.name@,
                                    at_typ,
                                    potency as int,
                                    out.log@.drop_first(),
                                    out.lifecycle@,
                                )
                            }
                    } else {
                        &&& f1.occupants@ == f0.occupants@
                        &&& targeted_effect_spec(
                            c0,
                            c1,
                            by,
                            target,
                            ability.name@,
                            at_typ,
                            potency as int,
                            out.log@,
                            out.lifecycle@,
                        )
                    }
                },
            },
        },
    }
}

/// Carries the resolver's guarantee from one cast to another that differs
/// only in its target-type set.
proof fn lemma_resolve_ensures_transfer(
    f0: BattleField,
    c0: Seq<Combatant>,
    a1: Ability,
    a2: Ability,
    by: usize,
    on: usize,
    f1: BattleField,
    c1: Seq<Combatant>,
    out: ResolutionOutcome,
)
    requires
        a1.name == a2.name,
        a1.typ == a2.typ,
        a1.range == a2.range,
        a1.side_effect == a2.side_effect,
        resolve_ensures(f0, c0, TurnEvent::Ability { ability: a1, by, on }, f1, c1, out),
    ensures
        resolve_ensures(f0, c0, TurnEvent::Ability { ability: a2, by, on }, f1, c1, out),
{
    match a1.typ {
        AbilityType::Movement => {
        },
        AbilityType::Targeted { ab_typ, proximity } => {
            let target = f0.spec_occupant(on as int)->0;
            let t0 = f0.spec_tile_of(by);
            let ch = f0.spec_hex_of(t0);
            match ab_typ {
                TargetedAbilityType::ChangeAttribute { at_typ, potency } => {
                    if melee_move_needed(f0, by, on, proximity) {
                        if exists|mt: int| #[trigger] f0.valid_close_tile(ch, a1.range, mt) {
                            assert(exists|mt: int|
                                #[trigger] f0.valid_close_tile(ch, a2.range, mt)) by {
                                let mt = choose|mt: int|
                                    #[trigger] f0.valid_close_tile(ch, a1.range, mt);
                                assert(f0.valid_close_tile(ch, a2.range, mt));
                            }
                            let mt = choose|mt: int|
                                {
                                    &&& #[trigger] f0.valid_close_tile(ch, a1.range, mt)
                                    &&& forall|t2: int|
                                        #[trigger] f0.valid_close_tile(ch, a1.range, t2)
                                            ==> f0.approach_key_le(
                                            f0.spec_hex_of(on as int),
                                            ch,
                                            mt,
                                            t2,
                                        )
                                    &&& f1.occupants@ == f0.occupants@.update(
                                        t0,
                                        Option::None::<usize>,
                                    ).update(mt, Option::Some(by))
                                    &&& out.log@.len() >= 1
                                    &&& out.log@[0].message@ == move_message(
                                        c0[by as int].bundle.name.0@,
                                        spec_to_oddr(ch).0,
                                        spec_to_oddr(ch).1,
                                        spec_to_oddr(f0.spec_hex_of(mt)).0,
                                        spec_to_oddr(f0.spec_hex_of(mt)).1,
                                    )
                                    &&& targeted_effect_spec(
                                        c0,
                                        c1,
                                        by,
                                        target,
                                        a1.name@,
                                        at_typ,
                                        potency as int,
                                        out.log@.drop_first(),
                                        out.lifecycle@,
                                    )
                                };
                            assert(f0.valid_close_tile(ch, a2.range, mt));
                            assert forall|t2: int|
                                #[trigger] f0.valid_close_tile(ch, a2.range, t2)
                                    implies f0.approach_key_le(
                                f0.spec_hex_of(on as int),
                                ch,
                                mt,
                                t2,
                            ) by {
                                assert(f0.valid_close_tile(ch, a1.range, t2));
                            }
                        } else {
                            assert(!exists|mt: int|
                                #[trigger] f0.valid_close_tile(ch, a2.range, mt)) by {
                                if exists|mt: int| #[trigger] f0.valid_close_tile(
                                    ch,
                                    a2.range,
                                    mt,
                                ) {
                                    let mt = choose|mt: int|
                                        #[trigger] f0.valid_close_tile(ch, a2.range, mt);
                                    assert(f0.valid_close_tile(ch, a1.range, mt));
                                }
                            }
                        }
                    }
                },
            }
        },
    }
}

/// Target legality independence: the resolver never reads the ability's
/// target-type set. What it asks of its input and what it guarantees are
/// word for word the same for two casts that differ only in that set, so
/// an event aimed at a tile the set would forbid resolves exactly like a
/// legal one.
pub proof fn lemma_resolution_ignores_target_set(
    f0: BattleField,
    c0: Seq<Combatant>,
    a: Ability,
    other_target: AbilityTargetSet,
    by: usize,
    on: usize,
    f1: BattleField,
    c1: Seq<Combatant>,
    out: ResolutionOutcome,
)
    ensures
        resolve_requires(f0, c0, TurnEvent::Ability { ability: a, by, on }) == resolve_requires(
            f0,
            c0,
            TurnEvent::Ability {
                ability: Ability {
                    name: a.name,
                    typ: a.typ,
                    target: other_target,
                    range: a.range,
                    side_effect: a.side_effect,
                },
                by,
                on,
            },
        ),
        resolve_ensures(f0, c0, TurnEvent::Ability { ability: a, by, on }, f1, c1, out)
            == resolve_ensures(
            f0,
            c0,
            TurnEvent::Ability {
                ability: Ability {
                    name: a.name,
                    typ: a.typ,
                    target: other_target,
                    range: a.range,
                    side_effect: a.side_effect,
                },
                by,
                on,
            },
            f1,
            c1,
            out,
        ),
{
    let a2 = Ability {
        name: a.name,
        typ: a.typ,
        target: other_target,
        range: a.range,
        side_effect: a.side_effect,
    };
    if resolve_ensures(f0, c0, TurnEvent::Ability { ability: a, by, on }, f1, c1, out) {
        lemma_resolve_ensures_transfer(f0, c0, a, a2, by, on, f1, c1, out);
    }
    if resolve_ensures(f0, c0, TurnEvent::Ability { ability: a2, by, on }, f1, c1, out) {
        lemma_resolve_ensures_transfer(f0, c0, a2, a, by, on, f1, c1, out);
    }
}

/// Resolves one turn event against the battle state.
///
/// A pass only logs. A movement ability reparents the caster onto the
/// (empty) target tile. A targeted ability first closes distance when cast
/// as melee from farther than one step: the caster moves to the best empty
/// tile within the ability's range of itself, nearest the target; when no
/// such tile exists the repositioning is skipped and the effect still
/// applies, so an attack never fails outright. The effect then changes the
/// target occupant's attribute as `targeted_effect_spec` describes, and
/// the turn always ends.
///
/// The engine trusts its caller on target legality: nothing here reads
/// the ability's target-type set, so an event aimed at a tile the set
/// would forbid is resolved all the same.
#[verifier::loop_isolation(false)]
#[verifier::rlimit(60)]
pub fn resolve_ability(
    field: &mut BattleField,
    combatants: &mut Vec<Combatant>,
    event: &TurnEvent,
) -> (out: ResolutionOutcome)
    requires
        resolve_requires(*old(field), old(combatants)@, *event),
    ensures
        resolve_ensures(
            *old(field),
            old(combatants)@,
            *event,
            *final(field),
            final(combatants)@,
            out,
        ),
{
    let mut log: Vec<BattleLogEvent> = Vec::new();
    let mut lifecycle: Vec<BattleLifecycleEvent> = Vec::new();
    match event {
        TurnEvent::Pass(by) => {
            let mut message = combatants[*by].bundle.name.0.clone();
            message.append(" waits");
            log.push(BattleLogEvent { message });
        },
        TurnEvent::Ability { ability, by, on } => {
            let caster_name = combatants[*by].bundle.name.0.clone();
            match &ability.typ {
                AbilityType::Movement => {
                    let entry = move_char(field, *by, *on, &caster_name);
                    log.push(entry);
                },
                AbilityType::Targeted { ab_typ, proximity } => {
                    let ghost f0 = *old(field);
                    if let AbilityProximity::Melee = proximity {
                        let from_tile = find_tile_of(field, *by).unwrap();
                        proof {
                            let t0 = f0.spec_tile_of(*by);
                            assert(0 <= t0 < f0.tile_count() && f0.spec_occupant(t0)
                                == Option::Some(*by));
                            assert(from_tile as int == t0);
                        }
                        let from_hex = field.hex(from_tile).unwrap();
                        let target_hex = field.hex(*on).unwrap();
                        if from_hex.dist(target_hex) > 1 {
                            proof {
                                if f0.spec_occupant(*on as int)->0 == *by {
                                    assert(f0.spec_occupant(from_tile as int) == f0.spec_occupant(
                                        *on as int,
                                    ));
                                    assert(from_tile as int == *on as int);
                                    assert(false);
                                }
                            }
                            match field.get_in_range_and_empty(target_hex, from_hex, ability.range) {
                                Option::Some(where_to) => {
                                    let entry = move_char(field, *by, where_to, &caster_name);
                                    log.push(entry);
                                },
                                Option::None => {
                                },
                            }
                        }
                    }
                    let target = field.occupant(*on).unwrap();
                    proof {
                        assert(field.spec_occupant(*on as int) == f0.spec_occupant(*on as int));
                    }
                    let target_name = combatants[target].bundle.name.0.clone();
                    let target_defense = combatants[target].bundle.attributes.get(
                        AttributeType::Defense,
                    ).unwrap().get_value();
                    match ab_typ {
                        TargetedAbilityType::ChangeAttribute { at_typ, potency } => {
                            let attr_opt = combatants[target].bundle.attributes.get(*at_typ);
                            proof {
                                crate::character::lemma_find_attr_index(
                                    combatants@[target as int].bundle.attributes.0@,
                                    *at_typ,
                                );
                            }
                            match attr_opt {
                                Option::None => {
                                },
                                Option::Some(Attribute::Value(v)) => {
                                    set_combatant_attr(
                                        combatants,
                                        target,
                                        *at_typ,
                                        Attribute::Value(v - *potency),
                                    );
                                },
                                Option::Some(Attribute::Gauge { value, min, max }) => {
                                    let caster_attack = combatants[*by].bundle.attributes.get(
                                        AttributeType::Attack,
                                    ).unwrap().get_value();
                                    let dmg = calculate_damage(
                                        *potency,
                                        caster_attack,
                                        target_defense,
                                    );
                                    let nv64: i64 = (value as i64) - (dmg as i64);
                                    let nv: i32 = if nv64 < min as i64 {
                                        min
                                    } else if nv64 > max as i64 {
                                        max
                                    } else {
                                        nv64 as i32
                                    };
                                    set_combatant_attr(
                                        combatants,
                                        target,
                                        *at_typ,
                                        Attribute::Gauge { value: nv, min, max },
                                    );
                                    let message = build_damage_message(
                                        &caster_name,
                                        &ability.name,
                                        &target_name,
                                        nv,
                                    );
                                    log.push(BattleLogEvent { message });
                                    let fatal = match at_typ {
                                        AttributeType::HitPoints => true,
                                        _ => false,
                                    };
                                    if fatal && nv == min {
                                        lifecycle.push(
                                            BattleLifecycleEvent::CharacterDied(target),
                                        );
                                    }
                                },
                            }
                            proof {
                                if melee_move_needed(f0, *by, *on, *proximity) && exists|mt: int|
                                    #[trigger] f0.valid_close_tile(
                                        f0.spec_hex_of(f0.spec_tile_of(*by)),
                                        ability.range,
                                        mt,
                                    ) {
                                    assert(log@.drop_first() =~= log@.skip(1));
                                }
                            }
                        },
                    }
                },
            }
        },
    }
    lifecycle.push(BattleLifecycleEvent::EndTurn);
    ResolutionOutcome { log, lifecycle }
}

} // verus!
