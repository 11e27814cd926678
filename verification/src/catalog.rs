use vstd::prelude::*;

use vstd::arithmetic::power::pow;
use vstd::string::StringExecFns;

use crate::ability::{
    Ability, AbilityProximity, AbilityTargetSet, AbilityTargetType, AbilityType,
    TargetedAbilityType,
};
use crate::character::{
    find_ability_index, Abilities, Attribute, AttributeType, Attributes, Character,
    CharacterBundle, CharacterCategory, CharacterName, Group,
};
use crate::power_up::{AvailablePowerUp, AvailablePowerUps, PowerUp};
use crate::rng::sample_indices;

verus! {

/// The difficulty tiers enemies are grouped by.
#[derive(Debug, Clone, Copy, PartialEq, Eq, Structural)]
pub enum EnemyTier {
    Normal1,
}

/// The pool of spawnable enemy templates, by tier.
#[derive(Debug)]
pub struct AvailableEnemies(pub Vec<(EnemyTier, Vec<Character>)>);

/// The persistent roster carried between battles; the player character
/// leads it.
#[derive(Debug)]
pub struct GameState {
    pub characters: Vec<Character>,
}

impl Default for GameState {
    /// A fresh game: the bare player character with standard attributes
    /// and no abilities yet.
    fn default() -> (r: GameState)
        ensures
            r.characters@.len() == 1,
            r.characters@[0].bundle.name.0@ == "player"@,
            r.characters@[0].bundle.category == CharacterCategory::Human,
            r.characters@[0].bundle.group == Group::Player,
            r.characters@[0].bundle.abilities.0@.len() == 0,
            r.characters@[0].bundle.attributes.0@ =~= seq![
                (AttributeType::HitPoints, Attribute::Gauge { value: 150, min: 0, max: 150 }),
                (AttributeType::Attack, Attribute::Value(10)),
                (AttributeType::Defense, Attribute::Value(10)),
            ],
            r.characters@[0].bundle.wf(),
            r.characters@[0].image_path@ == "images/human.png"@,
    {
        let bundle = CharacterBundle {
            name: CharacterName("player".to_owned()),
            category: CharacterCategory::Human,
            abilities: Abilities(Vec::new()),
            attributes: Attributes::default(),
            group: Group::Player,
        };
        GameState { characters: vec![Character::new(bundle, "images/human.png")] }
    }
}

/// The catalog of castable abilities, keyed by name.
#[derive(Debug)]
pub struct AvailableAbilities(pub Abilities);

/// Builds the game's ability catalog: a reposition, a melee strike, a
/// long-range shot and a short-range slam.
pub fn init_available_abilities() -> (r: AvailableAbilities)
    ensures
        r.0.wf(),
        r.0.0@.len() == 4,
        r.0.0@[0].name@ == "move"@ && r.0.0@[0].typ == AbilityType::Movement && r.0.0@[0].target
            == (AbilityTargetSet { empty: true, ally: false, enemy: false }) && r.0.0@[0].range == 5
            && r.0.0@[0].side_effect is None,
        r.0.0@[1].name@ == "hit"@ && r.0.0@[1].typ == (AbilityType::Targeted {
            ab_typ: TargetedAbilityType::ChangeAttribute {
                at_typ: AttributeType::HitPoints,
                potency: 15,
            },
            proximity: AbilityProximity::Melee,
        }) && r.0.0@[1].target == (AbilityTargetSet { empty: false, ally: false, enemy: true })
            && r.0.0@[1].range == 2 && r.0.0@[1].side_effect is None,
        r.0.0@[2].name@ == "shoot"@ && r.0.0@[2].typ == (AbilityType::Targeted {
            ab_typ: TargetedAbilityType::ChangeAttribute {
                at_typ: AttributeType::HitPoints,
                potency: 1,
            },
            proximity: AbilityProximity::Ranged,
        }) && r.0.0@[2].target == (AbilityTargetSet { empty: false, ally: false, enemy: true })
            && r.0.0@[2].range == 5 && r.0.0@[2].side_effect is None,
        r.0.0@[3].name@ == "slam"@ && r.0.0@[3].typ == (AbilityType::Targeted {
            ab_typ: TargetedAbilityType::ChangeAttribute {
                at_typ: AttributeType::HitPoints,
                potency: 20,
            },
            proximity: AbilityProximity::Ranged,
        }) && r.0.0@[3].target == (AbilityTargetSet { empty: false, ally: false, enemy: true })
            && r.0.0@[3].range == 1 && r.0.0@[3].side_effect is None,
{
    let mut v: Vec<Ability> = Vec::new();
    v.push(
        Ability {
            name: "move".to_owned(),
            typ: AbilityType::Movement,
            target: AbilityTargetSet::of(AbilityTargetType::Empty),
            range: 5,
            side_effect: Option::None,
        },
    );
    v.push(
        Ability {
            name: "hit".to_owned(),
            typ: AbilityType::Targeted {
                ab_typ: TargetedAbilityType::ChangeAttribute {
                    at_typ: AttributeType::HitPoints,
                    potency: 15,
                },
                proximity: AbilityProximity::Melee,
            },
            target: AbilityTargetSet::of(AbilityTargetType::Enemy),
            range: 2,
            side_effect: Option::None,
        },
    );
    v.push(
        Ability {
            name: "shoot".to_owned(),
            typ: AbilityType::Targeted {
                ab_typ: TargetedAbilityType::ChangeAttribute {
                    at_typ: AttributeType::HitPoints,
                    potency: 1,
                },
                proximity: AbilityProximity::Ranged,
            },
            target: AbilityTargetSet::of(AbilityTargetType::Enemy),
            range: 5,
            side_effect: Option::None,
        },
    );
    v.push(
        Ability {
            name: "slam".to_owned(),
            typ: AbilityType::Targeted {
                ab_typ: TargetedAbilityType::ChangeAttribute {
                    at_typ: AttributeType::HitPoints,
                    potency: 20,
                },
                proximity: AbilityProximity::Ranged,
            },
            target: AbilityTargetSet::of(AbilityTargetType::Enemy),
            range: 1,
            side_effect: Option::None,
        },
    );
    proof {
        reveal_strlit("move");
        reveal_strlit("hit");
        reveal_strlit("shoot");
        reveal_strlit("slam");
        assert("move"@ != "hit"@ && "move"@ != "shoot"@ && "move"@ != "slam"@ && "hit"@
            != "shoot"@ && "hit"@ != "slam"@ && "shoot"@ != "slam"@) by {
            assert("move"@.len() == 4 && "hit"@.len() == 3 && "shoot"@.len() == 5 && "slam"@.len()
                == 4);
            assert("move"@[0] == 'm' && "slam"@[0] == 's');
        }
        assert forall|i: int, j: int| 0 <= i < j < v@.len() implies v@[i].name@
            != v@[j].name@ by {
            assert(v@[0].name@ == "move"@);
            assert(v@[1].name@ == "hit"@);
            assert(v@[2].name@ == "shoot"@);
            assert(v@[3].name@ == "slam"@);
        }
    }
    AvailableAbilities(Abilities(v))
}

/// Fetches the named abilities from the catalog, in the order asked for.
pub fn get_abilities(names: &Vec<String>, available: &AvailableAbilities) -> (r: Vec<Ability>)
    requires
        forall|i: int|
            0 <= i < names@.len() ==> find_ability_index(
                available.0.0@,
                (#[trigger] names@[i])@,
            ) is Some,
    ensures
        r@.len() == names@.len(),
        forall|i: int|
            0 <= i < names@.len() ==> (#[trigger] r@[i]) == available.0.0@[find_ability_index(
                available.0.0@,
                names@[i]@,
            )->0],
{
    let n: usize = names.len();
    let mut out: Vec<Ability> = Vec::new();
    let mut i: usize = 0;
    while i < n
        invariant
            n == names@.len(),
            0 <= i <= n,
            forall|k: int|
                0 <= k < names@.len() ==> find_ability_index(
                    available.0.0@,
                    (#[trigger] names@[k])@,
                ) is Some,
            out@.len() == i,
            forall|k: int|
                0 <= k < i ==> (#[trigger] out@[k]) == available.0.0@[find_ability_index(
                    available.0.0@,
                    names@[k]@,
                )->0],
        decreases n - i,
    {
        proof {
            crate::character::lemma_find_ability_index(available.0.0@, names@[i as int]@);
        }
        let found = available.0.get(&names[i]).unwrap();
        out.push(found.clone());
        i = i + 1;
    }
    out
}

/// The scaled value of an attribute after the round-based power multiplier
/// `1.02 ^ round`, as the exact rational `51^round / 50^round`, rounded to
/// the nearest integer with halves rounding up.
pub open spec fn spec_scaled(v: int, r: nat) -> int {
    (2 * v * pow(51, r) + pow(50, r)) / (2 * pow(50, r))
}

/// The concrete word bounds of the scaling powers up to round 16.
proof fn lemma_scale_pow_bounds()
    ensures
        pow(51, 16) < 0x800_0000_0000_0000_0000_0000,
        pow(50, 16) < 0x800_0000_0000_0000_0000_0000,
        1 <= pow(50, 16),
        1 <= pow(51, 16),
{
    reveal_with_fuel(pow, 17);
}

/// Scaling never lowers a non-negative value: the multiplier is at least
/// one.
proof fn lemma_scaled_ge(v: int, r: nat)
    requires
        0 <= v,
    ensures
        v <= spec_scaled(v, r),
{
    lemma_pow_le_base(r);
    vstd::arithmetic::power::lemma_pow_positive(50, r);
    vstd::arithmetic::power::lemma_pow_positive(51, r);
    let p50 = pow(50, r);
    let p51 = pow(51, r);
    assert(2 * v * p51 + p50 >= v * (2 * p50) + p50) by (nonlinear_arith)
        requires
            0 <= v,
            0 < p50 <= p51,
    ;
    vstd::arithmetic::div_mod::lemma_div_is_ordered(v * (2 * p50), 2 * v * p51 + p50, 2 * p50);
    vstd::arithmetic::div_mod::lemma_fundamental_div_mod_converse_div(v * (2 * p50), 2 * p50, v, 0);
}

/// Scaling preserves order among non-negative values.
proof fn lemma_scaled_monotone(v1: int, v2: int, r: nat)
    requires
        0 <= v1 <= v2,
    ensures
        spec_scaled(v1, r) <= spec_scaled(v2, r),
{
    vstd::arithmetic::power::lemma_pow_positive(50, r);
    vstd::arithmetic::power::lemma_pow_positive(51, r);
    let p50 = pow(50, r);
    let p51 = pow(51, r);
    assert(2 * v1 * p51 + p50 <= 2 * v2 * p51 + p50) by (nonlinear_arith)
        requires
            0 <= v1 <= v2,
            0 < p51,
    ;
    vstd::arithmetic::div_mod::lemma_div_is_ordered(
        2 * v1 * p51 + p50,
        2 * v2 * p51 + p50,
        2 * p50,
    );
}

/// The smaller base stays below the larger at every exponent.
proof fn lemma_pow_le_base(r: nat)
    ensures
        pow(50, r) <= pow(51, r),
    decreases r,
{
    reveal(pow);
    if r > 0 {
        lemma_pow_le_base((r - 1) as nat);
        vstd::arithmetic::power::lemma_pow_positive(50, (r - 1) as nat);
        assert(50 * pow(50, (r - 1) as nat) <= 51 * pow(51, (r - 1) as nat)) by (nonlinear_arith)
            requires
                0 < pow(50, (r - 1) as nat) <= pow(51, (r - 1) as nat),
        ;
    }
}

/// Applies the round multiplier to one attribute value.
pub fn scale_attribute_value(value: i32, round: u32) -> (r: i32)
    requires
        0 <= value,
        round <= 16,
        spec_scaled(value as int, round as nat) <= i32::MAX,
    ensures
        r == spec_scaled(value as int, round as nat),
{
    proof {
        lemma_scale_pow_bounds();
        vstd::arithmetic::power::lemma_pow_increases(51, round as nat, 16);
        vstd::arithmetic::power::lemma_pow_increases(50, round as nat, 16);
        vstd::arithmetic::power::lemma_pow_positive(51, round as nat);
        vstd::arithmetic::power::lemma_pow_positive(50, round as nat);
    }
    let p51 = crate::resolution::pow_u128(51, round);
    let p50 = crate::resolution::pow_u128(50, round);
    proof {
        assert((2 * (value as int)) * (p51 as int) <= 0x1_0000_0000
            * 0x800_0000_0000_0000_0000_0000) by (nonlinear_arith)
            requires
                0 <= 2 * (value as int) <= 0x1_0000_0000,
                0 <= p51 as int <= 0x800_0000_0000_0000_0000_0000,
        ;
    }
    let num: u128 = 2 * (value as u128) * p51 + p50;
    let den: u128 = 2 * p50;
    let q: u128 = num / den;
    proof {
        vstd::arithmetic::div_mod::lemma_div_pos_is_pos(num as int, den as int);
    }
    q as i32
}

/// Whether one attribute can take the round multiplier without leaving
/// the machine range.
pub open spec fn scale_attr_ok(a: Attribute, r: nat) -> bool {
    match a {
        Attribute::Value(v) => 0 <= v && spec_scaled(v as int, r) <= i32::MAX,
        Attribute::Gauge { value, min, max } => 0 <= min && spec_scaled(max as int, r)
            <= i32::MAX,
    }
}

/// One attribute after the round multiplier; a gauge scales its reading
/// and its cap, keeping its floor.
pub open spec fn scaled_attr(a: Attribute, r: nat) -> Attribute {
    match a {
        Attribute::Value(v) => Attribute::Value(spec_scaled(v as int, r) as i32),
        Attribute::Gauge { value, min, max } => Attribute::Gauge {
            value: spec_scaled(value as int, r) as i32,
            min,
            max: spec_scaled(max as int, r) as i32,
        },
    }
}

/// Scales every attribute of a character by the round multiplier.
pub fn scale_character(c: &Character, round: u32) -> (r: Character)
    requires
        round <= 16,
        c.bundle.attributes.wf(),
        forall|i: int|
            0 <= i < c.bundle.attributes.0@.len() ==> scale_attr_ok(
                (#[trigger] c.bundle.attributes.0@[i]).1,
                round as nat,
            ),
    ensures
        r.bundle.name == c.bundle.name,
        r.bundle.category == c.bundle.category,
        r.bundle.group == c.bundle.group,
        r.bundle.abilities.0@ == c.bundle.abilities.0@,
        r.image_path == c.image_path,
        r.bundle.attributes.wf(),
        r.bundle.attributes.0@.len() == c.bundle.attributes.0@.len(),
        forall|i: int|
            0 <= i < c.bundle.attributes.0@.len() ==> (#[trigger] r.bundle.attributes.0@[i]) == (
            c.bundle.attributes.0@[i].0,
            scaled_attr(c.bundle.attributes.0@[i].1, round as nat),
            ),
{
    let copy = c.clone();
    let n: usize = copy.bundle.attributes.0.len();
    let mut attrs: Vec<(AttributeType, Attribute)> = Vec::new();
    let mut i: usize = 0;
    while i < n
        invariant
            n == c.bundle.attributes.0@.len(),
            copy.bundle.attributes.0@ == c.bundle.attributes.0@,
            round <= 16,
            c.bundle.attributes.wf(),
            forall|k: int|
                0 <= k < c.bundle.attributes.0@.len() ==> scale_attr_ok(
                    (#[trigger] c.bundle.attributes.0@[k]).1,
                    round as nat,
                ),
            0 <= i <= n,
            attrs@.len() == i,
            forall|k: int|
                0 <= k < i ==> (#[trigger] attrs@[k]) == (
                c.bundle.attributes.0@[k].0,
                scaled_attr(c.bundle.attributes.0@[k].1, round as nat),
                ),
        decreases n - i,
    {
        let (typ, a) = copy.bundle.attributes.0[i];
        let scaled = match a {
            Attribute::Value(v) => Attribute::Value(scale_attribute_value(v, round)),
            Attribute::Gauge { value, min, max } => {
                proof {
                    lemma_scaled_monotone(value as int, max as int, round as nat);
                    lemma_scaled_ge(value as int, round as nat);
                    lemma_scaled_ge(max as int, round as nat);
                }
                Attribute::Gauge {
                    value: scale_attribute_value(value, round),
                    min,
                    max: scale_attribute_value(max, round),
                }
            },
        };
        attrs.push((typ, scaled));
        i = i + 1;
    }
    let scaled_char = Character {
        bundle: CharacterBundle {
            name: copy.bundle.name,
            category: copy.bundle.category,
            abilities: copy.bundle.abilities,
            attributes: Attributes(attrs),
            group: copy.bundle.group,
        },
        image_path: copy.image_path,
    };
    proof {
        assert forall|i2: int, j2: int|
            0 <= i2 < j2 < scaled_char.bundle.attributes.0@.len()
            implies scaled_char.bundle.attributes.0@[i2].0
            != scaled_char.bundle.attributes.0@[j2].0 by {
            assert(scaled_char.bundle.attributes.0@[i2].0 == c.bundle.attributes.0@[i2].0);
            assert(scaled_char.bundle.attributes.0@[j2].0 == c.bundle.attributes.0@[j2].0);
        }
        assert forall|k: int|
            0 <= k < scaled_char.bundle.attributes.0@.len() implies crate::character::attribute_wf(
            #[trigger] scaled_char.bundle.attributes.0@[k].1,
        ) by {
            assert(scaled_char.bundle.attributes.0@[k] == attrs@[k]);
            let orig = c.bundle.attributes.0@[k].1;
            assert(crate::character::attribute_wf(orig));
            if orig is Gauge {
                lemma_scaled_monotone(orig->value as int, orig->max as int, round as nat);
                lemma_scaled_ge(orig->value as int, round as nat);
            }
        }
    }
    scaled_char
}

/// How many enemies a battle of the given round fields: one more for every
/// eight rounds, at least one and at most four.
pub open spec fn spec_enemy_count(round: int) -> int {
    let c = round / 8 + 1;
    if c < 1 {
        1
    } else if c > 4 {
        4
    } else {
        c
    }
}

/// One spawned enemy is the given template with every attribute put
/// through the round multiplier; everything else carries over.
pub open spec fn scaled_from(template: Character, spawned: Character, r: nat) -> bool {
    &&& spawned.bundle.name == template.bundle.name
    &&& spawned.bundle.category == template.bundle.category
    &&& spawned.bundle.group == template.bundle.group
    &&& spawned.bundle.abilities.0@ == template.bundle.abilities.0@
    &&& spawned.image_path == template.image_path
    &&& spawned.bundle.attributes.0@.len() == template.bundle.attributes.0@.len()
    &&& forall|k: int|
        0 <= k < template.bundle.attributes.0@.len()
            ==> (#[trigger] spawned.bundle.attributes.0@[k]) == (
        template.bundle.attributes.0@[k].0,
        scaled_attr(template.bundle.attributes.0@[k].1, r),
        )
}

/// The roster growth of one spawn step: the appended enemies are scaled
/// copies of pairwise-distinct pool templates, in the order chosen.
pub open spec fn spawned_from_distinct(
    pool: Seq<Character>,
    before: Seq<Character>,
    after: Seq<Character>,
    r: nat,
    chosen: Seq<usize>,
) -> bool {
    &&& chosen.len() == after.len() - before.len()
    &&& forall|a: int| 0 <= a < chosen.len() ==> ((#[trigger] chosen[a]) as int) < pool.len()
    &&& forall|a: int, b: int| 0 <= a < b < chosen.len() ==> chosen[a] != chosen[b]
    &&& forall|a: int|
        0 <= a < chosen.len() ==> scaled_from(
            pool[chosen[a] as int],
            #[trigger] after[before.len() + a],
            r,
        )
}

/// Samples enemies from the tier pool, scales them up by the round
/// multiplier and appends them to the roster. Sampling is without
/// replacement: the appended enemies come from pairwise-distinct pool
/// templates.
pub fn initialize_enemies(pool: &Vec<Character>, round: u32, characters: &mut Vec<Character>)
    requires
        round <= 16,
        pool@.len() <= 0xffff_ffff,
        forall|j: int|
            0 <= j < pool@.len() ==> (#[trigger] pool@[j]).bundle.attributes.wf() && forall|i: int|
                0 <= i < pool@[j].bundle.attributes.0@.len() ==> scale_attr_ok(
                    (#[trigger] pool@[j].bundle.attributes.0@[i]).1,
                    round as nat,
                ),
    ensures
        final(characters)@.len() == old(characters)@.len() + (if spec_enemy_count(round as int)
            < pool@.len() {
            spec_enemy_count(round as int)
        } else {
            pool@.len() as int
        }),
        forall|i: int|
            0 <= i < old(characters)@.len() ==> final(characters)@[i] == old(characters)@[i],
        exists|chosen: Seq<usize>|
            #[trigger] spawned_from_distinct(
                pool@,
                old(characters)@,
                final(characters)@,
                round as nat,
                chosen,
            ),
    {
    let c: u32 = round / 8 + 1;
    let count: u32 = if c < 1 {
        1
    } else if c > 4 {
        4
    } else {
        c
    };
    let picks = sample_indices(pool.len(), count as usize);
    let n: usize = picks.len();
    let mut i: usize = 0;
    while i < n
        invariant
            n == picks@.len(),
            round <= 16,
            forall|k: int| 0 <= k < n ==> (#[trigger] picks@[k]) < pool@.len(),
            forall|j: int|
                0 <= j < pool@.len() ==> (#[trigger] pool@[j]).bundle.attributes.wf() && forall|
                    i2: int,
                |
                    0 <= i2 < pool@[j].bundle.attributes.0@.len() ==> scale_attr_ok(
                        (#[trigger] pool@[j].bundle.attributes.0@[i2]).1,
                        round as nat,
                    ),
            0 <= i <= n,
            characters@.len() == old(characters)@.len() + i,
            forall|k: int|
                0 <= k < old(characters)@.len() ==> characters@[k] == old(characters)@[k],
            forall|a: int|
                0 <= a < i ==> scaled_from(
                    pool@[picks@[a] as int],
                    #[trigger] characters@[old(characters)@.len() + a],
                    round as nat,
                ),
        decreases n - i,
    {
        let idx = picks[i];
        let ghost pre = characters@;
        let scaled = scale_character(&pool[idx], round);
        characters.push(scaled);
        proof {
            let newk = characters@.len() - 1;
            assert(scaled_from(pool@[idx as int], characters@[newk], round as nat));
            assert(forall|k: int| 0 <= k < pre.len() ==> characters@[k] == pre[k]);
        }
        i = i + 1;
    }
    proof {
        assert(spawned_from_distinct(
            pool@,
            old(characters)@,
            characters@,
            round as nat,
            picks@,
        ));
    }
}


/// The catalog index of the named ability.
pub open spec fn catalog_index(abs: AvailableAbilities, name: Seq<char>) -> int {
    find_ability_index(abs.0.0@, name)->0
}

/// An inventory holding exactly the two named catalog abilities, in order.
pub open spec fn two_catalog_abilities(
    inv: Abilities,
    abs: AvailableAbilities,
    first: Seq<char>,
    second: Seq<char>,
) -> bool {
    &&& inv.0@.len() == 2
    &&& inv.0@[0] == abs.0.0@[catalog_index(abs, first)]
    &&& inv.0@[1] == abs.0.0@[catalog_index(abs, second)]
}

/// The standard starting attribute list of an enemy template.
pub open spec fn enemy_attrs(hp: int, atk: int, def: int) -> Seq<(AttributeType, Attribute)> {
    seq![
        (AttributeType::HitPoints, Attribute::Gauge { value: hp as i32, min: 0, max: hp as i32 }),
        (AttributeType::Attack, Attribute::Value(atk as i32)),
        (AttributeType::Defense, Attribute::Value(def as i32)),
    ]
}

/// Builds one enemy template.
fn make_enemy(
    name: &str,
    abilities: &Vec<Ability>,
    atk: i32,
    def: i32,
    image: &str,
) -> (r: Character)
    requires
        0 <= atk,
        0 <= def,
        forall|i: int, j: int|
            0 <= i < j < abilities@.len() ==> abilities@[i].name@ != abilities@[j].name@,
    ensures
        r.bundle.name.0@ == name@,
        r.bundle.category == CharacterCategory::Fungus,
        r.bundle.group == Group::Enemy,
        r.bundle.abilities.0@ == abilities@,
        r.bundle.attributes.0@ =~= enemy_attrs(50, atk as int, def as int),
        r.bundle.wf(),
        r.image_path@ == image@,
{
    let mut attrs: Vec<(AttributeType, i32)> = Vec::new();
    attrs.push((AttributeType::HitPoints, 50));
    attrs.push((AttributeType::Attack, atk));
    attrs.push((AttributeType::Defense, def));
    let bundle = CharacterBundle::new(
        name,
        CharacterCategory::Fungus,
        abilities,
        &attrs,
        Group::Enemy,
    );
    Character::new(bundle, image)
}

/// Fills the enemy pool and arms the player with its starting abilities,
/// the reposition and the melee strike.
pub fn init_available_enemies(abs: &AvailableAbilities, game_state: &mut GameState) -> (r:
    AvailableEnemies)
    requires
        abs.0.wf(),
        old(game_state).characters@.len() > 0,
        find_ability_index(abs.0.0@, "move"@) is Some,
        find_ability_index(abs.0.0@, "hit"@) is Some,
        find_ability_index(abs.0.0@, "slam"@) is Some,
        "move"@ != "hit"@ && "move"@ != "slam"@,
    ensures
        final(game_state).characters@.len() == old(game_state).characters@.len(),
        forall|i: int|
            0 < i < old(game_state).characters@.len() ==> final(game_state).characters@[i] == old(
                game_state,
            ).characters@[i],
        final(game_state).characters@[0].bundle.name == old(
            game_state,
        ).characters@[0].bundle.name,
        final(game_state).characters@[0].bundle.group == old(
            game_state,
        ).characters@[0].bundle.group,
        final(game_state).characters@[0].bundle.attributes.0@ == old(
            game_state,
        ).characters@[0].bundle.attributes.0@,
        two_catalog_abilities(
            final(game_state).characters@[0].bundle.abilities,
            *abs,
            "move"@,
            "hit"@,
        ),
        r.0@.len() == 1,
        r.0@[0].0 == EnemyTier::Normal1,
        r.0@[0].1@.len() == 4,
        forall|j: int|
            0 <= j < 4 ==> (#[trigger] r.0@[0].1@[j]).bundle.group == Group::Enemy
                && r.0@[0].1@[j].bundle.category == CharacterCategory::Fungus
                && r.0@[0].1@[j].bundle.wf(),
        r.0@[0].1@[0].bundle.name.0@ == "mushroom"@ && r.0@[0].1@[0].bundle.attributes.0@
            =~= enemy_attrs(50, 5, 5) && two_catalog_abilities(
            r.0@[0].1@[0].bundle.abilities,
            *abs,
            "move"@,
            "hit"@,
        ),
        r.0@[0].1@[1].bundle.name.0@ == "wideshroom"@ && r.0@[0].1@[1].bundle.attributes.0@
            =~= enemy_attrs(50, 7, 3) && two_catalog_abilities(
            r.0@[0].1@[1].bundle.abilities,
            *abs,
            "move"@,
            "slam"@,
        ),
        r.0@[0].1@[2].bundle.name.0@ == "purpleshroom"@ && r.0@[0].1@[2].bundle.attributes.0@
            =~= enemy_attrs(50, 7, 3) && two_catalog_abilities(
            r.0@[0].1@[2].bundle.abilities,
            *abs,
            "move"@,
            "hit"@,
        ),
        r.0@[0].1@[3].bundle.name.0@ == "manyshroom"@ && r.0@[0].1@[3].bundle.attributes.0@
            =~= enemy_attrs(50, 7, 3) && two_catalog_abilities(
            r.0@[0].1@[3].bundle.abilities,
            *abs,
            "move"@,
            "hit"@,
        ),
{
    let mut move_hit_names: Vec<String> = Vec::new();
    move_hit_names.push("move".to_owned());
    move_hit_names.push("hit".to_owned());
    let move_hit = get_abilities(&move_hit_names, abs);
    let mut move_slam_names: Vec<String> = Vec::new();
    move_slam_names.push("move".to_owned());
    move_slam_names.push("slam".to_owned());
    let move_slam = get_abilities(&move_slam_names, abs);
    proof {
        crate::character::lemma_find_ability_index(abs.0.0@, "move"@);
        crate::character::lemma_find_ability_index(abs.0.0@, "hit"@);
        crate::character::lemma_find_ability_index(abs.0.0@, "slam"@);
    }

    let mut player = game_state.characters.remove(0);
    player.bundle.abilities = Abilities::from_arr(&move_hit);
    game_state.characters.insert(0, player);
    proof {
        assert(game_state.characters@ =~= old(game_state).characters@.update(
            0,
            game_state.characters@[0],
        ));
    }

    let mut enemies: Vec<Character> = Vec::new();
    enemies.push(make_enemy("mushroom", &move_hit, 5, 5, "images/fungus1.png"));
    enemies.push(make_enemy("wideshroom", &move_slam, 7, 3, "images/fungus2.png"));
    enemies.push(make_enemy("purpleshroom", &move_hit, 7, 3, "images/fungus3.png"));
    enemies.push(make_enemy("manyshroom", &move_hit, 7, 3, "images/fungus4.png"));
    let mut tiers: Vec<(EnemyTier, Vec<Character>)> = Vec::new();
    tiers.push((EnemyTier::Normal1, enemies));
    AvailableEnemies(tiers)
}

/// Builds the reward catalog: two ability grants and three raw attribute
/// raises, each with its drawback.
pub fn init_available_power_ups(abs: &AvailableAbilities) -> (r: AvailablePowerUps)
    requires
        find_ability_index(abs.0.0@, "slam"@) is Some,
        find_ability_index(abs.0.0@, "shoot"@) is Some,
    ensures
        r.0@.len() == 5,
        r.0@[0].name@ == "slam"@ && r.0@[0].main_effect == PowerUp::Ability(
            abs.0.0@[catalog_index(*abs, "slam"@)],
        ) && r.0@[0].side_effect == (PowerUp::ChangeAttribute {
            typ: AttributeType::HitPoints,
            value: 20,
        }),
        r.0@[1].name@ == "shoot"@ && r.0@[1].main_effect == PowerUp::Ability(
            abs.0.0@[catalog_index(*abs, "shoot"@)],
        ) && r.0@[1].side_effect == (PowerUp::ChangeAttribute {
            typ: AttributeType::Attack,
            value: -5i32,
        }),
        r.0@[2].name@ == "Raise hit points"@ && r.0@[2].main_effect == (PowerUp::ChangeAttribute {
            typ: AttributeType::HitPoints,
            value: 10,
        }) && r.0@[2].side_effect == (PowerUp::ChangeAttribute {
            typ: AttributeType::Defense,
            value: -1i32,
        }),
        r.0@[3].name@ == "Raise attack"@ && r.0@[3].main_effect == (PowerUp::ChangeAttribute {
            typ: AttributeType::Attack,
            value: 2,
        }) && r.0@[3].side_effect == (PowerUp::ChangeAttribute {
            typ: AttributeType::HitPoints,
            value: -5i32,
        }),
        r.0@[4].name@ == "Raise defense"@ && r.0@[4].main_effect == (PowerUp::ChangeAttribute {
            typ: AttributeType::Defense,
            value: 2,
        }) && r.0@[4].side_effect == (PowerUp::ChangeAttribute {
            typ: AttributeType::Attack,
            value: -1i32,
        }),
{
    proof {
        crate::character::lemma_find_ability_index(abs.0.0@, "slam"@);
        crate::character::lemma_find_ability_index(abs.0.0@, "shoot"@);
    }
    let slam = abs.0.get(&"slam".to_owned()).unwrap().clone();
    let shoot = abs.0.get(&"shoot".to_owned()).unwrap().clone();
    let mut v: Vec<AvailablePowerUp> = Vec::new();
    v.push(
        AvailablePowerUp {
            name: "slam".to_owned(),
            main_effect: PowerUp::Ability(slam),
            side_effect: PowerUp::ChangeAttribute { typ: AttributeType::HitPoints, value: 20 },
        },
    );
    v.push(
        AvailablePowerUp {
            name: "shoot".to_owned(),
            main_effect: PowerUp::Ability(shoot),
            side_effect: PowerUp::ChangeAttribute { typ: AttributeType::Attack, value: -5 },
        },
    );
    v.push(
        AvailablePowerUp {
            name: "Raise hit points".to_owned(),
            main_effect: PowerUp::ChangeAttribute { typ: AttributeType::HitPoints, value: 10 },
            side_effect: PowerUp::ChangeAttribute { typ: AttributeType::Defense, value: -1 },
        },
    );
    v.push(
        AvailablePowerUp {
            name: "Raise attack".to_owned(),
            main_effect: PowerUp::ChangeAttribute { typ: AttributeType::Attack, value: 2 },
            side_effect: PowerUp::ChangeAttribute { typ: AttributeType::HitPoints, value: -5 },
        },
    );
    v.push(
        AvailablePowerUp {
            name: "Raise defense".to_owned(),
            main_effect: PowerUp::ChangeAttribute { typ: AttributeType::Defense, value: 2 },
            side_effect: PowerUp::ChangeAttribute { typ: AttributeType::Attack, value: -1 },
        },
    );
    AvailablePowerUps(v)
}

/// Whether one offer qualifies for the choice screen, given whether an
/// ability offer was already taken: an attribute raise always does; an
/// ability grant only when the player lacks it and none was taken yet.
pub open spec fn offer_qualifies(p: AvailablePowerUp, inv: Seq<Ability>, taken: bool) -> bool {
    match p.main_effect {
        PowerUp::Ability(a) => !taken && find_ability_index(inv, a.name@) is None,
        PowerUp::ChangeAttribute { .. } => true,
    }
}

/// How many offers of `ups[from..]` qualify when scanned front to back,
/// threading the one-ability-offer rule through `taken`.
pub open spec fn offer_candidate_count(
    ups: Seq<AvailablePowerUp>,
    inv: Seq<Ability>,
    from: int,
    taken: bool,
) -> int
    decreases ups.len() - from,
{
    if from < 0 || from >= ups.len() {
        0
    } else {
        let keep = offer_qualifies(ups[from], inv, taken);
        (if keep {
            1int
        } else {
            0int
        }) + offer_candidate_count(
            ups,
            inv,
            from + 1,
            taken || (keep && ups[from].main_effect is Ability),
        )
    }
}

/// Picks up to two reward offers for the choice screen. Offers whose main
/// effect is an attribute raise always qualify; an offer granting an
/// ability qualifies only when the player lacks that ability, and at most
/// one such offer is put up at a time. As many offers are put up as
/// qualify, capped at two.
pub fn select_power_up_offers(
    available: &AvailablePowerUps,
    player_abilities: &Abilities,
) -> (r: Vec<usize>)
    requires
        available.0@.len() <= 0xffff_ffff,
    ensures
        r@.len() == (if offer_candidate_count(available.0@, player_abilities.0@, 0, false) < 2 {
            offer_candidate_count(available.0@, player_abilities.0@, 0, false)
        } else {
            2int
        }),
        r@.len() <= 2,
        forall|i: int| 0 <= i < r@.len() ==> (#[trigger] r@[i] as int) < available.0@.len(),
        forall|i: int, j: int| 0 <= i < j < r@.len() ==> r@[i] != r@[j],
        forall|i: int|
            0 <= i < r@.len() ==> (match available.0@[(#[trigger] r@[i]) as int].main_effect {
                PowerUp::Ability(a) => find_ability_index(
                    player_abilities.0@,
                    a.name@,
                ) is None,
                PowerUp::ChangeAttribute { .. } => true,
            }),
        forall|i: int, j: int|
            0 <= i < j < r@.len() ==> !(available.0@[r@[i] as int].main_effect is Ability
                && available.0@[r@[j] as int].main_effect is Ability),
{
    let n: usize = available.0.len();
    let mut candidates: Vec<usize> = Vec::new();
    let mut ability_already = false;
    let mut i: usize = 0;
    while i < n
        invariant
            n == available.0@.len(),
            0 <= i <= n,
            candidates@.len() <= i,
            offer_candidate_count(available.0@, player_abilities.0@, 0, false) == candidates@.len()
                + offer_candidate_count(
                available.0@,
                player_abilities.0@,
                i as int,
                ability_already,
            ),
            forall|k: int| 0 <= k < candidates@.len() ==> (#[trigger] candidates@[k] as int) < i,
            forall|k1: int, k2: int|
                0 <= k1 < k2 < candidates@.len() ==> candidates@[k1] < candidates@[k2],
            forall|k: int|
                0 <= k < candidates@.len() ==> (
                match available.0@[(#[trigger] candidates@[k]) as int].main_effect {
                    PowerUp::Ability(a) => find_ability_index(
                        player_abilities.0@,
                        a.name@,
                    ) is None,
                    PowerUp::ChangeAttribute { .. } => true,
                }),
            forall|k1: int, k2: int|
                0 <= k1 < k2 < candidates@.len() ==> !(available.0@[
                    candidates@[k1] as int
                ].main_effect is Ability && available.0@[
                    candidates@[k2] as int
                ].main_effect is Ability),
            !ability_already ==> forall|k: int|
                0 <= k < candidates@.len() ==> !(available.0@[
                    candidates@[k] as int
                ].main_effect is Ability),
        decreases n - i,
    {
        let ghost taken_pre = ability_already;
        let ok = match &available.0[i].main_effect {
            PowerUp::Ability(ab) => {
                let known = match player_abilities.get(&ab.name) {
                    Option::Some(_) => true,
                    Option::None => false,
                };
                proof {
                    crate::character::lemma_find_ability_index(player_abilities.0@, ab.name@);
                }
                let take = !ability_already && !known;
                if take {
                    ability_already = true;
                }
                take
            },
            PowerUp::ChangeAttribute { .. } => true,
        };
        proof {
            assert(ok == offer_qualifies(
                available.0@[i as int],
                player_abilities.0@,
                taken_pre,
            ));
            assert(offer_candidate_count(available.0@, player_abilities.0@, i as int, taken_pre)
                == (if ok {
                1int
            } else {
                0int
            }) + offer_candidate_count(
                available.0@,
                player_abilities.0@,
                i + 1,
                ability_already,
            ));
        }
        if ok {
            candidates.push(i);
        }
        i = i + 1;
    }
    proof {
        assert(offer_candidate_count(available.0@, player_abilities.0@, n as int, ability_already)
            == 0);
    }
    let picks = sample_indices(candidates.len(), 2);
    let mut out: Vec<usize> = Vec::new();
    let mut k: usize = 0;
    while k < picks.len()
        invariant
            forall|a: int| 0 <= a < picks@.len() ==> (#[trigger] picks@[a] as int) < candidates@.len(),
            forall|a: int, b: int| 0 <= a < b < picks@.len() ==> picks@[a] != picks@[b],
            forall|a: int| 0 <= a < candidates@.len() ==> (#[trigger] candidates@[a] as int) < available.0@.len(),
            forall|a1: int, a2: int|
                0 <= a1 < a2 < candidates@.len() ==> candidates@[a1] < candidates@[a2],
            forall|a: int|
                0 <= a < candidates@.len() ==> (
                match available.0@[(#[trigger] candidates@[a]) as int].main_effect {
                    PowerUp::Ability(ab) => find_ability_index(
                        player_abilities.0@,
                        ab.name@,
                    ) is None,
                    PowerUp::ChangeAttribute { .. } => true,
                }),
            forall|a1: int, a2: int|
                0 <= a1 < a2 < candidates@.len() ==> !(available.0@[
                    candidates@[a1] as int
                ].main_effect is Ability && available.0@[
                    candidates@[a2] as int
                ].main_effect is Ability),
            0 <= k <= picks@.len(),
            picks@.len() <= 2,
            out@.len() == k,
            forall|a: int|
                0 <= a < k ==> (#[trigger] out@[a]) == candidates@[picks@[a] as int],
        decreases picks.len() - k,
    {
        out.push(candidates[picks[k]]);
        k = k + 1;
    }
    proof {
        assert forall|i1: int, j1: int| 0 <= i1 < j1 < out@.len() implies out@[i1]
            != out@[j1] by {
            let p1 = picks@[i1] as int;
            let p2 = picks@[j1] as int;
            if p1 < p2 {
                assert(candidates@[p1] < candidates@[p2]);
            } else {
                assert(candidates@[p2] < candidates@[p1]);
            }
        }
        assert forall|i1: int, j1: int|
            0 <= i1 < j1 < out@.len() implies !(available.0@[out@[i1] as int].main_effect
            is Ability && available.0@[out@[j1] as int].main_effect is Ability) by {
            let p1 = picks@[i1] as int;
            let p2 = picks@[j1] as int;
            if p1 < p2 {
                assert(!(available.0@[candidates@[p1] as int].main_effect is Ability
                    && available.0@[candidates@[p2] as int].main_effect is Ability));
            } else {
                assert(!(available.0@[candidates@[p2] as int].main_effect is Ability
                    && available.0@[candidates@[p1] as int].main_effect is Ability));
            }
        }
    }
    out
}

} // verus!
