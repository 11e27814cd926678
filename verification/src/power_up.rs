use vstd::prelude::*;

use crate::ability::Ability;
use crate::character::{
    find_ability_index, Attribute, AttributeType, Character, CharacterBundle,
};

verus! {

/// A reward picked between battles: a whole new ability, or a permanent
/// delta to one attribute.
#[derive(Debug)]
pub enum PowerUp {
    Ability(Ability),
    ChangeAttribute { typ: AttributeType, value: i32 },
}

/// A named reward offer: the effect it grants and the drawback that comes
/// with it.
#[derive(Debug)]
pub struct AvailablePowerUp {
    pub name: String,
    pub main_effect: PowerUp,
    pub side_effect: PowerUp,
}

/// The catalog of reward offers.
#[derive(Debug)]
pub struct AvailablePowerUps(pub Vec<AvailablePowerUp>);

/// An attribute after a permanent delta: scalars move freely; a gauge
/// raises (or lowers) both its current value and its cap, clamped only at
/// its own floor.
pub open spec fn power_up_attr(a: Attribute, delta: int) -> Attribute {
    match a {
        Attribute::Value(v) => Attribute::Value((v + delta) as i32),
        Attribute::Gauge { value, min, max } => Attribute::Gauge {
            value: (if value + delta < min {
                min as int
            } else {
                value + delta
            }) as i32,
            min,
            max: (max + delta) as i32,
        },
    }
}

/// The machine limits under which the delta applies: results stay in
/// range, and a gauge's cap never sinks below its floor.
pub open spec fn power_up_attr_ok(a: Attribute, delta: int) -> bool {
    match a {
        Attribute::Value(v) => i32::MIN <= v + delta <= i32::MAX,
        Attribute::Gauge { value, min, max } => i32::MIN <= value + delta <= i32::MAX
            && i32::MIN <= max + delta <= i32::MAX && min <= max + delta,
    }
}

/// What one power-up asks of the recipient: an attribute delta needs the
/// attribute present and the arithmetic in range.
pub open spec fn power_up_requires(b: CharacterBundle, pu: PowerUp) -> bool {
    match pu {
        PowerUp::Ability(_) => true,
        PowerUp::ChangeAttribute { typ, value } => match b.attributes.spec_get(typ) {
            Option::None => false,
            Option::Some(a) => power_up_attr_ok(a, value as int),
        },
    }
}

/// What one power-up does to the recipient: a granted ability joins the
/// inventory under its name; an attribute delta rewrites one attribute.
pub open spec fn power_up_ensures(b0: CharacterBundle, b1: CharacterBundle, pu: PowerUp) -> bool {
    match pu {
        PowerUp::Ability(a) => {
            &&& b1.attributes.0@ == b0.attributes.0@
            &&& b1.name == b0.name && b1.category == b0.category && b1.group == b0.group
            &&& b1.abilities.wf()
            &&& b1.abilities.0@ == (match find_ability_index(b0.abilities.0@, a.name@) {
                Option::None => b0.abilities.0@.push(a),
                Option::Some(k) => b0.abilities.0@.update(k, a),
            })
        },
        PowerUp::ChangeAttribute { typ, value } => {
            &&& b1.abilities == b0.abilities
            &&& b1.name == b0.name && b1.category == b0.category && b1.group == b0.group
            &&& b1.attributes.wf()
            &&& b1.attributes.0@.len() == b0.attributes.0@.len()
            &&& b1.attributes.spec_get(typ) == (match b0.attributes.spec_get(typ) {
                Option::None => Option::None::<Attribute>,
                Option::Some(a) => Option::Some(power_up_attr(a, value as int)),
            })
            &&& forall|u: AttributeType|
                u != typ ==> b1.attributes.spec_get(u) == b0.attributes.spec_get(u)
        },
    }
}

/// Applies one power-up to a combatant record.
pub fn apply_power_up(bundle: &mut CharacterBundle, power_up: &PowerUp)
    requires
        old(bundle).wf(),
        power_up_requires(*old(bundle), *power_up),
    ensures
        final(bundle).wf(),
        power_up_ensures(*old(bundle), *final(bundle), *power_up),
{
    match power_up {
        PowerUp::Ability(a) => {
            bundle.abilities.insert(a.clone());
        },
        PowerUp::ChangeAttribute { typ, value } => {
            let current = bundle.attributes.get(*typ).unwrap();
            let updated = match current {
                Attribute::Value(v) => Attribute::Value(v + *value),
                Attribute::Gauge { value: gv, min, max } => {
                    let nv = gv + *value;
                    Attribute::Gauge {
                        value: if nv < min {
                            min
                        } else {
                            nv
                        },
                        min,
                        max: max + *value,
                    }
                },
            };
            proof {
                crate::character::lemma_find_attr_index(old(bundle).attributes.0@, *typ);
            }
            bundle.attributes.set(*typ, updated);
        },
    }
}

/// Applies a chosen reward to the roster's leading character — the player —
/// first its main effect, then its side effect.
pub fn interact_pick_power_up(characters: &mut Vec<Character>, chosen: &AvailablePowerUp)
    requires
        old(characters)@.len() > 0,
        old(characters)@[0].bundle.wf(),
        power_up_requires(old(characters)@[0].bundle, chosen.main_effect),
        forall|mid: CharacterBundle|
            #[trigger] power_up_ensures(old(characters)@[0].bundle, mid, chosen.main_effect)
                && mid.wf() ==> power_up_requires(mid, chosen.side_effect),
    ensures
        final(characters)@.len() == old(characters)@.len(),
        forall|i: int|
            0 < i < old(characters)@.len() ==> final(characters)@[i] == old(characters)@[i],
        final(characters)@[0].image_path == old(characters)@[0].image_path,
        final(characters)@[0].bundle.wf(),
        exists|mid: CharacterBundle|
            #[trigger] power_up_ensures(old(characters)@[0].bundle, mid, chosen.main_effect)
                && power_up_ensures(mid, final(characters)@[0].bundle, chosen.side_effect),
{
    let mut player = characters.remove(0);
    apply_power_up(&mut player.bundle, &chosen.main_effect);
    let ghost mid = player.bundle;
    apply_power_up(&mut player.bundle, &chosen.side_effect);
    characters.insert(0, player);
    proof {
        assert(characters@ =~= old(characters)@.update(0, characters@[0]));
    }
}

} // verus!
