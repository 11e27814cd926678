use vstd::prelude::*;

use crate::character::AttributeType;

verus! {

/// Whether an ability requires closing to melee range before it applies,
/// or works at its listed range as it stands.
#[derive(Debug, Clone, Copy, PartialEq, Eq, Structural)]
pub enum AbilityProximity {
    Melee,
    Ranged,
}

/// The occupancy kind of a candidate target tile.
#[derive(Debug, Clone, Copy, PartialEq, Eq, Structural)]
pub enum AbilityTargetType {
    Empty,
    Ally,
    Enemy,
}

/// The set of occupancy kinds an ability may legally be aimed at.
#[derive(Debug, Clone, Copy, PartialEq, Eq, Structural)]
pub struct AbilityTargetSet {
    pub empty: bool,
    pub ally: bool,
    pub enemy: bool,
}

impl AbilityTargetSet {
    /// Whether the set holds the given target type.
    pub open spec fn spec_contains(self, t: AbilityTargetType) -> bool {
        match t {
            AbilityTargetType::Empty => self.empty,
            AbilityTargetType::Ally => self.ally,
            AbilityTargetType::Enemy => self.enemy,
        }
    }

    /// The set holding exactly one target type.
    pub fn of(t: AbilityTargetType) -> (r: AbilityTargetSet)
        ensures
            r == (AbilityTargetSet {
                empty: t is Empty,
                ally: t is Ally,
                enemy: t is Enemy,
            }),
            forall|u: AbilityTargetType| r.spec_contains(u) <==> u == t,
    {
        let mut r = AbilityTargetSet { empty: false, ally: false, enemy: false };
        match t {
            AbilityTargetType::Empty => {
                r.empty = true;
            },
            AbilityTargetType::Ally => {
                r.ally = true;
            },
            AbilityTargetType::Enemy => {
                r.enemy = true;
            },
        }
        r
    }

    /// This set with one more target type.
    pub fn with(self, t: AbilityTargetType) -> (r: AbilityTargetSet)
        ensures
            r == (AbilityTargetSet {
                empty: self.empty || t is Empty,
                ally: self.ally || t is Ally,
                enemy: self.enemy || t is Enemy,
            }),
            forall|u: AbilityTargetType|
                r.spec_contains(u) <==> (u == t || self.spec_contains(u)),
    {
        let mut r = self;
        match t {
            AbilityTargetType::Empty => {
                r.empty = true;
            },
            AbilityTargetType::Ally => {
                r.ally = true;
            },
            AbilityTargetType::Enemy => {
                r.enemy = true;
            },
        }
        r
    }

    /// Membership test.
    pub fn contains(&self, t: AbilityTargetType) -> (r: bool)
        ensures
            r == self.spec_contains(t),
    {
        match t {
            AbilityTargetType::Empty => self.empty,
            AbilityTargetType::Ally => self.ally,
            AbilityTargetType::Enemy => self.enemy,
        }
    }
}

/// The effect a targeted ability applies to the target tile's occupant.
#[derive(Debug, Clone, Copy, PartialEq, Eq, Structural)]
pub enum TargetedAbilityType {
    ChangeAttribute { at_typ: AttributeType, potency: i32 },
}

/// What an ability does: apply a targeted effect, or move the caster.
#[derive(Debug, Clone, Copy, PartialEq, Eq, Structural)]
pub enum AbilityType {
    Targeted { ab_typ: TargetedAbilityType, proximity: AbilityProximity },
    Movement,
}

/// An ability a combatant can cast on its turn.
///
/// The nested `side_effect` ability is part of the data model as an
/// extension point; resolution does not apply it.
#[derive(Debug)]
pub struct Ability {
    pub name: String,
    pub typ: AbilityType,
    pub target: AbilityTargetSet,
    pub range: i32,
    pub side_effect: Option<Box<Ability>>,
}

impl Clone for Ability {
    fn clone(&self) -> (r: Ability)
        ensures
            r == *self,
        decreases *self,
    {
        Ability {
            name: self.name.clone(),
            typ: self.typ,
            target: self.target,
            range: self.range,
            side_effect: match &self.side_effect {
                Option::None => Option::None,
                Option::Some(inner) => Option::Some(Box::new((**inner).clone())),
            },
        }
    }
}

/// One turn's action: an ability cast by combatant `by` on tile `on`, or a
/// pass. Combatants and tiles are named by their indices.
#[derive(Debug)]
pub enum TurnEvent {
    Ability { ability: Ability, by: usize, on: usize },
    Pass(usize),
}

} // verus!
