use std::collections::VecDeque;

use counterbalance::ability::{
    Ability, AbilityProximity, AbilityTargetSet, AbilityTargetType, AbilityType,
    TargetedAbilityType, TurnEvent,
};
use counterbalance::battle_field::BattleField;
use counterbalance::character::{
    Attribute, AttributeType, CharacterBundle, CharacterCategory, Group,
};
use counterbalance::lifecycle::{
    handle_lifecycle_event, BattleLifecycleEvent, BattleQueue, BattleResolution, BattleState,
    Combatant, LifeState,
};
use counterbalance::lifecycle::cleanup_battle;
use counterbalance::resolution::{calculate_damage, resolve_ability};

fn combatant(name: &str, group: Group, hp: i32, atk: i32, def: i32) -> Combatant {
    let attrs = vec![
        (AttributeType::HitPoints, hp),
        (AttributeType::Attack, atk),
        (AttributeType::Defense, def),
    ];
    let no_abilities: Vec<Ability> = Vec::new();
    Combatant {
        bundle: CharacterBundle::new(name, CharacterCategory::Human, &no_abilities, &attrs, group),
        life: LifeState::Alive,
    }
}

fn attack_ability(name: &str, potency: i32, range: i32, proximity: AbilityProximity) -> Ability {
    Ability {
        name: name.to_string(),
        typ: AbilityType::Targeted {
            ab_typ: TargetedAbilityType::ChangeAttribute {
                at_typ: AttributeType::HitPoints,
                potency,
            },
            proximity,
        },
        target: AbilityTargetSet::of(AbilityTargetType::Enemy),
        range,
        side_effect: None,
    }
}

fn hp_of(c: &Combatant) -> i32 {
    match c.bundle.attributes.get(AttributeType::HitPoints) {
        Some(Attribute::Gauge { value, .. }) => value,
        other => panic!("expected a hit point gauge, got {other:?}"),
    }
}

#[test]
fn damage_formula_fixtures() {
    assert_eq!(calculate_damage(15, 10, 10), 15);
    assert_eq!(calculate_damage(15, 12, 10), 15);
    assert_eq!(calculate_damage(15, 15, 10), 30);
    assert_eq!(calculate_damage(10, 3, 10), 10);
    assert_eq!(calculate_damage(10, 2, 10), 0);
    assert_eq!(calculate_damage(0, 40, 10), 0);
}

#[test]
fn pass_logs_and_ends_turn() {
    let mut field = BattleField::new(4, 3);
    let mut combatants = vec![combatant("player", Group::Player, 150, 10, 10)];
    let out = resolve_ability(&mut field, &mut combatants, &TurnEvent::Pass(0));
    assert_eq!(out.log.len(), 1);
    assert_eq!(out.log[0].message, "player waits");
    assert_eq!(out.lifecycle.len(), 1);
    assert!(matches!(out.lifecycle[0], BattleLifecycleEvent::EndTurn));
}

#[test]
fn adjacent_melee_hit_reduces_gauge_and_logs() {
    let mut field = BattleField::new(4, 3);
    let mut combatants = vec![
        combatant("player", Group::Player, 150, 10, 10),
        combatant("mushroom", Group::Enemy, 50, 5, 5),
    ];
    field.place(0, 0);
    field.place(1, 1);
    let ev = TurnEvent::Ability {
        ability: attack_ability("hit", 15, 2, AbilityProximity::Melee),
        by: 0,
        on: 1,
    };
    let out = resolve_ability(&mut field, &mut combatants, &ev);
    assert_eq!(hp_of(&combatants[1]), 20);
    assert_eq!(out.log.len(), 1);
    assert_eq!(out.log[0].message, "player used hit on mushroom. Hp removed to: 20");
    assert_eq!(out.lifecycle.len(), 1);
    assert!(matches!(out.lifecycle[0], BattleLifecycleEvent::EndTurn));
    // the field is untouched: nobody moved
    assert_eq!(field.occupant(0), Some(0));
    assert_eq!(field.occupant(1), Some(1));
}

#[test]
fn melee_attacker_closes_distance_before_striking() {
    let mut field = BattleField::new(4, 1);
    let mut combatants = vec![
        combatant("player", Group::Player, 150, 10, 10),
        combatant("mushroom", Group::Enemy, 50, 5, 5),
    ];
    field.place(0, 0);
    field.place(3, 1);
    let ev = TurnEvent::Ability {
        ability: attack_ability("hit", 15, 2, AbilityProximity::Melee),
        by: 0,
        on: 3,
    };
    let out = resolve_ability(&mut field, &mut combatants, &ev);
    // the caster moved to the free tile nearest the target within range 2
    assert_eq!(field.occupant(0), None);
    assert_eq!(field.occupant(2), Some(0));
    assert_eq!(out.log.len(), 2);
    assert_eq!(out.log[0].message, "player moved from (0, 0) to (2, 0)");
    assert_eq!(out.log[1].message, "player used hit on mushroom. Hp removed to: 20");
    assert_eq!(hp_of(&combatants[1]), 20);
}

#[test]
fn overkill_clamps_to_gauge_floor_and_kills() {
    let mut field = BattleField::new(4, 3);
    let mut combatants = vec![
        combatant("player", Group::Player, 150, 10, 10),
        combatant("mushroom", Group::Enemy, 50, 5, 5),
    ];
    field.place(0, 0);
    field.place(1, 1);
    let ev = TurnEvent::Ability {
        ability: attack_ability("slam", 1000, 2, AbilityProximity::Ranged),
        by: 0,
        on: 1,
    };
    let out = resolve_ability(&mut field, &mut combatants, &ev);
    assert_eq!(hp_of(&combatants[1]), 0);
    assert_eq!(out.log[0].message, "player used slam on mushroom. Hp removed to: 0");
    assert_eq!(out.lifecycle.len(), 2);
    assert!(matches!(out.lifecycle[0], BattleLifecycleEvent::CharacterDied(1)));
    assert!(matches!(out.lifecycle[1], BattleLifecycleEvent::EndTurn));
}

#[test]
fn healing_is_clamped_to_gauge_cap() {
    let mut field = BattleField::new(4, 3);
    let mut combatants = vec![
        combatant("player", Group::Player, 150, 10, 10),
        combatant("mushroom", Group::Enemy, 50, 5, 5),
    ];
    field.place(0, 0);
    field.place(1, 1);
    // negative potency raises the gauge; it cannot pass its cap
    let ev = TurnEvent::Ability {
        ability: attack_ability("mend", -1000, 2, AbilityProximity::Ranged),
        by: 0,
        on: 1,
    };
    resolve_ability(&mut field, &mut combatants, &ev);
    assert_eq!(hp_of(&combatants[1]), 50);
}

#[test]
fn value_attribute_changes_silently() {
    let mut field = BattleField::new(4, 3);
    let mut combatants = vec![
        combatant("player", Group::Player, 150, 10, 10),
        combatant("mushroom", Group::Enemy, 50, 5, 5),
    ];
    field.place(0, 0);
    field.place(1, 1);
    let ability = Ability {
        name: "sunder".to_string(),
        typ: AbilityType::Targeted {
            ab_typ: TargetedAbilityType::ChangeAttribute {
                at_typ: AttributeType::Defense,
                potency: 3,
            },
            proximity: AbilityProximity::Ranged,
        },
        target: AbilityTargetSet::of(AbilityTargetType::Enemy),
        range: 3,
        side_effect: None,
    };
    let out = resolve_ability(
        &mut field,
        &mut combatants,
        &TurnEvent::Ability { ability, by: 0, on: 1 },
    );
    assert_eq!(
        combatants[1].bundle.attributes.get(AttributeType::Defense),
        Some(Attribute::Value(2))
    );
    assert_eq!(out.log.len(), 0);
    assert_eq!(out.lifecycle.len(), 1);
}

#[test]
fn movement_ability_reparents_caster() {
    let mut field = BattleField::new(4, 3);
    let mut combatants = vec![combatant("player", Group::Player, 150, 10, 10)];
    field.place(0, 0);
    let ability = Ability {
        name: "move".to_string(),
        typ: AbilityType::Movement,
        target: AbilityTargetSet::of(AbilityTargetType::Empty),
        range: 5,
        side_effect: None,
    };
    let out = resolve_ability(
        &mut field,
        &mut combatants,
        &TurnEvent::Ability { ability, by: 0, on: 6 },
    );
    assert_eq!(field.occupant(0), None);
    assert_eq!(field.occupant(6), Some(0));
    // tile 6 of a width-4 field is the hex (2, 1)
    assert_eq!(out.log[0].message, "player moved from (0, 0) to (2, 1)");
}

#[test]
fn resolution_ignores_target_type_set() {
    // the ability declares allies as its only legal targets, yet the
    // resolver, trusting its caller, damages the enemy-held tile anyway
    let mut field = BattleField::new(4, 3);
    let mut combatants = vec![
        combatant("player", Group::Player, 150, 10, 10),
        combatant("mushroom", Group::Enemy, 50, 5, 5),
    ];
    field.place(0, 0);
    field.place(1, 1);
    let mut ability = attack_ability("hit", 15, 2, AbilityProximity::Ranged);
    ability.target = AbilityTargetSet::of(AbilityTargetType::Ally);
    let ev = TurnEvent::Ability { ability, by: 0, on: 1 };
    resolve_ability(&mut field, &mut combatants, &ev);
    assert_eq!(hp_of(&combatants[1]), 20);
}

#[test]
fn missing_attribute_is_silently_ignored() {
    let mut field = BattleField::new(4, 3);
    let no_hp_attrs = vec![(AttributeType::Attack, 5), (AttributeType::Defense, 5)];
    let mut combatants = vec![
        combatant("player", Group::Player, 150, 10, 10),
        Combatant {
            bundle: CharacterBundle::new(
                "ghost",
                CharacterCategory::Fungus,
                &Vec::<Ability>::new(),
                &no_hp_attrs,
                Group::Enemy,
            ),
            life: LifeState::Alive,
        },
    ];
    field.place(0, 0);
    field.place(1, 1);
    let ev = TurnEvent::Ability {
        ability: attack_ability("hit", 15, 2, AbilityProximity::Ranged),
        by: 0,
        on: 1,
    };
    let out = resolve_ability(&mut field, &mut combatants, &ev);
    assert_eq!(out.log.len(), 0);
    assert_eq!(out.lifecycle.len(), 1);
    assert!(matches!(out.lifecycle[0], BattleLifecycleEvent::EndTurn));
}

#[test]
fn win_detection_player_victory() {
    let mut combatants = vec![
        combatant("player", Group::Player, 150, 10, 10),
        combatant("mushroom", Group::Enemy, 50, 5, 5),
        combatant("wideshroom", Group::Enemy, 50, 7, 3),
    ];
    let mut queue = BattleQueue { queue: VecDeque::from(vec![0, 1, 2]) };
    let mut state = BattleState::AbilityChoosingPlayer;
    handle_lifecycle_event(
        &BattleLifecycleEvent::CharacterDied(1),
        &mut combatants,
        &mut queue,
        &mut state,
    );
    handle_lifecycle_event(
        &BattleLifecycleEvent::CharacterDied(2),
        &mut combatants,
        &mut queue,
        &mut state,
    );
    let out = handle_lifecycle_event(
        &BattleLifecycleEvent::EndTurn,
        &mut combatants,
        &mut queue,
        &mut state,
    );
    assert_eq!(out.resolution, Some(BattleResolution { winner: Group::Player }));
    assert_eq!(state, BattleState::BattleEnd);
}

#[test]
fn win_detection_enemy_victory() {
    let mut combatants = vec![
        combatant("player", Group::Player, 150, 10, 10),
        combatant("mushroom", Group::Enemy, 50, 5, 5),
    ];
    let mut queue = BattleQueue { queue: VecDeque::from(vec![0, 1]) };
    let mut state = BattleState::AbilityCastingEnemy;
    handle_lifecycle_event(
        &BattleLifecycleEvent::CharacterDied(0),
        &mut combatants,
        &mut queue,
        &mut state,
    );
    let out = handle_lifecycle_event(
        &BattleLifecycleEvent::EndTurn,
        &mut combatants,
        &mut queue,
        &mut state,
    );
    assert_eq!(out.resolution, Some(BattleResolution { winner: Group::Enemy }));
    assert_eq!(state, BattleState::BattleEnd);
}

#[test]
fn enemy_death_is_logged_as_defeated() {
    let mut combatants = vec![
        combatant("player", Group::Player, 150, 10, 10),
        combatant("mushroom", Group::Enemy, 50, 5, 5),
    ];
    let mut queue = BattleQueue { queue: VecDeque::from(vec![0, 1]) };
    let mut state = BattleState::AbilityResolution;
    let out = handle_lifecycle_event(
        &BattleLifecycleEvent::CharacterDied(1),
        &mut combatants,
        &mut queue,
        &mut state,
    );
    assert_eq!(combatants[1].life, LifeState::Dead);
    assert_eq!(out.log.len(), 1);
    assert_eq!(out.log[0].message, "mushroom defeated!");
    assert!(out.resolution.is_none());
}

#[test]
fn turn_rotation_moves_head_to_back() {
    let mut queue = BattleQueue { queue: VecDeque::from(vec![0, 1, 2]) };
    queue.rotate();
    assert_eq!(queue.get_current(), 1);
    assert_eq!(Vec::from(queue.queue.clone()), vec![1, 2, 0]);
}

#[test]
fn n_rotations_equal_rotation_by_n_mod_len() {
    let mut queue = BattleQueue { queue: VecDeque::from(vec![0, 1, 2]) };
    for _ in 0..4 {
        queue.rotate();
    }
    // four single rotations of three entries land on 4 mod 3 == 1
    assert_eq!(queue.get_current(), 1);
    assert_eq!(Vec::from(queue.queue.clone()), vec![1, 2, 0]);
}

#[test]
fn end_turn_rotates_and_routes_by_group() {
    let mut combatants = vec![
        combatant("player", Group::Player, 150, 10, 10),
        combatant("mushroom", Group::Enemy, 50, 5, 5),
    ];
    let mut queue = BattleQueue { queue: VecDeque::from(vec![0, 1]) };
    let mut state = BattleState::AbilityChoosingPlayer;
    let out = handle_lifecycle_event(
        &BattleLifecycleEvent::EndTurn,
        &mut combatants,
        &mut queue,
        &mut state,
    );
    assert!(out.resolution.is_none());
    assert_eq!(queue.get_current(), 1);
    assert_eq!(state, BattleState::AbilityCastingEnemy);
    let out2 = handle_lifecycle_event(
        &BattleLifecycleEvent::EndTurn,
        &mut combatants,
        &mut queue,
        &mut state,
    );
    assert!(out2.resolution.is_none());
    assert_eq!(queue.get_current(), 0);
    assert_eq!(state, BattleState::AbilityChoosingPlayer);
}

#[test]
fn cleanup_battle_keeps_only_players() {
    let mut combatants = vec![
        combatant("player", Group::Player, 150, 10, 10),
        combatant("mushroom", Group::Enemy, 50, 5, 5),
        combatant("ally", Group::Player, 100, 8, 8),
    ];
    cleanup_battle(&mut combatants);
    assert_eq!(combatants.len(), 2);
    assert_eq!(combatants[0].bundle.name.0, "player");
    assert_eq!(combatants[1].bundle.name.0, "ally");
}

#[test]
fn melee_with_no_free_tile_still_strikes() {
    // the whole row is occupied: the attacker cannot close distance, so the
    // repositioning is skipped and the effect still lands
    let mut field = BattleField::new(3, 1);
    let mut combatants = vec![
        combatant("player", Group::Player, 150, 10, 10),
        combatant("mushroom", Group::Enemy, 50, 5, 5),
        combatant("wideshroom", Group::Enemy, 50, 7, 3),
    ];
    field.place(0, 0);
    field.place(1, 2);
    field.place(2, 1);
    let ev = TurnEvent::Ability {
        ability: attack_ability("hit", 15, 2, AbilityProximity::Melee),
        by: 0,
        on: 2,
    };
    let out = resolve_ability(&mut field, &mut combatants, &ev);
    assert_eq!(field.occupant(0), Some(0));
    assert_eq!(out.log.len(), 1);
    assert_eq!(out.log[0].message, "player used hit on mushroom. Hp removed to: 20");
    assert_eq!(hp_of(&combatants[1]), 20);
}

#[test]
fn dead_combatants_stay_in_the_rotating_queue() {
    let mut combatants = vec![
        combatant("player", Group::Player, 150, 10, 10),
        combatant("mushroom", Group::Enemy, 50, 5, 5),
        combatant("wideshroom", Group::Enemy, 50, 7, 3),
    ];
    let mut queue = BattleQueue { queue: VecDeque::from(vec![0, 1, 2]) };
    let mut state = BattleState::AbilityChoosingPlayer;
    handle_lifecycle_event(
        &BattleLifecycleEvent::CharacterDied(1),
        &mut combatants,
        &mut queue,
        &mut state,
    );
    let out = handle_lifecycle_event(
        &BattleLifecycleEvent::EndTurn,
        &mut combatants,
        &mut queue,
        &mut state,
    );
    // the dead enemy keeps its slot: the queue rotates onto it all the same
    assert!(out.resolution.is_none());
    assert_eq!(queue.get_current(), 1);
    assert_eq!(Vec::from(queue.queue.clone()), vec![1, 2, 0]);
    assert_eq!(state, BattleState::AbilityCastingEnemy);
}
