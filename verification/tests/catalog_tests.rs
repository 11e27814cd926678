use counterbalance::ability::{Ability, AbilityTargetType, TurnEvent};
use counterbalance::battle_field::BattleField;
use counterbalance::catalog::{
    get_abilities, init_available_abilities, init_available_enemies, init_available_power_ups,
    initialize_enemies, scale_attribute_value, select_power_up_offers, EnemyTier, GameState,
};
use counterbalance::character::{Attribute, AttributeType, Group};
use counterbalance::enemy::handle_enemy_turn;
use counterbalance::hex::Hex;
use counterbalance::init::{setup_battle, BattleFieldLayout};
use counterbalance::interactions::{get_ability_range, is_valid_target, target_type_of};
use counterbalance::lifecycle::LifeState;
use counterbalance::power_up::{interact_pick_power_up, PowerUp};
use counterbalance::rng::sample_indices;

#[test]
fn ability_catalog_holds_the_four_abilities() {
    let abs = init_available_abilities();
    let names: Vec<&str> = abs.0 .0.iter().map(|a| a.name.as_str()).collect();
    assert_eq!(names, vec!["move", "hit", "shoot", "slam"]);
    assert_eq!(abs.0 .0[0].range, 5);
    assert_eq!(abs.0 .0[1].range, 2);
    assert_eq!(abs.0 .0[2].range, 5);
    assert_eq!(abs.0 .0[3].range, 1);
    assert!(abs.0 .0[0].target.empty && !abs.0 .0[0].target.enemy);
    assert!(abs.0 .0[1].target.enemy && !abs.0 .0[1].target.empty);
}

#[test]
fn get_abilities_fetches_in_order() {
    let abs = init_available_abilities();
    let names = vec!["slam".to_string(), "move".to_string()];
    let got = get_abilities(&names, &abs);
    assert_eq!(got.len(), 2);
    assert_eq!(got[0].name, "slam");
    assert_eq!(got[1].name, "move");
}

#[test]
fn enemy_pool_and_player_loadout() {
    let abs = init_available_abilities();
    let mut game_state = GameState::default();
    let enemies = init_available_enemies(&abs, &mut game_state);
    let player = &game_state.characters[0];
    let player_ability_names: Vec<&str> =
        player.bundle.abilities.0.iter().map(|a| a.name.as_str()).collect();
    assert_eq!(player_ability_names, vec!["move", "hit"]);
    assert_eq!(enemies.0.len(), 1);
    assert_eq!(enemies.0[0].0, EnemyTier::Normal1);
    let pool = &enemies.0[0].1;
    let pool_names: Vec<&str> = pool.iter().map(|c| c.bundle.name.0.as_str()).collect();
    assert_eq!(pool_names, vec!["mushroom", "wideshroom", "purpleshroom", "manyshroom"]);
    for enemy in pool.iter() {
        assert_eq!(enemy.bundle.group, Group::Enemy);
        assert_eq!(
            enemy.bundle.attributes.get(AttributeType::HitPoints),
            Some(Attribute::Gauge { value: 50, min: 0, max: 50 })
        );
    }
    assert_eq!(pool[1].bundle.abilities.0[1].name, "slam");
}

#[test]
fn power_up_catalog_names() {
    let abs = init_available_abilities();
    let ups = init_available_power_ups(&abs);
    let names: Vec<&str> = ups.0.iter().map(|p| p.name.as_str()).collect();
    assert_eq!(
        names,
        vec!["slam", "shoot", "Raise hit points", "Raise attack", "Raise defense"]
    );
}

#[test]
fn picking_a_power_up_applies_main_and_side_effect() {
    let abs = init_available_abilities();
    let ups = init_available_power_ups(&abs);
    let mut game_state = GameState::default();
    // "Raise attack": attack +2, hit points -5 from value and cap
    interact_pick_power_up(&mut game_state.characters, &ups.0[3]);
    let player = &game_state.characters[0];
    assert_eq!(
        player.bundle.attributes.get(AttributeType::Attack),
        Some(Attribute::Value(12))
    );
    assert_eq!(
        player.bundle.attributes.get(AttributeType::HitPoints),
        Some(Attribute::Gauge { value: 145, min: 0, max: 145 })
    );
}

#[test]
fn picking_an_ability_power_up_grants_the_ability() {
    let abs = init_available_abilities();
    let ups = init_available_power_ups(&abs);
    let mut game_state = GameState::default();
    // "slam": the ability joins the inventory, the hit point cap rises by 20
    interact_pick_power_up(&mut game_state.characters, &ups.0[0]);
    let player = &game_state.characters[0];
    assert_eq!(player.bundle.abilities.0.len(), 1);
    assert_eq!(player.bundle.abilities.0[0].name, "slam");
    assert_eq!(
        player.bundle.attributes.get(AttributeType::HitPoints),
        Some(Attribute::Gauge { value: 170, min: 0, max: 170 })
    );
}

#[test]
fn offers_skip_known_abilities_and_cap_at_two() {
    let abs = init_available_abilities();
    let ups = init_available_power_ups(&abs);
    let mut game_state = GameState::default();
    let enemies = init_available_enemies(&abs, &mut game_state);
    drop(enemies);
    for _ in 0..20 {
        let offers = select_power_up_offers(&ups, &game_state.characters[0].bundle.abilities);
        assert!(offers.len() <= 2);
        let mut ability_offers = 0;
        for &o in offers.iter() {
            match &ups.0[o].main_effect {
                PowerUp::Ability(a) => {
                    ability_offers += 1;
                    assert!(game_state.characters[0]
                        .bundle
                        .abilities
                        .0
                        .iter()
                        .all(|own| own.name != a.name));
                },
                PowerUp::ChangeAttribute { .. } => {},
            }
        }
        assert!(ability_offers <= 1);
    }
}

#[test]
fn round_scaling_fixture_values() {
    assert_eq!(scale_attribute_value(100, 0), 100);
    assert_eq!(scale_attribute_value(100, 1), 102);
    assert_eq!(scale_attribute_value(50, 1), 51);
    assert_eq!(scale_attribute_value(100, 2), 104);
}

#[test]
fn initialize_enemies_scales_and_counts() {
    let abs = init_available_abilities();
    let mut game_state = GameState::default();
    let enemies = init_available_enemies(&abs, &mut game_state);
    let pool = &enemies.0[0].1;
    let before = game_state.characters.len();
    initialize_enemies(pool, 0, &mut game_state.characters);
    assert_eq!(game_state.characters.len(), before + 1);
    let spawned = &game_state.characters[before];
    assert_eq!(spawned.bundle.group, Group::Enemy);
    // at round 0 the multiplier is one: attributes match some pool entry
    assert_eq!(
        spawned.bundle.attributes.get(AttributeType::HitPoints),
        Some(Attribute::Gauge { value: 50, min: 0, max: 50 })
    );

    let mut later = game_state.characters[..1].to_vec();
    initialize_enemies(pool, 16, &mut later);
    // rounds eight and beyond field three enemies
    assert_eq!(later.len(), 1 + 3);
    for spawned in &later[1..] {
        // 50 * 1.02^16 rounds to 69
        assert_eq!(
            spawned.bundle.attributes.get(AttributeType::HitPoints),
            Some(Attribute::Gauge { value: 69, min: 0, max: 69 })
        );
    }
    // sampling is without replacement: the pool's names are unique, so the
    // spawned enemies' names are pairwise distinct
    for a in 1..later.len() {
        for b in a + 1..later.len() {
            assert_ne!(later[a].bundle.name.0, later[b].bundle.name.0);
        }
    }
}

#[test]
fn enemy_with_no_abilities_passes() {
    let attrs = vec![
        (AttributeType::HitPoints, 50),
        (AttributeType::Attack, 5),
        (AttributeType::Defense, 5),
    ];
    let player_bundle = counterbalance::character::CharacterBundle::new(
        "player",
        counterbalance::character::CharacterCategory::Human,
        &Vec::<Ability>::new(),
        &attrs,
        Group::Player,
    );
    let enemy_bundle = counterbalance::character::CharacterBundle::new(
        "mushroom",
        counterbalance::character::CharacterCategory::Fungus,
        &Vec::<Ability>::new(),
        &attrs,
        Group::Enemy,
    );
    let mut field = BattleField::new(4, 1);
    let combatants = vec![
        counterbalance::lifecycle::Combatant { bundle: player_bundle, life: LifeState::Alive },
        counterbalance::lifecycle::Combatant { bundle: enemy_bundle, life: LifeState::Alive },
    ];
    field.place(0, 0);
    field.place(3, 1);
    let ev = handle_enemy_turn(&field, &combatants, 1);
    assert!(matches!(ev, TurnEvent::Pass(1)));
}

#[test]
fn boxed_in_enemy_with_only_short_moves_passes() {
    // the enemy's reposition ability has range zero: no line step can ever
    // be both reachable and distinct from its own tile, so it passes
    let abs = init_available_abilities();
    let mut shuffle = get_abilities(&vec!["move".to_string()], &abs);
    shuffle[0].range = 0;
    let attrs = vec![
        (AttributeType::HitPoints, 50),
        (AttributeType::Attack, 5),
        (AttributeType::Defense, 5),
    ];
    let player_bundle = counterbalance::character::CharacterBundle::new(
        "player",
        counterbalance::character::CharacterCategory::Human,
        &Vec::<Ability>::new(),
        &attrs,
        Group::Player,
    );
    let enemy_bundle = counterbalance::character::CharacterBundle::new(
        "mushroom",
        counterbalance::character::CharacterCategory::Fungus,
        &shuffle,
        &attrs,
        Group::Enemy,
    );
    let mut field = BattleField::new(6, 1);
    let combatants = vec![
        counterbalance::lifecycle::Combatant { bundle: player_bundle, life: LifeState::Alive },
        counterbalance::lifecycle::Combatant { bundle: enemy_bundle, life: LifeState::Alive },
    ];
    field.place(0, 0);
    field.place(5, 1);
    let ev = handle_enemy_turn(&field, &combatants, 1);
    assert!(matches!(ev, TurnEvent::Pass(1)));
}

#[test]
fn offer_count_matches_qualifying_candidates() {
    let abs = init_available_abilities();
    let ups = init_available_power_ups(&abs);
    let mut game_state = GameState::default();
    // the bare player knows nothing: one ability offer qualifies (the
    // first), plus the three attribute raises; capped at two
    let offers = select_power_up_offers(&ups, &game_state.characters[0].bundle.abilities);
    assert_eq!(offers.len(), 2);
    // a player who already knows every offered ability still gets the
    // three attribute raises; capped at two
    interact_pick_power_up(&mut game_state.characters, &ups.0[0]);
    interact_pick_power_up(&mut game_state.characters, &ups.0[1]);
    let offers2 = select_power_up_offers(&ups, &game_state.characters[0].bundle.abilities);
    assert_eq!(offers2.len(), 2);
}

#[test]
fn sample_indices_are_distinct_and_bounded() {
    for _ in 0..20 {
        let s = sample_indices(10, 4);
        assert_eq!(s.len(), 4);
        for &v in s.iter() {
            assert!(v < 10);
        }
        for i in 0..s.len() {
            for j in i + 1..s.len() {
                assert_ne!(s[i], s[j]);
            }
        }
    }
    assert_eq!(sample_indices(3, 7).len(), 3);
}

#[test]
fn setup_battle_places_roster_and_builds_queue() {
    let abs = init_available_abilities();
    let mut game_state = GameState::default();
    let enemies = init_available_enemies(&abs, &mut game_state);
    initialize_enemies(&enemies.0[0].1, 0, &mut game_state.characters);
    let layout = BattleFieldLayout {
        width: 6,
        height: 4,
        player_start: vec![Hex::from_oddr(0, 1)],
        enemy_start: vec![Hex::from_oddr(5, 0), Hex::from_oddr(5, 2), Hex::from_oddr(4, 3)],
    };
    let battle = setup_battle(&game_state.characters, &layout);
    assert_eq!(battle.combatants.len(), 2);
    assert!(battle.combatants.iter().all(|c| c.life == LifeState::Alive));
    assert_eq!(Vec::from(battle.queue.queue.clone()), vec![0, 1]);
    // the player sits on (0, 1): tile 1 * 6 + 0
    assert_eq!(battle.field.occupant(6), Some(0));
    // the first enemy start hex (5, 0) is tile 5
    assert_eq!(battle.field.occupant(5), Some(1));
}

#[test]
fn enemy_attacks_player_in_range() {
    let abs = init_available_abilities();
    let shoot = get_abilities(&vec!["shoot".to_string()], &abs);
    let mut game_state = GameState::default();
    let _ = init_available_enemies(&abs, &mut game_state);
    let mut field = BattleField::new(6, 1);
    let attrs = vec![
        (AttributeType::HitPoints, 50),
        (AttributeType::Attack, 5),
        (AttributeType::Defense, 5),
    ];
    let enemy_bundle = counterbalance::character::CharacterBundle::new(
        "mushroom",
        counterbalance::character::CharacterCategory::Fungus,
        &shoot,
        &attrs,
        Group::Enemy,
    );
    let combatants = vec![
        counterbalance::lifecycle::Combatant {
            bundle: game_state.characters[0].bundle.clone(),
            life: LifeState::Alive,
        },
        counterbalance::lifecycle::Combatant { bundle: enemy_bundle, life: LifeState::Alive },
    ];
    field.place(0, 0);
    field.place(4, 1);
    let ev = handle_enemy_turn(&field, &combatants, 1);
    match ev {
        TurnEvent::Ability { ability, by, on } => {
            assert_eq!(ability.name, "shoot");
            assert_eq!(by, 1);
            assert_eq!(on, 0);
        },
        TurnEvent::Pass(_) => panic!("expected an attack, got a pass"),
    }
}

#[test]
fn enemy_advances_when_out_of_range() {
    let abs = init_available_abilities();
    let move_only = get_abilities(&vec!["move".to_string()], &abs);
    let attrs = vec![
        (AttributeType::HitPoints, 50),
        (AttributeType::Attack, 5),
        (AttributeType::Defense, 5),
    ];
    let player_bundle = counterbalance::character::CharacterBundle::new(
        "player",
        counterbalance::character::CharacterCategory::Human,
        &Vec::<Ability>::new(),
        &attrs,
        Group::Player,
    );
    let enemy_bundle = counterbalance::character::CharacterBundle::new(
        "mushroom",
        counterbalance::character::CharacterCategory::Fungus,
        &move_only,
        &attrs,
        Group::Enemy,
    );
    let mut field = BattleField::new(8, 1);
    let combatants = vec![
        counterbalance::lifecycle::Combatant { bundle: player_bundle, life: LifeState::Alive },
        counterbalance::lifecycle::Combatant { bundle: enemy_bundle, life: LifeState::Alive },
    ];
    field.place(0, 0);
    field.place(7, 1);
    let ev = handle_enemy_turn(&field, &combatants, 1);
    match ev {
        TurnEvent::Ability { ability, by, on } => {
            assert_eq!(ability.name, "move");
            assert_eq!(by, 1);
            assert!(field.occupant(on).is_none());
            let enemy_hex = field.hex(7).unwrap();
            let to_hex = field.hex(on).unwrap();
            assert!(enemy_hex.dist(to_hex) <= ability.range);
        },
        TurnEvent::Pass(_) => panic!("expected a move, got a pass"),
    }
}

#[test]
fn ability_range_and_target_legality() {
    let field = BattleField::new(3, 3);
    let abs = init_available_abilities();
    let slam = &abs.0 .0[3];
    // slam has range 1; centre tile 4 is the hex (1, 1)
    let range = get_ability_range(slam, 4, &field);
    assert!(range.contains(&4));
    for &t in range.iter() {
        let h = field.hex(t).unwrap();
        let centre = field.hex(4).unwrap();
        assert!(h.dist(centre) <= 1);
    }
    let attrs = vec![(AttributeType::HitPoints, 50)];
    let enemy_bundle = counterbalance::character::CharacterBundle::new(
        "mushroom",
        counterbalance::character::CharacterCategory::Fungus,
        &Vec::<Ability>::new(),
        &attrs,
        Group::Enemy,
    );
    let combatants = vec![counterbalance::lifecycle::Combatant {
        bundle: enemy_bundle,
        life: LifeState::Alive,
    }];
    let tt_empty = target_type_of(&combatants, None);
    assert_eq!(tt_empty, AbilityTargetType::Empty);
    let tt_enemy = target_type_of(&combatants, Some(0));
    assert_eq!(tt_enemy, AbilityTargetType::Enemy);
    assert!(is_valid_target(slam, tt_enemy, &range, 4));
    assert!(!is_valid_target(slam, tt_empty, &range, 4));
    assert!(!is_valid_target(slam, tt_enemy, &range, 0));
}

#[test]
fn game_state_default_is_the_bare_player() {
    let gs = GameState::default();
    assert_eq!(gs.characters.len(), 1);
    assert_eq!(gs.characters[0].bundle.name.0, "player");
    assert_eq!(gs.characters[0].bundle.group, Group::Player);
    assert!(gs.characters[0].bundle.abilities.0.is_empty());
}
