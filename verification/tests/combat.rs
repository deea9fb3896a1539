use artifactsmmo::api::GameData;
use artifactsmmo::optimize::combat_sim::{
    apply_restore_potions, best_achievable_xph, best_fightable, char_worst_damage,
    minimum_hp_threshold, minimum_hp_threshold_no_potions, monster_worst_damage, restore_potions,
    survives_from, turn_order, BaseDamage, RestorePotion,
};
use artifactsmmo::types::{copy_character, Character, Item, ItemEffect, Monster};

fn blank_character() -> Character {
    Character {
        name: "test".into(), account: "test".into(), skin: "".into(),
        level: 20, xp: 0, max_xp: 0, gold: 0, speed: 0,
        mining_level: 1, mining_xp: 0, mining_max_xp: 0,
        woodcutting_level: 1, woodcutting_xp: 0, woodcutting_max_xp: 0,
        fishing_level: 1, fishing_xp: 0, fishing_max_xp: 0,
        weaponcrafting_level: 1, weaponcrafting_xp: 0, weaponcrafting_max_xp: 0,
        gearcrafting_level: 1, gearcrafting_xp: 0, gearcrafting_max_xp: 0,
        jewelrycrafting_level: 1, jewelrycrafting_xp: 0, jewelrycrafting_max_xp: 0,
        cooking_level: 1, cooking_xp: 0, cooking_max_xp: 0,
        alchemy_level: 1, alchemy_xp: 0, alchemy_max_xp: 0,
        hp: 100, max_hp: 100, haste: 0, critical_strike: 0, wisdom: 0,
        prospecting: 0, initiative: 0, threat: 0,
        attack_fire: 0, attack_earth: 0, attack_water: 0, attack_air: 0,
        dmg: 0, dmg_fire: 0, dmg_earth: 0, dmg_water: 0, dmg_air: 0,
        res_fire: 0, res_earth: 0, res_water: 0, res_air: 0,
        effects: vec![], x: 0, y: 0, layer: "interior".into(), map_id: 0,
        cooldown: 0, cooldown_expiration: None,
        weapon_slot: "".into(), rune_slot: "".into(), shield_slot: "".into(),
        helmet_slot: "".into(), body_armor_slot: "".into(), leg_armor_slot: "".into(),
        boots_slot: "".into(), ring1_slot: "".into(), ring2_slot: "".into(),
        amulet_slot: "".into(), artifact1_slot: "".into(), artifact2_slot: "".into(),
        artifact3_slot: "".into(), utility1_slot: "".into(), utility1_slot_quantity: 0,
        utility2_slot: "".into(), utility2_slot_quantity: 0, bag_slot: "".into(),
        task: "".into(), task_type: "".into(), task_progress: 0, task_total: 0,
        inventory_max_items: 100, inventory: vec![],
    }
}

fn blank_monster() -> Monster {
    Monster {
        name: "test monster".into(), code: "test_monster".into(), level: 20,
        monster_type: "normal".into(), hp: 500,
        attack_fire: 0, attack_earth: 0, attack_water: 0, attack_air: 0,
        res_fire: 0, res_earth: 0, res_water: 0, res_air: 0,
        critical_strike: 0, initiative: 0, effects: vec![],
        min_gold: 0, max_gold: 0, drops: vec![],
    }
}

fn blank_data(items: Vec<Item>) -> GameData {
    GameData { monsters: vec![], items, resources: vec![], maps: vec![], craftable_equip: vec![] }
}

fn element_damage(base_attack: i32, bonus: i32, resistance: i32) -> f64 {
    let attack = (base_attack as f64 * (1.0 + bonus as f64 / 100.0)).round();
    (attack * (1.0 - resistance as f64 / 100.0)).round()
}

fn damage_of(character: &Character, monster: &Monster) -> BaseDamage {
    let c = character;
    let m = monster;
    BaseDamage {
        by_character: (element_damage(c.attack_fire, c.dmg + c.dmg_fire, m.res_fire)
            + element_damage(c.attack_earth, c.dmg + c.dmg_earth, m.res_earth)
            + element_damage(c.attack_water, c.dmg + c.dmg_water, m.res_water)
            + element_damage(c.attack_air, c.dmg + c.dmg_air, m.res_air)) as i32,
        by_monster: (element_damage(m.attack_fire, 0, c.res_fire)
            + element_damage(m.attack_earth, 0, c.res_earth)
            + element_damage(m.attack_water, 0, c.res_water)
            + element_damage(m.attack_air, 0, c.res_air)) as i32,
    }
}

fn health_potion_item(code: &str, restore: i32) -> Item {
    Item {
        name: code.into(), code: code.into(), level: 1, item_type: "utility".into(),
        subtype: "potion".into(), description: "".into(), conditions: vec![],
        effects: vec![ItemEffect { code: "restore".into(), value: restore, description: "".into() }],
        craft: None, tradeable: true, recyclable: false,
    }
}

fn threshold(character: &Character, monster: &Monster, data: &GameData) -> Option<i32> {
    minimum_hp_threshold(character, monster, data, damage_of(character, monster))
}

/// The direct formula, to hold the round-by-round count against.
fn minimum_hp_threshold_closed_form(character: &Character, monster: &Monster) -> Option<i32> {
    let base = damage_of(character, monster);
    let char_dmg = char_worst_damage(character, base.by_character) as f64 / 2.0;
    let mon_dmg = monster_worst_damage(monster, base.by_monster) as f64 / 2.0;
    if char_dmg <= 0.0 { return None; }
    let char_first = turn_order(character.initiative, character.max_hp, monster).unwrap_or_default();
    let rounds_to_kill = (monster.hp as f64 / char_dmg).ceil() as i32;
    if rounds_to_kill > 100 { return None; }
    let monster_hits = if char_first { rounds_to_kill - 1 } else { rounds_to_kill };
    let damage_taken = monster_hits as f64 * mon_dmg;
    Some((damage_taken + 1.0).ceil() as i32)
}

#[test]
fn turn_by_turn_matches_closed_form_across_scenarios() {
    let scenarios: Vec<(i32, i32, i32, i32, i32)> = vec![
        // (char attack_fire, char initiative, monster hp, monster attack_fire, monster initiative)
        (500, 100, 500, 10, 0),   // character much faster, kills in 1 hit
        (100, 100, 500, 10, 0),   // several rounds, character first
        (100, 0, 500, 10, 100),   // several rounds, monster first
        (100, 0, 500, 10, 0),     // exact tie -> monster-first pessimistic default
        (17, 50, 1000, 25, 50),   // long fight, near the 100-round edge
        (0, 100, 500, 10, 0),     // character deals no damage -> unwinnable
    ];

    for (atk, init, hp, matk, minit) in scenarios {
        let mut character = blank_character();
        character.attack_fire = atk;
        character.initiative = init;

        let mut monster = blank_monster();
        monster.hp = hp;
        monster.attack_fire = matk;
        monster.initiative = minit;

        let expected = minimum_hp_threshold_closed_form(&character, &monster);
        let actual = threshold(&character, &monster, &blank_data(vec![]));
        assert_eq!(actual, expected, "mismatch for atk={atk} init={init} hp={hp} matk={matk} minit={minit}");
    }
}

#[test]
fn turn_by_turn_gives_up_past_100_rounds() {
    let mut character = blank_character();
    character.attack_fire = 1; // negligible damage vs a huge HP pool
    let mut monster = blank_monster();
    monster.hp = 100_000;
    monster.attack_fire = 5;
    assert_eq!(threshold(&character, &monster, &blank_data(vec![])), None);
}

/// A monster that is unsurvivable without healing becomes survivable with a health potion.
#[test]
fn health_potion_unlocks_otherwise_unsurvivable_monster() {
    let mut character = blank_character();
    character.attack_fire = 26; // kills a 500hp monster in ~20 rounds
    character.max_hp = 100;
    character.utility1_slot = "small_health_potion".into();
    character.utility1_slot_quantity = 10;

    let mut monster = blank_monster();
    monster.hp = 500;
    monster.attack_fire = 15; // lethal cumulative damage without healing
    monster.initiative = 100; // monster always goes first

    let data = blank_data(vec![health_potion_item("small_health_potion", 30)]);

    let without_potion = {
        let mut bare = copy_character(&character);
        bare.utility1_slot = "".into();
        bare.utility1_slot_quantity = 0;
        threshold(&bare, &monster, &data)
    };
    let with_potion = threshold(&character, &monster, &data);

    assert!(with_potion.is_some(), "expected the potion to make this monster survivable");
    assert!(
        with_potion.unwrap() < without_potion.unwrap_or(i32::MAX),
        "potion should lower (or unlock) the survivable HP threshold: with={:?} without={:?}",
        with_potion, without_potion,
    );
}

/// Hit points in the unit the fight is counted in.
fn halves(hp: f64) -> i64 {
    (hp * 2.0) as i64
}

/// A potion heals below half of the maximum only, up to the maximum, one charge at a time.
#[test]
fn apply_restore_potions_respects_threshold_cap_and_charges() {
    let mut potions = vec![RestorePotion { value: 30, quantity: 2 }];

    // At/above 50% of max_hp (100) -> no heal, no charge spent.
    assert_eq!(apply_restore_potions(halves(60.0), halves(100.0), &mut potions), halves(60.0));
    assert_eq!(potions[0].quantity, 2);

    // Below 50% -> heals by the potion's value and consumes a charge.
    assert_eq!(apply_restore_potions(halves(10.0), halves(100.0), &mut potions), halves(40.0));
    assert_eq!(potions[0].quantity, 1);

    // Healing is capped at max_hp even if the raw restore would overshoot it.
    assert_eq!(apply_restore_potions(halves(15.0), halves(40.0), &mut potions), halves(40.0));
    assert_eq!(potions[0].quantity, 0);

    // Out of charges -> no more healing, even while still below the threshold.
    assert_eq!(apply_restore_potions(halves(10.0), halves(100.0), &mut potions), halves(10.0));
}

#[test]
fn worst_case_crits() {
    let mut character = blank_character();
    assert_eq!(char_worst_damage(&character, 10), halves(10.0));
    character.critical_strike = 100;
    assert_eq!(char_worst_damage(&character, 11), halves(16.5));
    let mut monster = blank_monster();
    assert_eq!(monster_worst_damage(&monster, 10), halves(10.0));
    monster.critical_strike = 1;
    assert_eq!(monster_worst_damage(&monster, 11), halves(16.5));
}

#[test]
fn turn_order_goes_by_initiative_then_hit_points() {
    let mut monster = blank_monster();
    monster.initiative = 10;
    assert_eq!(turn_order(11, 1, &monster), Some(true));
    assert_eq!(turn_order(9, 1000, &monster), Some(false));
    assert_eq!(turn_order(10, 501, &monster), Some(true));
    assert_eq!(turn_order(10, 499, &monster), Some(false));
    assert_eq!(turn_order(10, 500, &monster), None);
}

#[test]
fn only_stocked_restore_potions_count() {
    let data = blank_data(vec![health_potion_item("potion", 30)]);
    let mut character = blank_character();
    character.utility1_slot = "potion".into();
    character.utility2_slot = "potion".into();
    character.utility2_slot_quantity = 4;
    let potions = restore_potions(&character, &data);
    assert_eq!(potions.len(), 1);
    assert_eq!((potions[0].value, potions[0].quantity), (30, 4));
}

#[test]
fn the_threshold_is_a_boundary() {
    // 20 damage a round for 4 rounds, the monster first.
    let bare: Vec<RestorePotion> = vec![];
    let need = minimum_hp_threshold_no_potions(halves(25.0), halves(20.0), halves(100.0), false).unwrap();
    assert_eq!(need, 81);
    assert!(survives_from(need, 200, halves(25.0), halves(20.0), halves(100.0), false, &bare));
    assert!(!survives_from(need - 1, 200, halves(25.0), halves(20.0), halves(100.0), false, &bare));
    // With the first strike the character takes one hit less.
    assert_eq!(minimum_hp_threshold_no_potions(halves(25.0), halves(20.0), halves(100.0), true), Some(61));
    // Half a point of damage still rounds up.
    assert_eq!(minimum_hp_threshold_no_potions(halves(25.0), halves(1.5), halves(25.0), false), Some(3));
}

#[test]
fn a_late_heal_can_cost_the_fight() {
    // At 49 of 100 the potion heals before the blow of 60; at 50 it does not.
    let potions = vec![RestorePotion { value: 40, quantity: 1 }];
    assert!(survives_from(49, 100, halves(25.0), halves(60.0), halves(25.0), false, &potions));
    assert!(!survives_from(50, 100, halves(25.0), halves(60.0), halves(25.0), false, &potions));
}

#[test]
fn threshold_with_potions_is_the_least_that_wins() {
    // Below half of 100 the potion heals before the blow of 60: 31 is enough, though 60 is not.
    let data = blank_data(vec![health_potion_item("potion", 30)]);
    let mut character = blank_character();
    character.attack_fire = 1000;
    character.max_hp = 100;
    character.utility1_slot = "potion".into();
    character.utility1_slot_quantity = 1;
    let mut monster = blank_monster();
    monster.hp = 1;
    monster.attack_fire = 60;
    monster.initiative = 100;
    assert_eq!(threshold(&character, &monster, &data), Some(31));
    let potions = vec![RestorePotion { value: 30, quantity: 1 }];
    for hp in 1..31 {
        assert!(!survives_from(hp, 100, halves(1000.0), halves(60.0), halves(1.0), false, &potions));
    }
    assert!(!survives_from(60, 100, halves(1000.0), halves(60.0), halves(1.0), false, &potions));
    // A blow of 100 is more than full hit points stand.
    monster.attack_fire = 100;
    assert_eq!(threshold(&character, &monster, &data), None);
    monster.attack_fire = 60;
    // At a maximum of 0 a character that is struck first falls; one that strikes first wins at
    // once, and the threshold is 1 all the same.
    character.max_hp = 0;
    assert_eq!(threshold(&character, &monster, &data), None);
    character.initiative = 200;
    assert_eq!(threshold(&character, &monster, &data), Some(1));
}

#[test]
fn more_hp_than_the_threshold_may_lose_again() {
    // Three blows of 30. From 71 two heals of 10 come in time; from 80 only one does.
    let data = blank_data(vec![health_potion_item("potion", 10)]);
    let mut character = blank_character();
    character.attack_fire = 10;
    character.max_hp = 100;
    character.utility1_slot = "potion".into();
    character.utility1_slot_quantity = 10;
    let mut monster = blank_monster();
    monster.hp = 30;
    monster.attack_fire = 30;
    monster.initiative = 100;
    assert_eq!(threshold(&character, &monster, &data), Some(71));
    let potions = vec![RestorePotion { value: 10, quantity: 10 }];
    assert!(!survives_from(70, 100, halves(10.0), halves(30.0), halves(30.0), false, &potions));
    assert!(survives_from(71, 100, halves(10.0), halves(30.0), halves(30.0), false, &potions));
    assert!(!survives_from(80, 100, halves(10.0), halves(30.0), halves(30.0), false, &potions));
    // What wins without potions wins with them, and so does all above it.
    let none: Vec<RestorePotion> = vec![];
    assert!(survives_from(91, 100, halves(10.0), halves(30.0), halves(30.0), false, &none));
    for hp in 91..101 {
        assert!(survives_from(hp, 100, halves(10.0), halves(30.0), halves(30.0), false, &potions));
    }
}

#[test]
fn best_fight_is_the_best_that_is_sure_to_be_won() {
    let mut data = blank_data(vec![]);
    data.monsters = vec![blank_monster(), blank_monster(), blank_monster()];
    let character = blank_character();
    let damage = [
        BaseDamage { by_character: 500, by_monster: 1 },
        BaseDamage { by_character: 500, by_monster: 1 },
        BaseDamage { by_character: 1, by_monster: 1 },
    ];
    // The last of the best; the third would take 500 rounds.
    assert_eq!(best_fightable(&character, &data, &damage, &[7, 7, 99]), Some(1));
    assert_eq!(best_achievable_xph(&character, &data, &damage, &[7, 6, 99]), 7);
    let hopeless = [
        BaseDamage { by_character: 0, by_monster: 1 },
        BaseDamage { by_character: 0, by_monster: 1 },
        BaseDamage { by_character: 0, by_monster: 1 },
    ];
    assert_eq!(best_fightable(&character, &data, &hopeless, &[7, 7, 99]), None);
    assert_eq!(best_achievable_xph(&character, &data, &hopeless, &[7, 6, 99]), 0);
}
