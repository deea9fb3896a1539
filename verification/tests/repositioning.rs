use artifactsmmo::api::GameData;
use artifactsmmo::flags::GameState;
use artifactsmmo::loops::repositioning::{
    all_locations, find_fight_target, should_farm_wishlist_drops, wishlist_material_codes, Pursuit,
};
use artifactsmmo::optimize::combat_sim::BaseDamage;
use artifactsmmo::optimize::targeting::GatherTarget;
use artifactsmmo::types::{Character, CraftInfo, CraftIngredient, Item, Monster, MonsterDrop};

fn blank_character() -> Character {
    Character {
        name: "test".into(), account: "test".into(), skin: "".into(),
        level: 1, xp: 0, max_xp: 0, gold: 0, speed: 0,
        mining_level: 1, mining_xp: 0, mining_max_xp: 0,
        woodcutting_level: 1, woodcutting_xp: 0, woodcutting_max_xp: 0,
        fishing_level: 1, fishing_xp: 0, fishing_max_xp: 0,
        weaponcrafting_level: 1, weaponcrafting_xp: 0, weaponcrafting_max_xp: 0,
        gearcrafting_level: 1, gearcrafting_xp: 0, gearcrafting_max_xp: 0,
        jewelrycrafting_level: 1, jewelrycrafting_xp: 0, jewelrycrafting_max_xp: 0,
        cooking_level: 1, cooking_xp: 0, cooking_max_xp: 0,
        alchemy_level: 1, alchemy_xp: 0, alchemy_max_xp: 0,
        hp: 100, max_hp: 100, haste: 0, critical_strike: 0, wisdom: 0,
        prospecting: 0, initiative: 0, threat: 0,
        attack_fire: 0, attack_earth: 0, attack_water: 0, attack_air: 0,
        dmg: 0, dmg_fire: 0, dmg_earth: 0, dmg_water: 0, dmg_air: 0,
        res_fire: 0, res_earth: 0, res_water: 0, res_air: 0,
        effects: vec![], x: 0, y: 0, layer: "interior".into(), map_id: 0,
        cooldown: 0, cooldown_expiration: None,
        weapon_slot: "".into(), rune_slot: "".into(), shield_slot: "".into(),
        helmet_slot: "".into(), body_armor_slot: "".into(), leg_armor_slot: "".into(),
        boots_slot: "".into(), ring1_slot: "".into(), ring2_slot: "".into(),
        amulet_slot: "".into(), artifact1_slot: "".into(), artifact2_slot: "".into(),
        artifact3_slot: "".into(), utility1_slot: "".into(), utility1_slot_quantity: 0,
        utility2_slot: "".into(), utility2_slot_quantity: 0, bag_slot: "".into(),
        task: "".into(), task_type: "".into(), task_progress: 0, task_total: 0,
        inventory_max_items: 100, inventory: vec![],
    }
}

fn blank_data(items: Vec<Item>) -> GameData {
    GameData { monsters: vec![], items, resources: vec![], maps: vec![], craftable_equip: vec![] }
}

fn make_craft_item(code: &str, ingredients: Vec<(&str, i32)>) -> Item {
    Item {
        name: code.into(), code: code.into(), level: 1, item_type: "weapon".into(),
        subtype: "".into(), description: "".into(), conditions: vec![], effects: vec![],
        craft: Some(CraftInfo {
            skill: Some("weaponcrafting".into()),
            level: None,
            items: ingredients.into_iter().map(|(c, q)| CraftIngredient { code: c.into(), quantity: q }).collect(),
            quantity: 1,
        }),
        tradeable: true, recyclable: false,
    }
}

fn blank_monster() -> Monster {
    Monster {
        name: "test monster".into(), code: "test_monster".into(), level: 20,
        monster_type: "normal".into(), hp: 500,
        attack_fire: 0, attack_earth: 0, attack_water: 0, attack_air: 0,
        res_fire: 0, res_earth: 0, res_water: 0, res_air: 0,
        critical_strike: 0, initiative: 0, effects: vec![],
        min_gold: 0, max_gold: 0, drops: vec![],
    }
}

#[test]
fn should_farm_wishlist_drops_uses_global_subtier_not_raw_level() {
    let mut state = GameState::new(blank_data(vec![]));
    state.set_crafter_min_gear_level(10); // global_subtier(10) = 2

    let mut character = blank_character();
    character.level = 14; // global_subtier(14) = 2 -- same subtier, not strictly past it
    assert!(!should_farm_wishlist_drops(&character, &state));

    character.level = 15; // global_subtier(15) = 3 -- strictly past
    assert!(should_farm_wishlist_drops(&character, &state));
}

#[test]
fn wishlist_material_codes_resolves_direct_ingredients_only() {
    let data = blank_data(vec![make_craft_item("iron_sword", vec![("iron_bar", 2), ("wood", 1)])]);
    let state = GameState::new(data);

    let mut codes = wishlist_material_codes(&state, &["iron_sword".to_string()]);
    codes.sort();

    assert_eq!(codes, ["iron_bar".to_string(), "wood".to_string()]);
}

#[test]
fn wishlist_material_codes_ignores_unknown_item_codes() {
    let state = GameState::new(blank_data(vec![]));
    let codes = wishlist_material_codes(&state, &["does_not_exist".to_string()]);
    assert!(codes.is_empty());
}

#[test]
fn fight_target_is_for_gear_then_alchemy_then_xp() {
    let dropper = |code: &str, drop: &str| Monster {
        code: code.into(), name: code.into(), hp: 1,
        drops: vec![MonsterDrop { code: drop.into(), rate: 1, min_quantity: 1, max_quantity: 1 }],
        ..blank_monster()
    };
    let mut data = blank_data(vec![
        make_craft_item("iron_sword", vec![("iron_bar", 2)]),
        make_craft_item("potion", vec![("herb", 2)]),
    ]);
    data.monsters = vec![dropper("golem", "iron_bar"), dropper("shrub", "herb"), dropper("rich", "coin")];
    let damage = || vec![
        BaseDamage { by_character: 10, by_monster: 0 },
        BaseDamage { by_character: 10, by_monster: 0 },
        BaseDamage { by_character: 10, by_monster: 0 },
    ];
    let xph: Vec<i64> = vec![1, 2, 3];
    let yields: Vec<Vec<i64>> = vec![vec![5], vec![5], vec![5]];
    let mut state = GameState::new(data);
    let mut character = blank_character();
    character.level = 20;
    let (why, target) = find_fight_target(&character, &state, &damage(), &xph, &yields).unwrap();
    assert_eq!((why, target.code.as_str()), (Pursuit::Xp, "rich"));
    state.set_wishlist("crafter", vec![], vec!["potion".into()]);
    let (why, target) = find_fight_target(&character, &state, &damage(), &xph, &yields).unwrap();
    assert_eq!((why, target.code.as_str()), (Pursuit::AlchemyMaterials, "shrub"));
    state.set_wishlist("crafter", vec!["iron_sword".into()], vec!["potion".into()]);
    let (why, target) = find_fight_target(&character, &state, &damage(), &xph, &yields).unwrap();
    assert_eq!((why, target.code.as_str()), (Pursuit::GearMaterials, "golem"));
    // A fighter that has not outgrown the crafter goes for XP.
    character.level = 4;
    let (why, _) = find_fight_target(&character, &state, &damage(), &xph, &yields).unwrap();
    assert_eq!(why, Pursuit::Xp);
}

#[test]
fn locations_of_all_targets_are_listed() {
    let target = |code: &str, x: i32| GatherTarget {
        code: code.into(), name: code.into(), avg_xp_per_hour: 1,
        locations: vec![("overworld".to_string(), x, 0), ("overworld".to_string(), x, 1)],
        drops: vec![],
    };
    let locs = all_locations(&[target("a", 1), target("b", 2)]);
    assert_eq!(locs.len(), 4);
    assert_eq!(locs[2], ("overworld".to_string(), 2, 0));
}
