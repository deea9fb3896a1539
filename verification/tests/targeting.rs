use artifactsmmo::api::GameData;
use artifactsmmo::formulas::{level_penalty_tier, monster_multiplier};
use artifactsmmo::optimize::combat_sim::{turn_order, BaseDamage};
use artifactsmmo::optimize::gathering_sim::{
    best_refining_recipe_for, is_dropped, is_ingredient_of, raw_needed_per_refine, stats_with,
    stats_without, total_gathering_cooldown_pct,
};
use artifactsmmo::optimize::targeting::{
    find_best_material_drop_target, find_optimal_crafting, find_optimal_gathering, tied_targets,
    find_optimal_monster, gathering_candidates, locations_raw_for, MonsterTarget,
};
use artifactsmmo::optimize::{refining_skill_for, skill_level, skill_xp_progress};
use artifactsmmo::types::{
    Character, CraftInfo, CraftIngredient, Item, ItemEffect, MapAccess, MapContent, MapInteractions,
    MapTile, Monster, MonsterDrop, Resource,
};

fn blank_character() -> Character {
    Character {
        name: "test".into(), account: "test".into(), skin: "".into(),
        level: 20, xp: 0, max_xp: 0, gold: 0, speed: 0,
        mining_level: 1, mining_xp: 0, mining_max_xp: 0,
        woodcutting_level: 1, woodcutting_xp: 0, woodcutting_max_xp: 0,
        fishing_level: 1, fishing_xp: 0, fishing_max_xp: 0,
        weaponcrafting_level: 1, weaponcrafting_xp: 0, weaponcrafting_max_xp: 0,
        gearcrafting_level: 1, gearcrafting_xp: 0, gearcrafting_max_xp: 0,
        jewelrycrafting_level: 1, jewelrycrafting_xp: 0, jewelrycrafting_max_xp: 0,
        cooking_level: 1, cooking_xp: 0, cooking_max_xp: 0,
        alchemy_level: 1, alchemy_xp: 0, alchemy_max_xp: 0,
        hp: 100, max_hp: 100, haste: 0, critical_strike: 0, wisdom: 0,
        prospecting: 0, initiative: 0, threat: 0,
        attack_fire: 1000, attack_earth: 0, attack_water: 0, attack_air: 0,
        dmg: 0, dmg_fire: 0, dmg_earth: 0, dmg_water: 0, dmg_air: 0,
        res_fire: 0, res_earth: 0, res_water: 0, res_air: 0,
        effects: vec![], x: 0, y: 0, layer: "interior".into(), map_id: 0,
        cooldown: 0, cooldown_expiration: None,
        weapon_slot: "".into(), rune_slot: "".into(), shield_slot: "".into(),
        helmet_slot: "".into(), body_armor_slot: "".into(), leg_armor_slot: "".into(),
        boots_slot: "".into(), ring1_slot: "".into(), ring2_slot: "".into(),
        amulet_slot: "".into(), artifact1_slot: "".into(), artifact2_slot: "".into(),
        artifact3_slot: "".into(), utility1_slot: "".into(), utility1_slot_quantity: 0,
        utility2_slot: "".into(), utility2_slot_quantity: 0, bag_slot: "".into(),
        task: "".into(), task_type: "".into(), task_progress: 0, task_total: 0,
        inventory_max_items: 100, inventory: vec![],
    }
}

fn blank_monster(code: &str, hp: i32) -> Monster {
    Monster {
        name: code.into(), code: code.into(), level: 1,
        monster_type: "normal".into(), hp,
        attack_fire: 0, attack_earth: 0, attack_water: 0, attack_air: 0,
        res_fire: 0, res_earth: 0, res_water: 0, res_air: 0,
        critical_strike: 0, initiative: 0, effects: vec![],
        min_gold: 0, max_gold: 0, drops: vec![],
    }
}

fn blank_data(monsters: Vec<Monster>) -> GameData {
    GameData { monsters, items: vec![], resources: vec![], maps: vec![], craftable_equip: vec![] }
}

/// An integer that is ordered as the number is.
fn key(x: f64) -> i64 {
    if x >= 0.0 { x.to_bits() as i64 } else { -((-x).to_bits() as i64) }
}

fn element_damage(base_attack: i32, bonus: i32, resistance: i32) -> f64 {
    let attack = (base_attack as f64 * (1.0 + bonus as f64 / 100.0)).round();
    (attack * (1.0 - resistance as f64 / 100.0)).round()
}

fn damage_of(character: &Character, monster: &Monster) -> BaseDamage {
    let c = character;
    let m = monster;
    BaseDamage {
        by_character: (element_damage(c.attack_fire, c.dmg + c.dmg_fire, m.res_fire)
            + element_damage(c.attack_earth, c.dmg + c.dmg_earth, m.res_earth)
            + element_damage(c.attack_water, c.dmg + c.dmg_water, m.res_water)
            + element_damage(c.attack_air, c.dmg + c.dmg_air, m.res_air)) as i32,
        by_monster: (element_damage(m.attack_fire, 0, c.res_fire)
            + element_damage(m.attack_earth, 0, c.res_earth)
            + element_damage(m.attack_water, 0, c.res_water)
            + element_damage(m.attack_air, 0, c.res_air)) as i32,
    }
}

/// The XP per hour of fighting a monster without potions.
fn evaluate_average(character: &Character, monster: &Monster) -> f64 {
    let base = damage_of(character, monster);
    let char_dmg = base.by_character as f64 * (1.0 + 0.5 * character.critical_strike as f64 / 100.0);
    let mon_dmg = base.by_monster as f64 * (1.0 + 0.5 * monster.critical_strike as f64 / 100.0);
    let gap = level_penalty_tier(character.level - monster.level) as f64 / 10.0;
    let kind = monster_multiplier(monster) as f64 / 10.0;
    let level = (monster.level as f64 / character.level as f64) * 20.0 + monster.hp as f64 * 0.04;
    let xp = (level * gap * kind * (1.0 + character.wisdom as f64 * 0.001)).round();
    let sim = |char_first: bool| -> f64 {
        let mut char_hp = character.max_hp as f64;
        let mut monster_hp = monster.hp as f64;
        for round in 1..=100 {
            if !char_first {
                char_hp -= mon_dmg;
                if char_hp <= 0.0 { return 0.0; }
            }
            monster_hp -= char_dmg;
            if monster_hp <= 0.0 {
                let base = round as f64 * 2.0;
                let cooldown = base - (character.haste as f64 * 0.01) * base;
                return if cooldown <= 0.0 { 0.0 } else { xp / (cooldown / 3600.0) };
            }
            if char_first {
                char_hp -= mon_dmg;
                if char_hp <= 0.0 { return 0.0; }
            }
        }
        0.0
    };
    match turn_order(character.initiative, character.max_hp, monster) {
        Some(char_first) => sim(char_first),
        None => 0.5 * sim(true) + 0.5 * sim(false),
    }
}

fn average_drop_yield(drop: &MonsterDrop, prospecting: i32) -> f64 {
    let probability = (1.0 / drop.rate.max(1) as f64) * (1.0 + prospecting as f64 / 1000.0);
    probability * ((drop.min_quantity + drop.max_quantity) as f64 / 2.0)
}

fn drop_target(character: &Character, data: &GameData, materials: &[String]) -> Option<MonsterTarget> {
    let damage: Vec<BaseDamage> = data.monsters.iter().map(|m| damage_of(character, m)).collect();
    let xph: Vec<i64> = data.monsters.iter().map(|m| key(evaluate_average(character, m))).collect();
    let yields: Vec<Vec<i64>> = data.monsters.iter()
        .map(|m| m.drops.iter().map(|d| key(average_drop_yield(d, character.prospecting))).collect())
        .collect();
    find_best_material_drop_target(character, data, materials, &damage, &xph, &yields)
}

#[test]
fn find_best_material_drop_target_ignores_monsters_that_cant_be_beaten() {
    let mut too_tough = blank_monster("too_tough", 10_000); // enough HP that 1 hit doesn't end it
    too_tough.attack_fire = 1_000_000; // guaranteed-lethal hit
    too_tough.initiative = 1_000; // guaranteed to go first
    too_tough.drops = vec![MonsterDrop { code: "ore".into(), rate: 1, min_quantity: 1, max_quantity: 1 }];

    let mut beatable = blank_monster("beatable", 1);
    beatable.drops = vec![MonsterDrop { code: "ore".into(), rate: 5, min_quantity: 1, max_quantity: 1 }];

    let data = blank_data(vec![too_tough, beatable]);
    let character = blank_character();
    let materials = ["ore".to_string()];

    let target = drop_target(&character, &data, &materials);
    assert_eq!(target.map(|t| t.code), Some("beatable".to_string()));
}

#[test]
fn find_best_material_drop_target_prefers_the_better_drop_rate() {
    let mut common = blank_monster("common_dropper", 1);
    common.drops = vec![MonsterDrop { code: "ore".into(), rate: 2, min_quantity: 1, max_quantity: 1 }]; // 1/2 chance
    let mut rare = blank_monster("rare_dropper", 1);
    rare.drops = vec![MonsterDrop { code: "ore".into(), rate: 100, min_quantity: 1, max_quantity: 1 }]; // 1/100 chance

    let data = blank_data(vec![rare, common]);
    let character = blank_character();
    let materials = ["ore".to_string()];

    let target = drop_target(&character, &data, &materials);
    assert_eq!(target.map(|t| t.code), Some("common_dropper".to_string()), "lower rate = more common = better");
}

#[test]
fn find_best_material_drop_target_ignores_unrelated_drops() {
    let mut monster = blank_monster("irrelevant_dropper", 1);
    monster.drops = vec![MonsterDrop { code: "junk".into(), rate: 1, min_quantity: 1, max_quantity: 1 }];

    let data = blank_data(vec![monster]);
    let character = blank_character();
    let materials = ["ore".to_string()];

    assert!(drop_target(&character, &data, &materials).is_none());
}

#[test]
fn find_best_material_drop_target_none_when_material_set_is_empty() {
    let mut monster = blank_monster("dropper", 1);
    monster.drops = vec![MonsterDrop { code: "ore".into(), rate: 1, min_quantity: 1, max_quantity: 1 }];

    let data = blank_data(vec![monster]);
    let character = blank_character();

    assert!(drop_target(&character, &data, &[]).is_none());
}

fn tile(x: i32, content_type: &str, code: &str) -> MapTile {
    MapTile {
        map_id: x, name: "place".into(), skin: "".into(), x, y: 3, layer: "overworld".into(),
        access: Some(MapAccess { access_type: "standard".into(), conditions: vec![] }),
        interactions: Some(MapInteractions {
            content: Some(MapContent { content_type: content_type.into(), code: code.into() }),
            transition: None,
        }),
    }
}

#[test]
fn optimal_monster_knows_where_to_find_it() {
    let mut data = blank_data(vec![blank_monster("slow", 900), blank_monster("quick", 900)]);
    data.maps = vec![tile(5, "monster", "quick"), tile(6, "resource", "quick"), tile(7, "monster", "slow")];
    let damage = [
        BaseDamage { by_character: 10, by_monster: 2 },
        BaseDamage { by_character: 100, by_monster: 2 },
    ];
    let t = find_optimal_monster(&blank_character(), &data, &damage, &[10, 90]).unwrap();
    assert_eq!((t.code.as_str(), t.avg_xp_per_hour), ("quick", 90));
    // Nine rounds; the monster has more hit points, so it strikes first, nine times for 2.
    assert_eq!(t.min_hp_threshold, 19);
    assert_eq!(t.locations, vec![("overworld".to_string(), 5, 3)]);
    assert_eq!(locations_raw_for(&data.maps, "resource", "quick").len(), 1);
    let none = [
        BaseDamage { by_character: 0, by_monster: 2 },
        BaseDamage { by_character: 0, by_monster: 2 },
    ];
    assert!(find_optimal_monster(&blank_character(), &data, &none, &[10, 90]).is_none());
}

fn resource(code: &str, level: i32, drops: Vec<&str>) -> Resource {
    Resource {
        name: code.into(), code: code.into(), skill: "mining".into(), level,
        drops: drops.into_iter().map(|c| MonsterDrop { code: c.into(), rate: 1, min_quantity: 1, max_quantity: 1 }).collect(),
    }
}

#[test]
fn gathering_offers_every_tied_resource() {
    let mut data = blank_data(vec![]);
    data.resources = vec![resource("copper", 1, vec![]), resource("iron", 5, vec![]), resource("coal", 5, vec![]), resource("gold", 30, vec![])];
    let mut character = blank_character();
    character.mining_level = 7;
    let xph = [10, 50, 50, 900];
    let order = gathering_candidates(&data, &character, "mining", &xph);
    assert_eq!(order, vec![1, 2, 0]);
    let best = tied_targets(&data, &xph, &order, &[true, true, false]);
    let codes: Vec<&str> = best.iter().map(|t| t.code.as_str()).collect();
    assert_eq!(codes, ["iron", "coal"]);
    // Where the first is marked, it comes first.
    assert_eq!(best[0].code, data.resources[order[0]].code);
    // The same from the character, with ties told by the ranks.
    let best = find_optimal_gathering(&data, &character, "mining", &xph, &|a: usize, b: usize| xph[a] == xph[b]);
    let codes: Vec<&str> = best.iter().map(|t| t.code.as_str()).collect();
    assert_eq!(codes, ["iron", "coal"]);
    assert_eq!(best[0].avg_xp_per_hour, 50);
    // Gold ranks higher, but is beyond the character's level; with it reached, it stands alone.
    character.mining_level = 30;
    let best = find_optimal_gathering(&data, &character, "mining", &xph, &|a: usize, b: usize| xph[a] == xph[b]);
    let codes: Vec<&str> = best.iter().map(|t| t.code.as_str()).collect();
    assert_eq!(codes, ["gold"]);
    assert!(find_optimal_gathering(&data, &character, "fishing", &xph, &|_: usize, _: usize| true).is_empty());
    assert!(gathering_candidates(&data, &character, "fishing", &xph).is_empty());
}

fn recipe(code: &str, level: i32, ingredients: Vec<(&str, i32)>) -> Item {
    Item {
        name: code.into(), code: code.into(), level, item_type: "resource".into(),
        subtype: "".into(), description: "".into(), conditions: vec![], effects: vec![],
        craft: Some(CraftInfo {
            skill: Some("mining".into()), level: Some(level),
            items: ingredients.into_iter().map(|(c, q)| CraftIngredient { code: c.into(), quantity: q }).collect(),
            quantity: 1,
        }),
        tradeable: true, recyclable: false,
    }
}

#[test]
fn refining_takes_the_highest_recipe_within_reach() {
    let mut data = blank_data(vec![]);
    data.items = vec![
        recipe("copper_bar", 1, vec![("copper_ore", 10)]),
        recipe("steel_bar", 20, vec![("iron_ore", 3), ("copper_ore", 7), ("spice", 1)]),
        recipe("wonder_bar", 45, vec![("copper_ore", 7)]),
        recipe("plank", 30, vec![("wood", 7)]),
    ];
    let rock = resource("rock", 1, vec!["copper_ore", "iron_ore"]);
    assert_eq!(best_refining_recipe_for(&data, "mining", 40, &rock), Some(1));
    assert_eq!(best_refining_recipe_for(&data, "mining", 19, &rock), Some(0));
    assert_eq!(best_refining_recipe_for(&data, "cooking", 40, &rock), None);
    let steel = data.items[1].craft.as_ref().unwrap();
    assert_eq!(raw_needed_per_refine(steel, &rock), 10);
    assert!(is_ingredient_of(steel, "spice") && !is_ingredient_of(steel, "wood"));
    assert!(is_dropped(&rock.drops, "iron_ore") && !is_dropped(&rock.drops, "spice"));
}

#[test]
fn gathering_gear_counts_once() {
    let mut data = blank_data(vec![]);
    let mut pick = recipe("pickaxe", 1, vec![]);
    pick.effects = vec![
        ItemEffect { code: "mining".into(), value: -10, description: "".into() },
        ItemEffect { code: "wisdom".into(), value: 5, description: "".into() },
    ];
    let mut drill = recipe("drill", 1, vec![]);
    drill.effects = vec![ItemEffect { code: "mining".into(), value: -30, description: "".into() }];
    data.items = vec![pick, drill];
    let mut character = blank_character();
    character.weapon_slot = "pickaxe".into();
    character.wisdom = 8;
    let total = total_gathering_cooldown_pct(&character, &data, "mining");
    assert_eq!(total, -10);
    let bare = stats_without(&character, total, Some(&data.items[0]), "mining");
    assert_eq!((bare.wisdom, bare.cooldown_pct, bare.prospecting), (3, 0, 0));
    let with = stats_with(bare, &data.items[1], "mining");
    assert_eq!((with.wisdom, with.cooldown_pct, with.prospecting), (3, -30, 0));
}

#[test]
fn crafting_is_ranked_by_xp_per_ingredient() {
    let mut data = blank_data(vec![]);
    data.items = vec![
        recipe("a", 1, vec![("x", 4)]),
        recipe("b", 1, vec![("x", 1), ("y", 1)]),
        recipe("none", 1, vec![("x", 1)]),
    ];
    assert_eq!(find_optimal_crafting(&data, "mining", &[100, 60, 0]), vec![1, 0]);
    assert!(find_optimal_crafting(&data, "cooking", &[100, 60, 0]).is_empty());
}

#[test]
fn skills_are_read_by_name() {
    let mut character = blank_character();
    character.cooking_level = 4;
    character.weaponcrafting_level = 6;
    character.weaponcrafting_xp = 30;
    character.weaponcrafting_max_xp = 950;
    assert_eq!(skill_level(&character, "cooking"), 4);
    assert_eq!(skill_level(&character, "juggling"), 1);
    assert_eq!(skill_xp_progress(&character, "weaponcrafting"), (6, 30, 950));
    assert_eq!(refining_skill_for("fishing"), "cooking");
    assert_eq!(refining_skill_for("mining"), "mining");
    assert_eq!(refining_skill_for("alchemy"), "");
}
