use artifactsmmo::api::GameData;
use artifactsmmo::formulas::{level_penalty_tier, monster_multiplier};
use artifactsmmo::optimize::brute_force::{
    best_restart, blank_ratings, combat_candidate_pool, dressed, naked_for_slots, optimize_items,
    rank_candidates, rank_items, replace_ranking, restart, settled_slots, shuffled_order,
    slots_to_search, start_ascent, xorshift_next, SlotCandidates, BRUTE_FORCE_RESTARTS,
};
use artifactsmmo::optimize::combat_sim::{best_fightable, turn_order, BaseDamage};
use artifactsmmo::optimize::eligibility::{
    adjust_combat_stats, character_level_stat, condition_met, item_effect_value, meets_conditions,
};
use artifactsmmo::optimize::loadout_search::{
    climb_from, coordinate_ascent_pass, joint_ratings, rank_touched_slot,
};
use artifactsmmo::optimize::SlotRating;
use artifactsmmo::types::{copy_character, Character, Item, ItemCondition, ItemEffect, Monster};

fn blank_character() -> Character {
    Character {
        name: "test".into(), account: "test".into(), skin: "".into(),
        level: 20, xp: 0, max_xp: 0, gold: 0, speed: 0,
        mining_level: 1, mining_xp: 0, mining_max_xp: 0,
        woodcutting_level: 1, woodcutting_xp: 0, woodcutting_max_xp: 0,
        fishing_level: 1, fishing_xp: 0, fishing_max_xp: 0,
        weaponcrafting_level: 1, weaponcrafting_xp: 0, weaponcrafting_max_xp: 0,
        gearcrafting_level: 1, gearcrafting_xp: 0, gearcrafting_max_xp: 0,
        jewelrycrafting_level: 1, jewelrycrafting_xp: 0, jewelrycrafting_max_xp: 0,
        cooking_level: 1, cooking_xp: 0, cooking_max_xp: 0,
        alchemy_level: 1, alchemy_xp: 0, alchemy_max_xp: 0,
        hp: 100, max_hp: 100, haste: 0, critical_strike: 0, wisdom: 0,
        prospecting: 0, initiative: 0, threat: 0,
        attack_fire: 0, attack_earth: 0, attack_water: 0, attack_air: 0,
        dmg: 0, dmg_fire: 0, dmg_earth: 0, dmg_water: 0, dmg_air: 0,
        res_fire: 0, res_earth: 0, res_water: 0, res_air: 0,
        effects: vec![], x: 0, y: 0, layer: "interior".into(), map_id: 0,
        cooldown: 0, cooldown_expiration: None,
        weapon_slot: "".into(), rune_slot: "".into(), shield_slot: "".into(),
        helmet_slot: "".into(), body_armor_slot: "".into(), leg_armor_slot: "".into(),
        boots_slot: "".into(), ring1_slot: "".into(), ring2_slot: "".into(),
        amulet_slot: "".into(), artifact1_slot: "".into(), artifact2_slot: "".into(),
        artifact3_slot: "".into(), utility1_slot: "".into(), utility1_slot_quantity: 0,
        utility2_slot: "".into(), utility2_slot_quantity: 0, bag_slot: "".into(),
        task: "".into(), task_type: "".into(), task_progress: 0, task_total: 0,
        inventory_max_items: 100, inventory: vec![],
    }
}

fn blank_monster() -> Monster {
    Monster {
        name: "test monster".into(), code: "test_monster".into(), level: 20,
        monster_type: "normal".into(), hp: 500,
        attack_fire: 0, attack_earth: 0, attack_water: 0, attack_air: 0,
        res_fire: 0, res_earth: 0, res_water: 0, res_air: 0,
        critical_strike: 0, initiative: 0, effects: vec![],
        min_gold: 0, max_gold: 0, drops: vec![],
    }
}

/// An integer that is ordered as the number is.
fn key(x: f64) -> i64 {
    if x >= 0.0 { x.to_bits() as i64 } else { -((-x).to_bits() as i64) }
}

fn element_damage(base_attack: i32, bonus: i32, resistance: i32) -> f64 {
    let attack = (base_attack as f64 * (1.0 + bonus as f64 / 100.0)).round();
    (attack * (1.0 - resistance as f64 / 100.0)).round()
}

fn damage_of(character: &Character, monster: &Monster) -> BaseDamage {
    let c = character;
    let m = monster;
    BaseDamage {
        by_character: (element_damage(c.attack_fire, c.dmg + c.dmg_fire, m.res_fire)
            + element_damage(c.attack_earth, c.dmg + c.dmg_earth, m.res_earth)
            + element_damage(c.attack_water, c.dmg + c.dmg_water, m.res_water)
            + element_damage(c.attack_air, c.dmg + c.dmg_air, m.res_air)) as i32,
        by_monster: (element_damage(m.attack_fire, 0, c.res_fire)
            + element_damage(m.attack_earth, 0, c.res_earth)
            + element_damage(m.attack_water, 0, c.res_water)
            + element_damage(m.attack_air, 0, c.res_air)) as i32,
    }
}

/// The XP per hour of fighting a monster without potions.
fn evaluate_average(character: &Character, monster: &Monster) -> f64 {
    let base = damage_of(character, monster);
    let char_dmg = base.by_character as f64 * (1.0 + 0.5 * character.critical_strike as f64 / 100.0);
    let mon_dmg = base.by_monster as f64 * (1.0 + 0.5 * monster.critical_strike as f64 / 100.0);
    let gap = level_penalty_tier(character.level - monster.level) as f64 / 10.0;
    let kind = monster_multiplier(monster) as f64 / 10.0;
    let level = (monster.level as f64 / character.level as f64) * 20.0 + monster.hp as f64 * 0.04;
    let xp = (level * gap * kind * (1.0 + character.wisdom as f64 * 0.001)).round();
    let sim = |char_first: bool| -> f64 {
        let mut char_hp = character.max_hp as f64;
        let mut monster_hp = monster.hp as f64;
        for round in 1..=100 {
            if !char_first {
                char_hp -= mon_dmg;
                if char_hp <= 0.0 { return 0.0; }
            }
            monster_hp -= char_dmg;
            if monster_hp <= 0.0 {
                let base = round as f64 * 2.0;
                let cooldown = base - (character.haste as f64 * 0.01) * base;
                return if cooldown <= 0.0 { 0.0 } else { xp / (cooldown / 3600.0) };
            }
            if char_first {
                char_hp -= mon_dmg;
                if char_hp <= 0.0 { return 0.0; }
            }
        }
        0.0
    };
    match turn_order(character.initiative, character.max_hp, monster) {
        Some(char_first) => sim(char_first),
        None => 0.5 * sim(true) + 0.5 * sim(false),
    }
}

fn make_res_item(code: &str, item_type: &'static str, level: i32, res_code: &str, value: i32) -> Item {
    Item {
        name: code.into(), code: code.into(), level, item_type: item_type.into(),
        subtype: "".into(), description: "".into(), conditions: vec![],
        effects: vec![ItemEffect { code: res_code.into(), value, description: "".into() }],
        craft: None, tradeable: true, recyclable: false,
    }
}

fn best_xph(character: &Character, data: &GameData) -> f64 {
    let damage: Vec<BaseDamage> = data.monsters.iter().map(|m| damage_of(character, m)).collect();
    let xph: Vec<f64> = data.monsters.iter().map(|m| evaluate_average(character, m)).collect();
    let keys: Vec<i64> = xph.iter().map(|x| key(*x)).collect();
    match best_fightable(character, data, &damage, &keys) {
        Some(i) => xph[i],
        None => 0.0,
    }
}

fn rate_combat_item(character: &Character, data: &GameData, current: Option<&Item>, candidate: &Item) -> f64 {
    if !meets_conditions(character, candidate) { return -1.0; }
    let bare = match current {
        Some(item) => adjust_combat_stats(character, item, -1),
        None => copy_character(character),
    };
    best_xph(&adjust_combat_stats(&bare, candidate, 1), data) - best_xph(&bare, data)
}

fn score(naked: &Character, slots: &[SlotCandidates], chosen: &[usize], data: &GameData) -> f64 {
    best_xph(&dressed(naked, slots, chosen, data), data)
}

fn optimize_combat_loadout(character: &Character, data: &GameData) -> Vec<SlotRating> {
    let slots = slots_to_search(character, data, &[false; 13]);
    let naked = naked_for_slots(character, data, &slots);
    let by_score = |chosen: &Vec<usize>| key(score(&naked, &slots, chosen, data));
    let ends: Vec<(Vec<usize>, i64)> =
        (0..BRUTE_FORCE_RESTARTS).map(|seed| climb_from(&slots, seed, &by_score)).collect();
    let scores: Vec<i64> = ends.iter().map(|(_, score)| *score).collect();
    let chosen = &ends[best_restart(&scores)].0;
    let rate = |a: &Vec<usize>, b: &Vec<usize>| {
        key(score(&naked, &slots, a, data) - score(&naked, &slots, b, data))
    };
    joint_ratings(blank_ratings(character), &slots, chosen, &rate)
}

/// A monster that only the resistances of two slots together make survivable, neither of which
/// does alone: the joint search finds the pair.
#[test]
fn brute_force_finds_combo_marginal_analysis_misses() {
    let mut character = blank_character();
    character.attack_fire = 1000; // one-shots the monster regardless of gear
    character.max_hp = 100;

    let mut monster = blank_monster();
    monster.hp = 1;
    // 140 fire dmg at 0% resistance = 140 (dies), at 20% (one item) = 112 (still dies),
    // at 40% (both items) = 84 (survives) — so surviving genuinely requires both items.
    monster.attack_fire = 140;
    monster.initiative = 1000; // monster always goes first, so its hit counts against threshold

    let data = GameData {
        monsters: vec![monster],
        items: vec![
            make_res_item("amulet_res20", "amulet", 20, "res_fire", 20),
            make_res_item("helmet_res20", "helmet", 20, "res_fire", 20),
        ],
        resources: vec![],
        maps: vec![],
        craftable_equip: vec![],
    };

    let amulet_item = data.items.iter().find(|i| i.code == "amulet_res20").unwrap();
    let helmet_item = data.items.iter().find(|i| i.code == "helmet_res20").unwrap();
    assert!(rate_combat_item(&character, &data, None, amulet_item) <= 0.0);
    assert!(rate_combat_item(&character, &data, None, helmet_item) <= 0.0);

    let joint = optimize_combat_loadout(&character, &data);
    let amulet_joint = joint.iter().find(|r| r.slot == "amulet").unwrap();
    let helmet_joint = joint.iter().find(|r| r.slot == "helmet").unwrap();

    assert_eq!(amulet_joint.best_code(), Some("amulet_res20"));
    assert_eq!(helmet_joint.best_code(), Some("helmet_res20"));
}

/// An item that ties with the empty slot is still worn.
#[test]
fn brute_force_prefers_non_empty_on_exact_tie() {
    let mut character = blank_character();
    character.attack_fire = 1000; // one-shots the monster regardless of gear
    character.max_hp = 1000;      // enormous margin — no amount of extra resistance matters

    let monster = blank_monster(); // hp 500, deals 0 damage — win is never in doubt either way

    let data = GameData {
        monsters: vec![monster],
        items: vec![make_res_item("wooden_shield", "shield", 1, "res_fire", 10)],
        resources: vec![],
        maps: vec![],
        craftable_equip: vec![],
    };

    let joint = optimize_combat_loadout(&character, &data);
    let shield = joint.iter().find(|r| r.slot == "shield").unwrap();
    assert_eq!(shield.best_code(), Some("wooden_shield"));
}

/// Utility slots and the bag are no part of the loadout.
#[test]
fn utility_and_bag_slots_are_excluded() {
    let character = blank_character();
    let data = GameData {
        monsters: vec![blank_monster()],
        items: vec![],
        resources: vec![],
        maps: vec![],
        craftable_equip: vec![],
    };

    let ratings = optimize_combat_loadout(&character, &data);
    assert_eq!(ratings.len(), 13);
    assert!(!ratings.iter().any(|r| matches!(r.slot, "utility1" | "utility2" | "bag")));
}

/// An item that ties with the empty slot stays on the ranked list as a fallback.
#[test]
fn rank_touched_slots_keeps_zero_tied_items_as_fallback() {
    let mut character = blank_character();
    character.attack_fire = 1000; // one-shots the monster regardless of gear
    character.max_hp = 100;

    let mut monster = blank_monster();
    monster.hp = 1;
    monster.attack_fire = 120; // lethal at 100 or 105 hp; survivable at 150 hp
    monster.initiative = 1000; // monster always goes first

    let data = GameData {
        monsters: vec![monster],
        items: vec![
            make_res_item("big_boots", "boots", 10, "hp", 50),  // crosses the survivability threshold
            make_res_item("small_boots", "boots", 1, "hp", 5),  // doesn't -- ties exactly with empty
        ],
        resources: vec![],
        maps: vec![],
        craftable_equip: vec![],
    };

    let joint = optimize_combat_loadout(&character, &data);
    let boots = joint.iter().find(|r| r.slot == "boots").unwrap();

    assert_eq!(boots.best_code(), Some("big_boots"));
    let small = boots.ranked.iter().find(|r| r.code == "small_boots");
    assert!(small.is_some(), "small_boots should still be tracked as a zero-value fallback");
    assert_eq!(small.unwrap().rating, 0);
}

#[test]
fn the_pool_starts_with_nothing_and_what_is_worn() {
    let mut hard = make_res_item("hard_helmet", "helmet", 30, "res_fire", 5);
    hard.conditions = vec![ItemCondition { code: "level".into(), operator: "gt".into(), value: 29 }];
    let data = GameData {
        monsters: vec![],
        items: vec![
            make_res_item("a", "helmet", 1, "res_fire", 5),
            make_res_item("worn", "helmet", 1, "res_fire", 5),
            hard,
            make_res_item("boots", "boots", 1, "res_fire", 5),
        ],
        resources: vec![], maps: vec![], craftable_equip: vec![],
    };
    let pool = combat_candidate_pool(&data, &blank_character(), "helmet", "worn");
    assert_eq!(pool, vec![None, Some("worn".to_string()), Some("a".to_string())]);
    let pool = combat_candidate_pool(&data, &blank_character(), "helmet", "");
    assert_eq!(pool, vec![None, Some("a".to_string()), Some("worn".to_string())]);
}

#[test]
fn random_steps_are_fixed() {
    let mut state: u64 = 1;
    assert_eq!(xorshift_next(&mut state), 0x40822041);
    assert_eq!(state, 0x40822041);
    let mut state: u64 = 0x9E3779B97F4A7C15;
    let mut order = shuffled_order(13, &mut state);
    order.sort();
    assert_eq!(order, (0..13).collect::<Vec<usize>>());
}

#[test]
fn the_first_search_starts_from_what_is_worn() {
    let mut character = blank_character();
    character.helmet_slot = "a".into();
    let data = GameData {
        monsters: vec![],
        items: vec![make_res_item("b", "helmet", 1, "res_fire", 5), make_res_item("a", "helmet", 1, "res_fire", 7)],
        resources: vec![], maps: vec![], craftable_equip: vec![],
    };
    let mut settled = [true; 13];
    settled[2] = false;
    let slots = slots_to_search(&character, &data, &settled);
    assert_eq!(slots.len(), 1);
    assert_eq!(slots[0].slot, "helmet");
    assert_eq!(slots[0].current_code, Some("a".to_string()));
    let (order, chosen) = restart(&slots, 0);
    assert_eq!((order, chosen), (vec![0], vec![1]));
    character.res_fire = 7;
    let naked = naked_for_slots(&character, &data, &slots);
    assert_eq!(naked.res_fire, 0);
    assert_eq!(dressed(&naked, &slots, &[2], &data).res_fire, 5);
    assert_eq!(dressed(&naked, &slots, &[1], &data).res_fire, 7);
    assert_eq!(dressed(&naked, &slots, &[0], &data).res_fire, 0);
}

#[test]
fn a_climb_never_descends() {
    let mut ascent = start_ascent(vec![1, 0], vec![0, 0], 10);
    assert_eq!(ascent.slot(), 1);
    ascent.step(&[10, 9, 12]);
    assert_eq!((ascent.chosen[1], ascent.score), (2, 12));
    assert_eq!(ascent.slot(), 0);
    // A tie moves off the empty choice, once.
    ascent.step(&[12, 12, 12]);
    assert_eq!((ascent.chosen[0], ascent.score), (1, 12));
    ascent.step(&[1, 2, 12]);
    ascent.step(&[3, 12, 12]);
    assert!(ascent.done);
    assert_eq!(ascent.chosen, vec![1, 2]);
    assert!(start_ascent(vec![], vec![], 3).done);
    assert_eq!(best_restart(&[3, 9, 9, 1]), 2);
}

#[test]
fn items_are_ranked_for_their_category() {
    let items = [
        make_res_item("a", "helmet", 1, "res_fire", 5),
        make_res_item("b", "boots", 1, "res_fire", 5),
        make_res_item("c", "helmet", 1, "res_fire", 5),
        make_res_item("d", "helmet", 1, "res_fire", 5),
    ];
    let ranked = rank_items(&items, "helmet", &[1, 9, 3, 0]);
    let codes: Vec<&str> = ranked.iter().map(|r| r.code.as_str()).collect();
    assert_eq!(codes, ["c", "a"]);
}

#[test]
fn stats_come_and_go_with_an_item() {
    let mut item = make_res_item("sword", "weapon", 1, "attack_fire", 12);
    item.effects.push(ItemEffect { code: "dmg".into(), value: 3, description: "".into() });
    item.effects.push(ItemEffect { code: "hp".into(), value: 20, description: "".into() });
    item.effects.push(ItemEffect { code: "attack_fire".into(), value: 1, description: "".into() });
    let bare = blank_character();
    let with = adjust_combat_stats(&bare, &item, 1);
    assert_eq!((with.attack_fire, with.dmg, with.max_hp), (13, 3, 120));
    let back = adjust_combat_stats(&with, &item, -1);
    assert_eq!((back.attack_fire, back.dmg, back.max_hp), (0, 0, 100));
    assert_eq!(item_effect_value(&item, "dmg"), 3);
    assert_eq!(item_effect_value(&item, "haste"), 0);
}

#[test]
fn conditions_compare_levels() {
    let character = blank_character();
    let cond = |code: &str, operator: &str, value: i32| ItemCondition { code: code.into(), operator: operator.into(), value };
    assert_eq!(character_level_stat(&character, "level"), Some(20));
    assert_eq!(character_level_stat(&character, "mining_level"), Some(1));
    assert_eq!(character_level_stat(&character, "charm"), None);
    assert!(condition_met(&character, &cond("level", "gt", 19)));
    assert!(!condition_met(&character, &cond("level", "gt", 20)));
}

fn two_slots() -> Vec<SlotCandidates> {
    vec![
        SlotCandidates { slot: "helmet", current_code: None, candidates: vec![None, Some("a".into()), Some("b".into())] },
        SlotCandidates { slot: "boots", current_code: Some("c".into()), candidates: vec![None, Some("c".into())] },
    ]
}

/// A helmet "b" that only helps with the boots "c" on, and a helmet "a" that helps a little.
fn pair_score(chosen: &Vec<usize>) -> i64 {
    match (chosen[0], chosen[1]) {
        (2, 1) => 10,
        (1, _) => 3,
        (_, 1) => 1,
        _ => 0,
    }
}

#[test]
fn a_climb_ends_where_no_single_change_helps() {
    let slots = two_slots();
    let (chosen, score) = coordinate_ascent_pass(&slots, vec![0, 0], vec![0, 1], &pair_score);
    // The helmet first: "a" is better than nothing, then the boots tie and are worn, then "b" wins.
    assert_eq!((chosen, score), (vec![2, 1], 10));
    for seed in 0..8 {
        let (chosen, score) = climb_from(&slots, seed, &pair_score);
        assert_eq!(score, pair_score(&chosen));
        for slot in 0..2 {
            for c in 0..slots[slot].candidates.len() {
                let mut other = chosen.clone();
                other[slot] = c;
                assert!(pair_score(&other) <= score);
            }
        }
    }
    // The first climb starts from what is worn and never does worse.
    assert!(climb_from(&slots, 0, &pair_score).1 >= pair_score(&vec![0, 1]));
}

#[test]
fn searched_slots_are_ranked_for_their_part() {
    let slots = two_slots();
    let rate = |a: &Vec<usize>, b: &Vec<usize>| pair_score(a) - pair_score(b);
    let ranked = rank_touched_slot(&slots, &vec![2, 1], 0, &rate);
    let pairs: Vec<(&str, i64)> = ranked.iter().map(|r| (r.code.as_str(), r.rating)).collect();
    assert_eq!(pairs, [("b", 9), ("a", 2)]);
    let ratings = joint_ratings(blank_ratings(&blank_character()), &slots, &vec![2, 1], &rate);
    assert_eq!(ratings.iter().find(|r| r.slot == "helmet").unwrap().best_code(), Some("b"));
    assert_eq!(ratings.iter().find(|r| r.slot == "boots").unwrap().best_rating(), 10);
    assert_eq!(ratings.iter().find(|r| r.slot == "rune").unwrap().best_code(), None);
}

#[test]
fn gathering_settles_the_slots_it_helps() {
    let data = GameData {
        monsters: vec![],
        items: vec![make_res_item("pick", "weapon", 1, "mining", -10), make_res_item("hat", "helmet", 1, "hp", 5)],
        resources: vec![], maps: vec![], craftable_equip: vec![],
    };
    let mut keys: Vec<Vec<i64>> = vec![vec![0, 0]; 13];
    keys[0] = vec![7, 7];
    let ratings = optimize_items(&blank_character(), &data, &keys);
    assert_eq!(ratings.len(), 13);
    assert_eq!(ratings[0].best_code(), Some("pick"));
    assert_eq!(ratings[0].ranked.len(), 1);
    let settled = settled_slots(&ratings);
    assert!(settled[0]);
    assert!(settled[1..].iter().all(|s| !s));
    assert_eq!(slots_to_search(&blank_character(), &data, &settled).len(), 12);
}

#[test]
fn a_ranking_takes_the_place_of_the_old_one() {
    let mut ratings = blank_ratings(&blank_character());
    let slots = two_slots();
    let ranked = rank_candidates(&slots[0].candidates, &[0, 4, -1]);
    assert_eq!(ranked.len(), 1);
    replace_ranking(&mut ratings, "helmet", ranked);
    assert_eq!(ratings[2].best_code(), Some("a"));
}
