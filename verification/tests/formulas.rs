use artifactsmmo::formulas::crafting::{craft_skill_multiplier, craft_xp_bucket};
use artifactsmmo::formulas::{
    calculate_gathering_cooldown, calculate_gathering_xp, craftable_quantity, crafting_xp_terms,
    gather_promotion_threshold, global_subtier, is_lower_subtier, is_recyclable_for_wishlist,
    level_penalty_tier, monster_multiplier, recycle_return_quantity,
    recycle_returns_per_ingredient, tier, xp_to_next_level,
};
use artifactsmmo::types::{CraftInfo, CraftIngredient, InventorySlot, Item, Monster, Resource};

fn make_craft_item(code: &str, level: i32, skill: &str, ingredients: Vec<(&str, i32)>, recyclable: bool) -> Item {
    Item {
        name: code.into(), code: code.into(), level, item_type: "weapon".into(),
        subtype: "".into(), description: "".into(), conditions: vec![],
        effects: vec![],
        craft: Some(CraftInfo {
            skill: Some(skill.into()),
            level: None,
            items: ingredients.into_iter().map(|(c, q)| CraftIngredient { code: c.into(), quantity: q }).collect(),
            quantity: 1,
        }),
        tradeable: true,
        recyclable,
    }
}

/// The XP of one craft, put together from its factors.
fn calculate_crafting_xp(skill_level: i32, item: &Item, skill: &str, wisdom: i32) -> f64 {
    match crafting_xp_terms(skill_level, item, skill) {
        None => 0.0,
        Some(t) => {
            let ratio = t.level as f64 / t.skill_level as f64;
            ((t.base as f64 + ratio * t.coefficient as f64)
                * (t.multiplier_tenths as f64 / 10.0)
                * (t.penalty_tenths as f64 / 10.0)
                * (1.0 + wisdom as f64 * 0.001))
                .round()
        }
    }
}

#[test]
fn xp_to_next_level_matches_table_boundaries() {
    assert_eq!(xp_to_next_level(1), 150);
    assert_eq!(xp_to_next_level(49), 54200);
    assert_eq!(xp_to_next_level(50), 0); // past the table -- max level, nothing further needed
    assert_eq!(xp_to_next_level(60), 0);
}

#[test]
fn xp_to_next_level_is_zero_below_the_table() {
    assert_eq!(xp_to_next_level(0), 0);
    assert_eq!(xp_to_next_level(-7), 0);
    assert_eq!(xp_to_next_level(i32::MIN), 0);
    assert_eq!(xp_to_next_level(5), 700);
}

#[test]
fn calculate_crafting_xp_matches_hand_computed_values() {
    // Bracket <5: base 50, coefficient 25; level ratio 3/5.
    let item = make_craft_item("test_item", 3, "weaponcrafting", vec![("mat", 1)], false);
    assert_eq!(calculate_crafting_xp(5, &item, "weaponcrafting", 0), 65.0);

    // Bracket 10-14: base 200, coefficient 35; same level.
    let item2 = make_craft_item("test_item2", 12, "gearcrafting", vec![("mat", 1)], false);
    assert_eq!(calculate_crafting_xp(12, &item2, "gearcrafting", 0), 235.0);

    // Refining counts a tenth: round(495 * 0.1) = 50.
    let item3 = make_craft_item("copper_bar_like", 20, "mining", vec![("ore", 1)], false);
    assert_eq!(calculate_crafting_xp(20, &item3, "mining", 0), 50.0);

    // 100 wisdom gives a tenth more.
    assert_eq!(calculate_crafting_xp(5, &item, "weaponcrafting", 100), 72.0);

    // Ten levels above the item there is no XP.
    let trivial = make_craft_item("trivial", 1, "weaponcrafting", vec![("mat", 1)], false);
    assert_eq!(calculate_crafting_xp(15, &trivial, "weaponcrafting", 0), 0.0);
}

#[test]
fn crafting_xp_terms_need_the_right_skill() {
    let item = make_craft_item("sword", 3, "weaponcrafting", vec![("mat", 1)], false);
    assert!(crafting_xp_terms(5, &item, "gearcrafting").is_none());
    let raw = Item { craft: None, ..make_craft_item("ore", 1, "mining", vec![], false) };
    assert!(crafting_xp_terms(5, &raw, "mining").is_none());
    let t = crafting_xp_terms(0, &item, "weaponcrafting").unwrap();
    assert_eq!((t.base, t.coefficient, t.skill_level), (50, 25, 1));
}

#[test]
fn crafting_brackets_and_multipliers() {
    assert_eq!(craft_xp_bucket(4), (50, 25));
    assert_eq!(craft_xp_bucket(5), (100, 30));
    assert_eq!(craft_xp_bucket(19), (325, 40));
    assert_eq!(craft_xp_bucket(44), (850, 65));
    assert_eq!(craft_xp_bucket(45), (1000, 70));
    assert_eq!(craft_skill_multiplier("fishing"), 1);
    assert_eq!(craft_skill_multiplier("cooking"), 5);
    assert_eq!(craft_skill_multiplier("alchemy"), 10);
    assert_eq!(craft_skill_multiplier("juggling"), 0);
}

#[test]
fn level_gap_penalty_has_three_tiers() {
    assert_eq!(level_penalty_tier(-3), 10);
    assert_eq!(level_penalty_tier(4), 10);
    assert_eq!(level_penalty_tier(5), 7);
    assert_eq!(level_penalty_tier(9), 7);
    assert_eq!(level_penalty_tier(10), 0);
}

#[test]
fn gathering_xp_and_cooldown() {
    let resource = Resource { name: "copper".into(), code: "copper_rocks".into(), skill: "mining".into(), level: 3, drops: vec![] };
    assert_eq!(calculate_gathering_xp(3, &resource), 30);
    assert_eq!(calculate_gathering_xp(8, &resource), 21);
    assert_eq!(calculate_gathering_xp(13, &resource), 0);
    // 31.5 seconds.
    assert_eq!(calculate_gathering_cooldown(3), 63);
}

#[test]
fn monster_types_multiply_xp() {
    let mut monster = Monster {
        name: "m".into(), code: "m".into(), level: 1, monster_type: "normal".into(), hp: 1,
        attack_fire: 0, attack_earth: 0, attack_water: 0, attack_air: 0,
        res_fire: 0, res_earth: 0, res_water: 0, res_air: 0,
        critical_strike: 0, initiative: 0, effects: vec![], min_gold: 0, max_gold: 0, drops: vec![],
    };
    assert_eq!(monster_multiplier(&monster), 10);
    monster.monster_type = "elite".into();
    assert_eq!(monster_multiplier(&monster), 14);
    monster.monster_type = "boss".into();
    assert_eq!(monster_multiplier(&monster), 20);
}

#[test]
fn craftable_quantity_is_set_by_the_scarcest_ingredient() {
    let craft = make_craft_item("sword", 1, "weaponcrafting", vec![("bar", 3), ("wood", 2)], false).craft.unwrap();
    let inventory = vec![
        InventorySlot { slot: 1, code: "bar".into(), quantity: 7 },
        InventorySlot { slot: 2, code: "wood".into(), quantity: 5 },
        InventorySlot { slot: 3, code: "bar".into(), quantity: 4 },
    ];
    // 11 bars allow 3, 5 wood allow 2.
    assert_eq!(craftable_quantity(&inventory, &craft), 2);
    assert_eq!(craftable_quantity(&[], &craft), 0);
    let empty = CraftInfo { skill: None, level: None, items: vec![], quantity: 1 };
    assert_eq!(craftable_quantity(&inventory, &empty), 0);
}

#[test]
fn recycle_return_quantity_crosses_floor_boundary() {
    let craft_n = |n: i32| CraftInfo {
        skill: Some("weaponcrafting".into()), level: None,
        items: vec![CraftIngredient { code: "x".into(), quantity: n }], quantity: 1,
    };
    assert_eq!(recycle_return_quantity(&craft_n(1)), 1);
    assert_eq!(recycle_return_quantity(&craft_n(5)), 1);
    assert_eq!(recycle_return_quantity(&craft_n(6)), 2);
    assert_eq!(recycle_return_quantity(&craft_n(10)), 2);
    assert_eq!(recycle_return_quantity(&craft_n(11)), 3);
}

#[test]
fn recycling_returns_are_spread_by_share() {
    let craft = make_craft_item("sword", 1, "weaponcrafting", vec![("bar", 4), ("wood", 2)], true).craft.unwrap();
    let shares = recycle_returns_per_ingredient(&craft);
    // Two of six come back: 8/6 bars and 4/6 wood.
    assert_eq!(shares.get("bar"), Some(&(8, 6)));
    assert_eq!(shares.get("wood"), Some(&(4, 6)));
    assert_eq!(shares.get("ore"), None);
}

#[test]
fn is_recyclable_for_wishlist_excludes_alchemy() {
    let potion = make_craft_item("potion", 5, "alchemy", vec![("herb", 2)], true);
    assert!(!is_recyclable_for_wishlist(&potion, "alchemy"));

    let sword = make_craft_item("sword", 5, "weaponcrafting", vec![("bar", 2)], true);
    assert!(is_recyclable_for_wishlist(&sword, "weaponcrafting"));

    let sword_not_flagged = make_craft_item("sword2", 5, "weaponcrafting", vec![("bar", 2)], false);
    assert!(!is_recyclable_for_wishlist(&sword_not_flagged, "weaponcrafting"));
}

#[test]
fn gather_promotion_threshold_matches_the_worked_examples() {
    assert_eq!(gather_promotion_threshold(13), 20);
    assert_eq!(gather_promotion_threshold(18), 30);
    assert_eq!(gather_promotion_threshold(21), 30);
}

#[test]
fn tier_and_subtier_boundaries() {
    assert_eq!(tier(1), 0);
    assert_eq!(tier(9), 0);
    assert_eq!(tier(10), 1);
    assert_eq!(tier(19), 1);
    assert_eq!(tier(50), 5);

    assert!(is_lower_subtier(1));
    assert!(is_lower_subtier(4));
    assert!(!is_lower_subtier(5));
    assert!(!is_lower_subtier(9));
    assert!(is_lower_subtier(10));
    assert!(is_lower_subtier(14));
    assert!(!is_lower_subtier(15));
}

#[test]
fn global_subtier_is_strictly_increasing_across_the_given_bands() {
    let bands = [
        (1, 4), (5, 9), (10, 14), (15, 19), (20, 24), (25, 29),
    ];
    let mut prev_idx = None;
    for (lo, hi) in bands {
        let idx = global_subtier(lo);
        assert_eq!(global_subtier(hi), idx, "band {lo}-{hi} should share one subtier index");
        if let Some(p) = prev_idx {
            assert_eq!(idx, p + 1, "subtier index should increase by exactly 1 per band");
        }
        prev_idx = Some(idx);
    }
}

#[test]
fn negative_levels_round_towards_zero() {
    assert_eq!(tier(-15), -1);
    assert!(is_lower_subtier(-7));
    assert_eq!(global_subtier(-15), -2);
}

#[test]
fn recycling_never_multiplies() {
    for (a, b) in [(1, 0), (1, 1), (5, 1), (7, 20)] {
        let craft = make_craft_item("x", 1, "weaponcrafting", vec![("a", a), ("b", b)], true).craft.unwrap();
        let shares = recycle_returns_per_ingredient(&craft);
        for (code, taken) in [("a", a), ("b", b)] {
            let (returned, total) = *shares.get(code).unwrap();
            assert!(returned <= taken as i64 * total);
        }
    }
}
