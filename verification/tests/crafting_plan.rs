use artifactsmmo::api::GameData;
use artifactsmmo::flags::GameState;
use artifactsmmo::formulas::crafting_xp_terms;
use artifactsmmo::loops::crafting_exec::plan_crafting_trip;
use artifactsmmo::loops::crafting_plan::{
    allocate_upgrade_crafts, build_wishlist, filler_candidates, max_affordable, plan_fillers,
    refresh_shared_crafting_state, settle_wishlist_entry, xp_to_next_tier, CraftPlanEntry, NetNeed,
    PlanTier,
};
use artifactsmmo::loops::init::{
    available_gold, crafting_verdict, merge_priorities, CraftingVerdict,
};
use artifactsmmo::loops::refining::plan_refining_batch;
use artifactsmmo::loops::seed_shared_state;
use artifactsmmo::loops::supply::{bank_supply, has_all, merge, spend};
use artifactsmmo::loops::upgrade_steps::upgrade_steps;
use artifactsmmo::loops::wishlist_plan::{
    classify_wishlist_craftable, plan_crafting_priority, plan_next_trip, preview_plan,
};
use artifactsmmo::optimize::{skill_level, RankedItem, SlotRating};
use artifactsmmo::table::Table;
use artifactsmmo::types::{BankItem, Character, CraftInfo, CraftIngredient, InventorySlot, Item};

fn blank_character() -> Character {
    Character {
        name: "test".into(), account: "test".into(), skin: "".into(),
        level: 1, xp: 0, max_xp: 0, gold: 0, speed: 0,
        mining_level: 1, mining_xp: 0, mining_max_xp: 0,
        woodcutting_level: 1, woodcutting_xp: 0, woodcutting_max_xp: 0,
        fishing_level: 1, fishing_xp: 0, fishing_max_xp: 0,
        weaponcrafting_level: 3, weaponcrafting_xp: 100, weaponcrafting_max_xp: 350,
        gearcrafting_level: 1, gearcrafting_xp: 0, gearcrafting_max_xp: 150,
        jewelrycrafting_level: 1, jewelrycrafting_xp: 0, jewelrycrafting_max_xp: 150,
        cooking_level: 1, cooking_xp: 0, cooking_max_xp: 0,
        alchemy_level: 1, alchemy_xp: 0, alchemy_max_xp: 150,
        hp: 100, max_hp: 100, haste: 0, critical_strike: 0, wisdom: 0,
        prospecting: 0, initiative: 0, threat: 0,
        attack_fire: 0, attack_earth: 0, attack_water: 0, attack_air: 0,
        dmg: 0, dmg_fire: 0, dmg_earth: 0, dmg_water: 0, dmg_air: 0,
        res_fire: 0, res_earth: 0, res_water: 0, res_air: 0,
        effects: vec![], x: 0, y: 0, layer: "interior".into(), map_id: 0,
        cooldown: 0, cooldown_expiration: None,
        weapon_slot: "".into(), rune_slot: "".into(), shield_slot: "".into(),
        helmet_slot: "".into(), body_armor_slot: "".into(), leg_armor_slot: "".into(),
        boots_slot: "".into(), ring1_slot: "".into(), ring2_slot: "".into(),
        amulet_slot: "".into(), artifact1_slot: "".into(), artifact2_slot: "".into(),
        artifact3_slot: "".into(), utility1_slot: "".into(), utility1_slot_quantity: 0,
        utility2_slot: "".into(), utility2_slot_quantity: 0, bag_slot: "".into(),
        task: "".into(), task_type: "".into(), task_progress: 0, task_total: 0,
        inventory_max_items: 100, inventory: vec![],
    }
}

fn make_craft_item(code: &str, level: i32, item_type: &str, skill: &str, ingredients: Vec<(&str, i32)>) -> Item {
    Item {
        name: code.into(), code: code.into(), level, item_type: item_type.into(),
        subtype: "".into(), description: "".into(), conditions: vec![],
        effects: vec![],
        craft: Some(CraftInfo {
            skill: Some(skill.into()),
            level: None,
            items: ingredients.into_iter().map(|(c, q)| CraftIngredient { code: c.into(), quantity: q }).collect(),
            quantity: 1,
        }),
        tradeable: true,
        recyclable: false,
    }
}

fn blank_data(items: Vec<Item>) -> GameData {
    GameData { monsters: vec![], items, resources: vec![], maps: vec![], craftable_equip: vec![] }
}

/// The XP of one craft, put together from its factors.
fn calculate_crafting_xp(skill_level: i32, item: &Item, skill: &str, wisdom: i32) -> f64 {
    match crafting_xp_terms(skill_level, item, skill) {
        None => 0.0,
        Some(t) => {
            let ratio = t.level as f64 / t.skill_level as f64;
            ((t.base as f64 + ratio * t.coefficient as f64)
                * (t.multiplier_tenths as f64 / 10.0)
                * (t.penalty_tenths as f64 / 10.0)
                * (1.0 + wisdom as f64 * 0.001))
                .round()
        }
    }
}

/// The XP of one craft of each item.
fn craft_xp(character: &Character, items: &[Item]) -> Vec<i32> {
    items
        .iter()
        .map(|item| match item.craft.as_ref().and_then(|c| c.skill.as_ref()) {
            Some(skill) => calculate_crafting_xp(skill_level(character, skill), item, skill, character.wisdom) as i32,
            None => 0,
        })
        .collect()
}

fn supply_of(entries: &[(&str, i32)]) -> Table<i32> {
    let mut t: Table<i32> = Table::new();
    for (code, qty) in entries {
        t.insert(code.to_string(), *qty);
    }
    t
}

fn entry(code: &str, skill: &str, quantity: i32, tier: PlanTier) -> CraftPlanEntry {
    CraftPlanEntry { code: code.into(), skill: skill.into(), quantity, tier }
}

/// With enough of a scarce material for one of two picks, the higher-rated pick gets it and the
/// other's demand is reserved.
#[test]
fn allocate_upgrade_crafts_gives_scarce_materials_to_higher_rated_pick() {
    let items = vec![
        make_craft_item("good_sword", 5, "weapon", "weaponcrafting", vec![("bar", 5)]),
        make_craft_item("okay_sword", 5, "weapon", "weaponcrafting", vec![("bar", 5)]),
    ];
    let data = blank_data(items);
    let mut state = GameState::new(data);

    state.set_item_ratings("char_a", vec![SlotRating {
        slot: "weapon", category: "weapon",
        ranked: vec![RankedItem { code: "good_sword".into(), rating: 900 }],
    }], &blank_character());
    state.set_item_ratings("char_b", vec![SlotRating {
        slot: "weapon", category: "weapon",
        ranked: vec![RankedItem { code: "okay_sword".into(), rating: 100 }],
    }], &blank_character());

    let mut remaining_supply = supply_of(&[("bar", 5)]);
    let crafter = blank_character(); // weaponcrafting_level 3; the recipes have no level requirement

    let (planned, reserved, _codes) = allocate_upgrade_crafts(&state, &crafter, &mut remaining_supply);

    assert_eq!(planned.len(), 1);
    assert_eq!(planned[0].code, "good_sword");
    assert_eq!(reserved.get("bar").copied().unwrap_or(0), 5); // okay_sword's blocked demand reserved
}

/// Two recipes that could each close the same skill's gap are both on the wishlist.
#[test]
fn build_wishlist_unions_alternative_recipes_for_same_skill() {
    let items = || vec![
        make_craft_item("lizard_dagger", 3, "weapon", "weaponcrafting", vec![("lizard_scale", 1)]),
        make_craft_item("mercury_dagger", 3, "weapon", "weaponcrafting", vec![("mercury_bar", 2)]),
    ];
    let data = blank_data(items());
    let state = GameState::new(data);

    let character = blank_character(); // weaponcrafting_level 3, xp 100/350

    let wishlist = build_wishlist(&state, &character, &craft_xp(&character, &items()));
    let codes: Vec<&str> = wishlist.iter().map(|e| e.code.as_str()).collect();

    assert!(codes.contains(&"lizard_dagger"), "expected lizard_dagger on the wishlist, got {codes:?}");
    assert!(codes.contains(&"mercury_dagger"), "expected mercury_dagger on the wishlist, got {codes:?}");
    assert!(wishlist.iter().all(|e| e.tier == PlanTier::Wishlist));
    assert!(wishlist.iter().all(|e| e.quantity > 0));
    // 250 + 450 XP are missing to level 5, at 75 XP a craft.
    assert!(wishlist.iter().all(|e| e.quantity == 10));
}

#[test]
fn next_tier_is_the_next_multiple_of_five() {
    assert_eq!(xp_to_next_tier(3, 100, 350), 250 + 450);
    assert_eq!(xp_to_next_tier(4, 0, 450), 450);
    assert_eq!(xp_to_next_tier(5, 0, 700), 700 + 950 + 1200 + 1450 + 1700);
    assert_eq!(xp_to_next_tier(49, 200, 54200), 54000);
    assert_eq!(xp_to_next_tier(50, 0, 0), 0);
}

#[test]
fn highest_rated_step_comes_first() {
    let items = vec![make_craft_item("good_sword", 5, "weapon", "weaponcrafting", vec![("bar", 5)])];
    let mut state = GameState::new(blank_data(items));
    let mut worn = blank_character();
    worn.weapon_slot = "stick".into();
    state.set_item_ratings("a", vec![SlotRating {
        slot: "weapon", category: "weapon",
        ranked: vec![
            RankedItem { code: "good_sword".into(), rating: 900 },
            RankedItem { code: "stick".into(), rating: 100 },
            RankedItem { code: "twig".into(), rating: 50 },
        ],
    }], &worn);
    state.set_item_ratings("b", vec![SlotRating {
        slot: "helmet", category: "helmet",
        ranked: vec![RankedItem { code: "crown".into(), rating: 1000 }],
    }], &blank_character());
    let steps = upgrade_steps(&state, false);
    let codes: Vec<&str> = steps.iter().map(|s| s.code.as_str()).collect();
    // The twig is worse than the stick that is worn.
    assert_eq!(codes, ["crown", "good_sword"]);
    let steps = upgrade_steps(&state, true);
    assert_eq!(steps.len(), 1);
    assert_eq!((steps[0].char_name.as_str(), steps[0].slot.as_str()), ("a", "weapon"));
}

#[test]
fn a_filled_slot_takes_nothing_more() {
    let items = vec![
        make_craft_item("good_sword", 5, "weapon", "weaponcrafting", vec![("bar", 5)]),
        make_craft_item("okay_sword", 5, "weapon", "weaponcrafting", vec![("bar", 5)]),
    ];
    let mut state = GameState::new(blank_data(items));
    state.set_item_ratings("a", vec![SlotRating {
        slot: "weapon", category: "weapon",
        ranked: vec![
            RankedItem { code: "good_sword".into(), rating: 900 },
            RankedItem { code: "okay_sword".into(), rating: 100 },
        ],
    }], &blank_character());
    let mut supply = supply_of(&[("bar", 20)]);
    let (planned, reserved, codes) = allocate_upgrade_crafts(&state, &blank_character(), &mut supply);
    assert_eq!(planned.len(), 1);
    assert_eq!(planned[0].quantity, 1);
    assert_eq!(planned[0].tier, PlanTier::Upgrade);
    assert_eq!(reserved.len(), 0);
    assert_eq!(supply.get("bar"), Some(&15));
    assert!(codes.contains(&"good_sword".to_string()));
}

#[test]
fn affordable_crafts_are_set_by_the_scarcest_material() {
    assert_eq!(max_affordable(&[7, 3, 9], 10), 3);
    assert_eq!(max_affordable(&[7, 12], 5), 5);
    assert_eq!(max_affordable(&[-2, 12], 5), 0);
    assert_eq!(max_affordable(&[], 5), 0);
}

#[test]
fn a_wish_is_settled_from_supply_and_the_rest_is_reserved() {
    let wish = entry("dagger", "weaponcrafting", 5, PlanTier::Wishlist);
    let mut supply = supply_of(&[("bar", 7)]);
    let mut reserved = supply_of(&[]);
    let needs = [NetNeed { code: "bar".into(), now: 6, later: 4 }];
    let got = settle_wishlist_entry(&wish, 3, &needs, &mut supply, &mut reserved).unwrap();
    assert_eq!((got.code.as_str(), got.quantity), ("dagger", 3));
    assert_eq!(supply.get("bar"), Some(&1));
    assert_eq!(reserved.get("bar"), Some(&4));
    let none = settle_wishlist_entry(&wish, 0, &needs, &mut supply, &mut reserved);
    assert!(none.is_none());
}

#[test]
fn filler_avoids_what_is_planned() {
    let items = || vec![
        make_craft_item("dagger", 3, "weapon", "weaponcrafting", vec![("scale", 1)]),
        make_craft_item("mace", 3, "weapon", "weaponcrafting", vec![("scale", 2)]),
        make_craft_item("trivial", -20, "weapon", "weaponcrafting", vec![("scale", 1)]),
    ];
    let state = GameState::new(blank_data(items()));
    let character = blank_character();
    let xp = craft_xp(&character, &items());
    let all = filler_candidates(&state, &character, &[], &xp);
    let codes: Vec<&str> = all.iter().map(|e| e.code.as_str()).collect();
    // The best XP per ingredient comes first; the last item gives none.
    assert_eq!(codes, ["dagger", "mace"]);
    let rest = filler_candidates(&state, &character, &["dagger".to_string()], &xp);
    assert_eq!(rest.len(), 1);
    let mut planned: Vec<CraftPlanEntry> = vec![];
    let mut supply = supply_of(&[("scale", 5)]);
    plan_fillers(&mut planned, &rest, &items(), &mut supply);
    assert_eq!(planned.len(), 1);
    assert_eq!((planned[0].code.as_str(), planned[0].quantity), ("mace", 2));
    assert_eq!(planned[0].tier, PlanTier::Filler);
    assert_eq!(supply.get("scale"), Some(&1));
}

#[test]
fn shared_state_is_seeded_before_the_loops() {
    let items = || vec![
        make_craft_item("dagger", 3, "weapon", "weaponcrafting", vec![("scale", 1)]),
        make_craft_item("potion", 1, "utility", "alchemy", vec![("herb", 1)]),
    ];
    let mut state = GameState::new(blank_data(items()));
    let mut fighter = blank_character();
    fighter.level = 17;
    let mut crafter = blank_character();
    crafter.name = "crafter".into();
    crafter.gearcrafting_level = 6;
    crafter.jewelrycrafting_level = 9;
    let xp = craft_xp(&crafter, &items());
    seed_shared_state(&mut state, &fighter, &crafter, &xp);
    assert_eq!(state.fighter_combat_level(), 17);
    assert_eq!(state.crafter_min_gear_level(), 3);
    assert_eq!(state.wishlist_equipment_codes(), ["dagger"]);
    assert_eq!(state.wishlist_alchemy_codes(), ["potion"]);
    // Past the level at which it gives XP the dagger leaves the list.
    crafter.weaponcrafting_level = 20;
    let xp = craft_xp(&crafter, &items());
    refresh_shared_crafting_state(&mut state, &crafter, &xp);
    assert_eq!(state.crafter_min_gear_level(), 6);
    assert!(state.wishlist_equipment_codes().is_empty());
}

#[test]
fn gold_of_character_and_bank_adds_up() {
    let mut character = blank_character();
    character.gold = 30;
    assert_eq!(available_gold(&character, 12), 42);
    character.gold = i32::MAX;
    assert_eq!(available_gold(&character, 12), i32::MAX);
}

#[test]
fn merged_priorities_reserve_for_both() {
    let mut state = GameState::new(blank_data(vec![]));
    let upgrades = vec![entry("sword", "weaponcrafting", 1, PlanTier::Upgrade)];
    let wishes = vec![entry("dagger", "weaponcrafting", 2, PlanTier::Wishlist)];
    let considered = [entry("dagger", "weaponcrafting", 5, PlanTier::Wishlist), entry("mace", "weaponcrafting", 5, PlanTier::Wishlist)];
    let (planned, exclude) = merge_priorities(
        &mut state, upgrades, wishes, supply_of(&[("bar", 2)]), &supply_of(&[("bar", 3), ("scale", 1)]),
        vec!["sword".to_string()], &considered,
    );
    let codes: Vec<&str> = planned.iter().map(|e| e.code.as_str()).collect();
    assert_eq!(codes, ["sword", "dagger"]);
    assert_eq!(exclude, ["sword", "dagger", "mace"]);
    let reserved = state.reserved_materials_snapshot();
    assert_eq!((reserved.get("bar"), reserved.get("scale")), (Some(&5), Some(&1)));
}

#[test]
fn supplies_add_up() {
    let mut a = bank_supply(&[
        BankItem { code: "bar".into(), quantity: 2 },
        BankItem { code: "bar".into(), quantity: 3 },
    ]);
    merge(&mut a, &supply_of(&[("bar", 1), ("ore", 4)]));
    assert_eq!(a.get("ore"), Some(&4));
}

#[test]
fn crafting_trips_keep_to_the_inventory() {
    let items = vec![
        make_craft_item("sword", 5, "weapon", "weaponcrafting", vec![("bar", 5)]),
        make_craft_item("shield", 5, "shield", "gearcrafting", vec![("wood", 3)]),
    ];
    let mut character = blank_character();
    character.inventory_max_items = 14;
    let wanted = [
        entry("sword", "weaponcrafting", 3, PlanTier::Wishlist),
        entry("shield", "gearcrafting", 1, PlanTier::Filler),
    ];
    let trip = plan_crafting_trip(&wanted, &items, &character, supply_of(&[("bar", 100), ("wood", 100)]));
    // One place stays free: two swords take ten bars, and three wood still fit.
    let plan: Vec<(&str, i32)> = trip.plan.iter().map(|f| (f.code.as_str(), f.quantity)).collect();
    assert_eq!(plan, [("sword", 2), ("shield", 1)]);
    let withdraw: Vec<(&str, i32)> = trip.withdraw.iter().map(|d| (d.code.as_str(), d.quantity)).collect();
    assert_eq!(withdraw, [("bar", 10), ("wood", 3)]);
    assert_eq!(crafting_verdict(&wanted, &trip), CraftingVerdict::Go);
    // Only filler is still held against the bank here.
    let nothing = plan_crafting_trip(&wanted[1..], &items, &character, supply_of(&[]));
    assert_eq!(crafting_verdict(&wanted[1..], &nothing), CraftingVerdict::NotEnough);
    assert_eq!(crafting_verdict(&[], &trip), CraftingVerdict::NothingLeft);
}

#[test]
fn a_trip_withdraws_one_stack_of_what_its_crafts_share() {
    let items = vec![
        make_craft_item("sword", 5, "weapon", "weaponcrafting", vec![("bar", 5), ("wood", 1)]),
        make_craft_item("shield", 5, "shield", "gearcrafting", vec![("bar", 3)]),
    ];
    let mut character = blank_character();
    character.inventory_max_items = 100;
    let wanted = [
        entry("sword", "weaponcrafting", 2, PlanTier::Upgrade),
        entry("shield", "gearcrafting", 4, PlanTier::Wishlist),
    ];
    let trip = plan_crafting_trip(&wanted, &items, &character, supply_of(&[]));
    let plan: Vec<(&str, i32)> = trip.plan.iter().map(|f| (f.code.as_str(), f.quantity)).collect();
    assert_eq!(plan, [("sword", 2), ("shield", 4)]);
    // 2 x 5 + 4 x 3 bars, and 2 x 1 wood.
    let withdraw: Vec<(&str, i32)> = trip.withdraw.iter().map(|d| (d.code.as_str(), d.quantity)).collect();
    assert_eq!(withdraw, [("bar", 22), ("wood", 2)]);
}

#[test]
fn what_upgrades_are_planned_leaves_the_supply() {
    let items = vec![make_craft_item("sword", 5, "weapon", "weaponcrafting", vec![("bar", 5), ("wood", 1)])];
    let mut state = GameState::new(blank_data(items));
    for name in ["char_a", "char_b", "char_c"] {
        state.set_item_ratings(name, vec![SlotRating {
            slot: "weapon", category: "weapon",
            ranked: vec![RankedItem { code: "sword".into(), rating: 100 }],
        }], &blank_character());
    }
    let mut supply = supply_of(&[("bar", 14), ("wood", 9), ("stone", 4)]);
    let (planned, reserved, _codes) = allocate_upgrade_crafts(&state, &blank_character(), &mut supply);
    // Two swords in one entry; the third has to wait.
    assert_eq!(planned.len(), 1);
    assert_eq!((planned[0].code.as_str(), planned[0].quantity), ("sword", 2));
    assert_eq!((supply.get("bar"), supply.get("wood"), supply.get("stone")), (Some(&4), Some(&7), Some(&4)));
    assert_eq!(reserved.get("bar"), Some(&5));
}

#[test]
fn a_refining_batch_fits_the_bag() {
    let items = vec![
        make_craft_item("bronze", 5, "resource", "mining", vec![("copper_ore", 4), ("tin_ore", 3)]),
        make_craft_item("copper_bar", 1, "resource", "mining", vec![("copper_ore", 5)]),
    ];
    let mut character = blank_character();
    character.inventory_max_items = 40;
    character.inventory = vec![
        InventorySlot { slot: 1, code: "copper_ore".into(), quantity: 6 },
        InventorySlot { slot: 2, code: "apple".into(), quantity: 10 },
    ];
    let bank = [
        BankItem { code: "copper_ore".into(), quantity: 100 },
        BankItem { code: "tin_ore".into(), quantity: 6 },
    ];
    let plan = plan_refining_batch(&items, &bank, &character, &supply_of(&[]), "mining");
    // Two bronze take 8 copper ore and 6 tin ore; 16 places are left then, for three bars.
    assert_eq!(plan.crafts, vec![("bronze".to_string(), 2), ("copper_bar".to_string(), 3)]);
    let withdraw: Vec<(&str, i32)> = plan.to_withdraw.iter().map(|d| (d.code.as_str(), d.quantity)).collect();
    assert_eq!(withdraw, [("copper_ore", 17), ("tin_ore", 6)]);
    let carried: i32 = character.inventory.iter().map(|s| s.quantity).sum();
    let fetched: i32 = plan.to_withdraw.iter().map(|d| d.quantity).sum();
    assert!(carried + fetched <= character.inventory_max_items);
}

#[test]
fn refining_works_from_bag_and_bank_but_not_from_reserves() {
    let items = vec![make_craft_item("copper_bar", 1, "resource", "mining", vec![("copper_ore", 10)])];
    let mut character = blank_character();
    character.inventory = vec![InventorySlot { slot: 1, code: "copper_ore".into(), quantity: 25 }];
    let bank = [BankItem { code: "copper_ore".into(), quantity: 100 }];
    let plan = plan_refining_batch(&items, &bank, &character, &supply_of(&[]), "mining");
    assert_eq!(plan.crafts, vec![("copper_bar".to_string(), 10)]);
    assert_eq!(plan.to_withdraw.len(), 1);
    assert_eq!((plan.to_withdraw[0].code.as_str(), plan.to_withdraw[0].quantity), ("copper_ore", 75));
    // What is reserved stays where it is.
    let plan = plan_refining_batch(&items, &bank, &character, &supply_of(&[("copper_ore", 1000)]), "mining");
    assert!(plan.crafts.is_empty());
    assert!(plan.to_withdraw.is_empty());
    // Another skill has no use for the ore.
    let plan = plan_refining_batch(&items, &bank, &character, &supply_of(&[]), "cooking");
    assert!(plan.crafts.is_empty());
}

#[test]
fn recipes_that_share_an_ingredient_are_all_withdrawn_for() {
    let items = vec![
        make_craft_item("sap", 1, "resource", "woodcutting", vec![("ash_wood", 4)]),
        make_craft_item("ash_plank", 5, "resource", "woodcutting", vec![("ash_wood", 6)]),
    ];
    let mut character = blank_character();
    character.inventory = vec![];
    character.inventory_max_items = 100;
    let bank = [BankItem { code: "ash_wood".into(), quantity: 10 }];
    let plan = plan_refining_batch(&items, &bank, &character, &supply_of(&[]), "woodcutting");
    assert_eq!(plan.crafts, vec![("ash_plank".to_string(), 1), ("sap".to_string(), 1)]);
    assert_eq!(plan.to_withdraw.len(), 1);
    assert_eq!((plan.to_withdraw[0].code.as_str(), plan.to_withdraw[0].quantity), ("ash_wood", 10));
    // Seven in the bag cover the plank and one of the four for the sap.
    character.inventory = vec![InventorySlot { slot: 1, code: "ash_wood".into(), quantity: 7 }];
    let bank = [BankItem { code: "ash_wood".into(), quantity: 3 }];
    let plan = plan_refining_batch(&items, &bank, &character, &supply_of(&[]), "woodcutting");
    assert_eq!(plan.crafts, vec![("ash_plank".to_string(), 1), ("sap".to_string(), 1)]);
    assert_eq!(plan.to_withdraw.len(), 1);
    assert_eq!((plan.to_withdraw[0].code.as_str(), plan.to_withdraw[0].quantity), ("ash_wood", 3));
    // Room for nine: the sap's wood no longer fits beside the plank's.
    character.inventory = vec![];
    character.inventory_max_items = 9;
    let bank = [BankItem { code: "ash_wood".into(), quantity: 10 }];
    let plan = plan_refining_batch(&items, &bank, &character, &supply_of(&[]), "woodcutting");
    assert_eq!(plan.crafts, vec![("ash_plank".to_string(), 1)]);
    assert_eq!((plan.to_withdraw[0].code.as_str(), plan.to_withdraw[0].quantity), ("ash_wood", 6));
    // All in the bag: nothing is withdrawn.
    character.inventory = vec![InventorySlot { slot: 1, code: "ash_wood".into(), quantity: 10 }];
    character.inventory_max_items = 100;
    let plan = plan_refining_batch(&items, &[], &character, &supply_of(&[]), "woodcutting");
    assert_eq!(plan.crafts, vec![("ash_plank".to_string(), 1), ("sap".to_string(), 1)]);
    assert!(plan.to_withdraw.is_empty());
}

/// What one craft takes of each ingredient where nothing comes back.
fn whole_share(items: &[Item], i: usize, k: usize, have: i32) -> Option<i32> {
    let quantity = items[i].craft.as_ref().unwrap().items[k].quantity;
    if quantity > 0 { Some(have / quantity) } else { None }
}

fn whole_need(items: &[Item], i: usize, k: usize, n: i32) -> i32 {
    items[i].craft.as_ref().unwrap().items[k].quantity * n
}

#[test]
fn wishes_are_made_in_part_and_the_rest_is_reserved() {
    let items = vec![
        make_craft_item("dagger", 3, "weapon", "weaponcrafting", vec![("bar", 2), ("wood", 1)]),
        make_craft_item("mace", 3, "weapon", "weaponcrafting", vec![("bar", 1)]),
    ];
    let entries = [
        entry("dagger", "weaponcrafting", 5, PlanTier::Wishlist),
        entry("unknown", "weaponcrafting", 5, PlanTier::Wishlist),
        entry("mace", "weaponcrafting", 4, PlanTier::Wishlist),
    ];
    let mut supply = supply_of(&[("bar", 7), ("wood", 2)]);
    let (made, reserved) = classify_wishlist_craftable(
        &items, &blank_character(), &entries, &mut supply,
        &|i: usize, k: usize, have: i32| whole_share(&items, i, k, have),
        &|i: usize, k: usize, n: i32| whole_need(&items, i, k, n),
    );
    // Two daggers, for want of wood; then the three bars that are left make three maces.
    let planned: Vec<(&str, i32)> = made.iter().map(|e| (e.code.as_str(), e.quantity)).collect();
    assert_eq!(planned, [("dagger", 2), ("mace", 3)]);
    assert_eq!((supply.get("bar"), supply.get("wood")), (Some(&0), Some(&0)));
    assert_eq!((reserved.get("bar"), reserved.get("wood")), (Some(&7), Some(&3)));
}

#[test]
fn upgrades_claim_materials_before_wishes() {
    let items = || vec![
        make_craft_item("sword", 3, "weapon", "weaponcrafting", vec![("bar", 5)]),
        make_craft_item("dagger", 3, "weapon", "weaponcrafting", vec![("bar", 2)]),
    ];
    let mut state = GameState::new(blank_data(items()));
    state.set_item_ratings("a", vec![SlotRating {
        slot: "weapon", category: "weapon",
        ranked: vec![RankedItem { code: "sword".into(), rating: 900 }],
    }], &blank_character());
    let character = blank_character();
    let xp = craft_xp(&character, &items());
    let all = items();
    let mut supply = supply_of(&[("bar", 8)]);
    let (planned, exclude) = plan_crafting_priority(
        &mut state, &character, &xp, &mut supply,
        &|i: usize, k: usize, have: i32| whole_share(&all, i, k, have),
        &|i: usize, k: usize, n: i32| whole_need(&all, i, k, n),
    );
    let codes: Vec<(&str, i32)> = planned.iter().map(|e| (e.code.as_str(), e.quantity)).collect();
    // The sword for the upgrade first; the three bars left make one dagger of the ten wished for.
    assert_eq!(codes, [("sword", 1), ("dagger", 1)]);
    assert_eq!(exclude, ["sword", "dagger"]);
    assert_eq!(supply.get("bar"), Some(&1));
    // Ten swords and nine daggers of the wishlist have to wait.
    assert_eq!(state.reserved_materials_snapshot().get("bar"), Some(&(10 * 5 + 9 * 2)));
}

#[test]
fn a_trip_is_planned_from_the_bank() {
    let items = || vec![
        make_craft_item("dagger", 3, "weapon", "weaponcrafting", vec![("bar", 2)]),
        make_craft_item("trinket", 1, "ring", "cooking", vec![("wood", 1)]),
    ];
    let mut state = GameState::new(blank_data(items()));
    state.update_bank(vec![BankItem { code: "bar".into(), quantity: 9 }]);
    let mut character = blank_character();
    character.inventory_max_items = 7;
    let xp = craft_xp(&character, &items());
    let all = items();
    let share = |i: usize, k: usize, have: i32| whole_share(&all, i, k, have);
    let need = |i: usize, k: usize, n: i32| whole_need(&all, i, k, n);
    let (candidates, trip) = plan_next_trip(&mut state, &character, &xp, &share, &need);
    assert_eq!((candidates.len(), candidates[0].quantity), (1, 4));
    // Three fit the bag, with one place free.
    assert_eq!((trip.plan[0].code.as_str(), trip.plan[0].quantity), ("dagger", 3));
    let preview = preview_plan(&mut state, &character, &xp, &share, &need);
    assert_eq!((preview.len(), preview[0].quantity), (1, 4));
}

#[test]
fn spending_takes_exactly_the_ingredients() {
    let ings = [
        CraftIngredient { code: "bar".into(), quantity: 2 },
        CraftIngredient { code: "wood".into(), quantity: 1 },
    ];
    let mut supply = supply_of(&[("bar", 3), ("wood", 1), ("gem", 4)]);
    assert!(has_all(&supply, &ings));
    spend(&mut supply, &ings);
    assert_eq!((supply.get("bar"), supply.get("wood"), supply.get("gem")), (Some(&1), Some(&0), Some(&4)));
    assert!(!has_all(&supply, &ings));
}
