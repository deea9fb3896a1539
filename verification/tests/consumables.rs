use artifactsmmo::api::GameData;
use artifactsmmo::loops::bank_ops::{
    gold_to_deposit, inventory_qty, is_at_bank, total_carried, used_slots,
};
use artifactsmmo::loops::consumables::{
    bank_has_healing_consumable, food_errand, heal_quantity_needed, heal_value,
    inventory_healing_consumable_qty, next_heal, plan_food_fetch,
    plan_healing_consumable_withdrawal, FoodErrand, HealAction, MAX_HEALING_CONSUMABLE_SLOTS,
};
use artifactsmmo::types::{BankItem, Character, InventorySlot, Item, ItemCondition, ItemEffect};

fn blank_character() -> Character {
    Character {
        name: "test".into(), account: "test".into(), skin: "".into(),
        level: 50, xp: 0, max_xp: 0, gold: 0, speed: 0,
        mining_level: 1, mining_xp: 0, mining_max_xp: 0,
        woodcutting_level: 1, woodcutting_xp: 0, woodcutting_max_xp: 0,
        fishing_level: 1, fishing_xp: 0, fishing_max_xp: 0,
        weaponcrafting_level: 1, weaponcrafting_xp: 0, weaponcrafting_max_xp: 0,
        gearcrafting_level: 1, gearcrafting_xp: 0, gearcrafting_max_xp: 0,
        jewelrycrafting_level: 1, jewelrycrafting_xp: 0, jewelrycrafting_max_xp: 0,
        cooking_level: 1, cooking_xp: 0, cooking_max_xp: 0,
        alchemy_level: 1, alchemy_xp: 0, alchemy_max_xp: 0,
        hp: 100, max_hp: 100, haste: 0, critical_strike: 0, wisdom: 0,
        prospecting: 0, initiative: 0, threat: 0,
        attack_fire: 0, attack_earth: 0, attack_water: 0, attack_air: 0,
        dmg: 0, dmg_fire: 0, dmg_earth: 0, dmg_water: 0, dmg_air: 0,
        res_fire: 0, res_earth: 0, res_water: 0, res_air: 0,
        effects: vec![], x: 0, y: 0, layer: "interior".into(), map_id: 0,
        cooldown: 0, cooldown_expiration: None,
        weapon_slot: "".into(), rune_slot: "".into(), shield_slot: "".into(),
        helmet_slot: "".into(), body_armor_slot: "".into(), leg_armor_slot: "".into(),
        boots_slot: "".into(), ring1_slot: "".into(), ring2_slot: "".into(),
        amulet_slot: "".into(), artifact1_slot: "".into(), artifact2_slot: "".into(),
        artifact3_slot: "".into(), utility1_slot: "".into(), utility1_slot_quantity: 0,
        utility2_slot: "".into(), utility2_slot_quantity: 0, bag_slot: "".into(),
        task: "".into(), task_type: "".into(), task_progress: 0, task_total: 0,
        inventory_max_items: 100, inventory: vec![],
    }
}

fn food_item(code: &str, level: i32, heal: i32) -> Item {
    Item {
        name: code.into(), code: code.into(), level, item_type: "consumable".into(),
        subtype: "food".into(), description: "".into(),
        conditions: vec![ItemCondition { code: "level".into(), operator: "gt".into(), value: level - 1 }],
        effects: vec![ItemEffect { code: "heal".into(), value: heal, description: "".into() }],
        craft: None, tradeable: true, recyclable: false,
    }
}

fn utility_potion(code: &str) -> Item {
    Item {
        name: code.into(), code: code.into(), level: 5, item_type: "utility".into(),
        subtype: "potion".into(), description: "".into(), conditions: vec![],
        effects: vec![ItemEffect { code: "restore".into(), value: 30, description: "".into() }],
        craft: None, tradeable: true, recyclable: false,
    }
}

fn blank_data(items: Vec<Item>) -> GameData {
    GameData { monsters: vec![], items, resources: vec![], maps: vec![], craftable_equip: vec![] }
}

#[test]
fn heal_value_reads_the_heal_effect() {
    assert_eq!(heal_value(&food_item("cooked_chicken", 1, 80)), 80);
    // A utility potion restores, which is not the same as healing.
    assert_eq!(heal_value(&utility_potion("small_health_potion")), 0);
}

/// Only food counts: a utility potion in the inventory is none.
#[test]
fn inventory_qty_ignores_utility_potions() {
    let mut character = blank_character();
    character.inventory = vec![
        InventorySlot { slot: 1, code: "cooked_chicken".into(), quantity: 3 },
        InventorySlot { slot: 2, code: "small_health_potion".into(), quantity: 5 },
    ];
    let data = blank_data(vec![food_item("cooked_chicken", 1, 80), utility_potion("small_health_potion")]);

    assert_eq!(inventory_healing_consumable_qty(&character, &data), 3);
}

#[test]
fn bank_has_healing_consumable_requires_positive_quantity() {
    let data = blank_data(vec![food_item("cooked_chicken", 1, 80)]);
    assert!(!bank_has_healing_consumable(&[BankItem { code: "cooked_chicken".into(), quantity: 0 }], &data));
    assert!(bank_has_healing_consumable(&[BankItem { code: "cooked_chicken".into(), quantity: 1 }], &data));
}

#[test]
fn heal_quantity_needed_covers_the_gap_in_one_call() {
    // 50 hp missing, 80 hp/use -> 1 is enough.
    assert_eq!(heal_quantity_needed(50, 100, 80, 10), 1);
    // 200 hp missing, 80 hp/use -> ceil(200/80) = 3.
    assert_eq!(heal_quantity_needed(0, 200, 80, 10), 3);
    // Never eat more than what's held, even if it doesn't fully cover the gap.
    assert_eq!(heal_quantity_needed(0, 200, 80, 2), 2);
    // Always at least 1 while still below threshold.
    assert_eq!(heal_quantity_needed(99, 100, 80, 10), 1);
}

#[test]
fn heal_quantity_at_the_edges() {
    assert_eq!(heal_quantity_needed(100, 100, 80, 10), 1);
    assert_eq!(heal_quantity_needed(0, 5, 0, 10), 5);
    assert_eq!(heal_quantity_needed(0, 5, 1, 0), 1);
    assert_eq!(heal_quantity_needed(i32::MIN, i32::MAX, 1, i32::MAX), i32::MAX);
}

/// At most `MAX_HEALING_CONSUMABLE_SLOTS` kinds are taken, whatever the bank holds.
#[test]
fn withdrawal_plan_never_exceeds_the_slot_cap() {
    let data = blank_data(vec![
        food_item("cooked_desert_scorpion_meat", 50, 800),
        food_item("cooked_hellhound_meat", 40, 600),
        food_item("fish_soup", 40, 500),
        food_item("cooked_salmon", 40, 400),
        food_item("cooked_rat_meat", 30, 400),
    ]);
    let bank = vec![
        BankItem { code: "cooked_desert_scorpion_meat".into(), quantity: 50 },
        BankItem { code: "cooked_hellhound_meat".into(), quantity: 50 },
        BankItem { code: "fish_soup".into(), quantity: 50 },
        BankItem { code: "cooked_salmon".into(), quantity: 50 },
        BankItem { code: "cooked_rat_meat".into(), quantity: 50 },
    ];

    // A large target so quantity is never the binding constraint — only the slot cap is.
    let plan = plan_healing_consumable_withdrawal(&blank_character(), &data, &bank, 1000, 0, 0);

    assert_eq!(plan.len(), MAX_HEALING_CONSUMABLE_SLOTS);
    // Highest heal-value first.
    let codes: Vec<&str> = plan.iter().map(|(c, _)| c.as_str()).collect();
    assert_eq!(codes, vec!["cooked_desert_scorpion_meat", "cooked_hellhound_meat", "fish_soup"]);
}

/// The plan never asks for more than fits under the target, already-held items included.
#[test]
fn withdrawal_plan_respects_target_quantity() {
    let data = blank_data(vec![food_item("cooked_chicken", 1, 80)]);
    let bank = vec![BankItem { code: "cooked_chicken".into(), quantity: 500 }];

    let plan = plan_healing_consumable_withdrawal(&blank_character(), &data, &bank, 95, 90, 0);

    assert_eq!(plan, vec![("cooked_chicken".to_string(), 5)]);
}

#[test]
fn withdrawal_plan_minds_free_slots_and_level() {
    let data = blank_data(vec![food_item("too_good", 51, 900), food_item("a", 1, 80), food_item("b", 1, 70)]);
    let bank = vec![
        BankItem { code: "too_good".into(), quantity: 5 },
        BankItem { code: "a".into(), quantity: 5 },
        BankItem { code: "b".into(), quantity: 5 },
    ];
    let plan = plan_healing_consumable_withdrawal(&blank_character(), &data, &bank, 100, 0, 19);
    assert_eq!(plan, vec![("a".to_string(), 5)]);
    assert!(plan_healing_consumable_withdrawal(&blank_character(), &data, &bank, 100, 0, 25).is_empty());
    assert!(plan_healing_consumable_withdrawal(&blank_character(), &data, &bank, 50, 60, 0).is_empty());
}

#[test]
fn food_is_fetched_up_to_nineteen_twentieths() {
    let data = blank_data(vec![food_item("a", 1, 80)]);
    let bank = vec![BankItem { code: "a".into(), quantity: 500 }];
    let mut character = blank_character();
    character.inventory_max_items = 110;
    character.inventory = vec![InventorySlot { slot: 1, code: "ore".into(), quantity: 4 }];
    let plan = plan_food_fetch(&character, &data, &bank);
    assert_eq!(plan.len(), 1);
    // floor(110 * 0.95) = 104, less the 4 carried.
    assert_eq!(plan[0].quantity, 100);
}

#[test]
fn out_of_food_means_fetching_or_waiting() {
    let data = blank_data(vec![food_item("a", 1, 80)]);
    let mut character = blank_character();
    let full = [BankItem { code: "a".into(), quantity: 5 }];
    assert_eq!(food_errand(&character, &data, &full), FoodErrand::Fetch);
    assert_eq!(food_errand(&character, &data, &[]), FoodErrand::Wait);
    character.inventory = vec![InventorySlot { slot: 1, code: "a".into(), quantity: 1 }];
    assert_eq!(food_errand(&character, &data, &full), FoodErrand::Nothing);
}

#[test]
fn eats_the_best_food_first_and_rests_without() {
    let data = blank_data(vec![food_item("snack", 1, 20), food_item("feast", 1, 90), utility_potion("potion")]);
    let mut character = blank_character();
    character.hp = 10;
    character.inventory = vec![
        InventorySlot { slot: 1, code: "potion".into(), quantity: 9 },
        InventorySlot { slot: 2, code: "snack".into(), quantity: 9 },
        InventorySlot { slot: 3, code: "feast".into(), quantity: 1 },
    ];
    match next_heal(&character, 100, &data) {
        HealAction::Eat { code, quantity } => {
            assert_eq!(code, "feast");
            assert_eq!(quantity, 1);
        }
        other => panic!("expected food, got {other:?}"),
    }
    character.inventory.truncate(1);
    assert!(matches!(next_heal(&character, 100, &data), HealAction::Rest));
    character.hp = 100;
    assert!(matches!(next_heal(&character, 100, &data), HealAction::Done));
}

#[test]
fn stock_is_counted_by_code_and_by_slot() {
    let mut character = blank_character();
    character.inventory = vec![
        InventorySlot { slot: 1, code: "ore".into(), quantity: 3 },
        InventorySlot { slot: 2, code: "".into(), quantity: 0 },
        InventorySlot { slot: 3, code: "ore".into(), quantity: 2 },
    ];
    assert_eq!(inventory_qty(&character.inventory, "ore"), 5);
    assert_eq!(total_carried(&character.inventory), 5);
    assert_eq!(used_slots(&character.inventory), 2);
    assert_eq!(gold_to_deposit(&character), None);
    character.gold = 7;
    assert_eq!(gold_to_deposit(&character), Some(7));
    assert!(!is_at_bank(&character));
    character.x = 4;
    character.y = 1;
    assert!(is_at_bank(&character));
}
