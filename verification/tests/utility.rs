use artifactsmmo::api::GameData;
use artifactsmmo::loops::utility::{
    is_health_potion, pick_utility_loadout, plan_utility_pass, requests_for, room_for_items,
    room_for_stacks, slot_is_empty, top_up_requests, UtilityRequest,
};
use artifactsmmo::types::{BankItem, Character, InventorySlot, Item, ItemCondition, ItemEffect};

fn blank_character() -> Character {
    Character {
        name: "test".into(), account: "test".into(), skin: "".into(),
        level: 50, xp: 0, max_xp: 0, gold: 0, speed: 0,
        mining_level: 1, mining_xp: 0, mining_max_xp: 0,
        woodcutting_level: 1, woodcutting_xp: 0, woodcutting_max_xp: 0,
        fishing_level: 1, fishing_xp: 0, fishing_max_xp: 0,
        weaponcrafting_level: 1, weaponcrafting_xp: 0, weaponcrafting_max_xp: 0,
        gearcrafting_level: 1, gearcrafting_xp: 0, gearcrafting_max_xp: 0,
        jewelrycrafting_level: 1, jewelrycrafting_xp: 0, jewelrycrafting_max_xp: 0,
        cooking_level: 1, cooking_xp: 0, cooking_max_xp: 0,
        alchemy_level: 1, alchemy_xp: 0, alchemy_max_xp: 0,
        hp: 100, max_hp: 100, haste: 0, critical_strike: 0, wisdom: 0,
        prospecting: 0, initiative: 0, threat: 0,
        attack_fire: 0, attack_earth: 0, attack_water: 0, attack_air: 0,
        dmg: 0, dmg_fire: 0, dmg_earth: 0, dmg_water: 0, dmg_air: 0,
        res_fire: 0, res_earth: 0, res_water: 0, res_air: 0,
        effects: vec![], x: 0, y: 0, layer: "interior".into(), map_id: 0,
        cooldown: 0, cooldown_expiration: None,
        weapon_slot: "".into(), rune_slot: "".into(), shield_slot: "".into(),
        helmet_slot: "".into(), body_armor_slot: "".into(), leg_armor_slot: "".into(),
        boots_slot: "".into(), ring1_slot: "".into(), ring2_slot: "".into(),
        amulet_slot: "".into(), artifact1_slot: "".into(), artifact2_slot: "".into(),
        artifact3_slot: "".into(), utility1_slot: "".into(), utility1_slot_quantity: 0,
        utility2_slot: "".into(), utility2_slot_quantity: 0, bag_slot: "".into(),
        task: "".into(), task_type: "".into(), task_progress: 0, task_total: 0,
        inventory_max_items: 100, inventory: vec![],
    }
}

fn utility_item(code: &str, level: i32, effect_code: &str) -> Item {
    Item {
        name: code.into(), code: code.into(), level, item_type: "utility".into(),
        subtype: "potion".into(), description: "".into(),
        conditions: vec![ItemCondition { code: "level".into(), operator: "gt".into(), value: level - 1 }],
        effects: vec![ItemEffect { code: effect_code.into(), value: 10, description: "".into() }],
        craft: None, tradeable: true, recyclable: false,
    }
}

fn blank_data(items: Vec<Item>) -> GameData {
    GameData { monsters: vec![], items, resources: vec![], maps: vec![], craftable_equip: vec![] }
}

fn bank(entries: &[(&str, i32)]) -> Vec<BankItem> {
    entries.iter().map(|(code, qty)| BankItem { code: code.to_string(), quantity: *qty }).collect()
}

/// A health potion is forced into the loadout even where others have a higher level.
#[test]
fn forces_a_health_potion_even_when_outranked_by_level() {
    let character = blank_character();
    let data = blank_data(vec![
        utility_item("fire_boost_potion", 40, "boost_dmg_fire"),
        utility_item("small_health_potion", 5, "restore"),
    ]);
    let bank = bank(&[("fire_boost_potion", 50), ("small_health_potion", 20)]);

    let (p1, p2) = pick_utility_loadout(&character, &data, &bank, true, true);

    assert_eq!(p1, Some(("small_health_potion".to_string(), 20)));
    assert_eq!(p2, Some(("fire_boost_potion".to_string(), 50)));
}

/// The highest-level health potion is forced, and the next distinct item fills the other slot.
#[test]
fn prioritizes_highest_level_and_never_duplicates_a_code() {
    let character = blank_character();
    let data = blank_data(vec![
        utility_item("small_health_potion", 5, "restore"),
        utility_item("minor_health_potion", 20, "restore"),
    ]);
    let bank = bank(&[("small_health_potion", 100), ("minor_health_potion", 40)]);

    let (p1, p2) = pick_utility_loadout(&character, &data, &bank, true, true);

    assert_eq!(p1, Some(("minor_health_potion".to_string(), 40)));
    assert_eq!(p2, Some(("small_health_potion".to_string(), 100)));
}

/// Where the slot that stays holds no health potion, the free one gets it.
#[test]
fn forces_health_into_the_free_slot_when_locked_slot_is_not_one() {
    let mut character = blank_character();
    character.utility1_slot = "fire_boost_potion".into();
    character.utility1_slot_quantity = 12;

    let data = blank_data(vec![
        utility_item("fire_boost_potion", 40, "boost_dmg_fire"),
        utility_item("small_health_potion", 5, "restore"),
    ]);
    let bank_snapshot = bank(&[("fire_boost_potion", 50), ("small_health_potion", 20)]);

    let (p1, p2) = pick_utility_loadout(&character, &data, &bank_snapshot, false, true);

    assert_eq!(p1, None, "locked slot must not be reassigned");
    assert_eq!(p2, Some(("small_health_potion".to_string(), 20)));
}

/// Where the slot that stays holds a health potion, the free one takes the best of the rest.
#[test]
fn does_not_force_a_second_health_potion_when_one_is_already_locked_in() {
    let mut character = blank_character();
    character.utility1_slot = "small_health_potion".into();
    character.utility1_slot_quantity = 5;

    let data = blank_data(vec![
        utility_item("fire_boost_potion", 40, "boost_dmg_fire"),
        utility_item("small_health_potion", 5, "restore"),
    ]);
    let bank_snapshot = bank(&[("fire_boost_potion", 50), ("small_health_potion", 20)]);

    let (p1, p2) = pick_utility_loadout(&character, &data, &bank_snapshot, false, true);

    assert_eq!(p1, None);
    assert_eq!(p2, Some(("fire_boost_potion".to_string(), 50)));
}

/// Without a health potion in the bank, whatever there is gets picked.
#[test]
fn best_effort_when_no_health_potion_is_available() {
    let character = blank_character();
    let data = blank_data(vec![
        utility_item("fire_boost_potion", 40, "boost_dmg_fire"),
        utility_item("small_health_potion", 5, "restore"),
    ]);
    // Bank has the boost potion but zero health potions in stock.
    let bank_snapshot = bank(&[("fire_boost_potion", 50), ("small_health_potion", 0)]);

    let (p1, p2) = pick_utility_loadout(&character, &data, &bank_snapshot, true, true);

    assert_eq!(p1, Some(("fire_boost_potion".to_string(), 50)));
    assert_eq!(p2, None);
}

/// Quantity is capped at 100 even if the bank holds more.
#[test]
fn quantity_is_capped_at_max_stack() {
    let character = blank_character();
    let data = blank_data(vec![utility_item("small_health_potion", 5, "restore")]);
    let bank_snapshot = bank(&[("small_health_potion", 500)]);

    let (p1, _) = pick_utility_loadout(&character, &data, &bank_snapshot, true, true);

    assert_eq!(p1, Some(("small_health_potion".to_string(), 100)));
}

#[test]
fn splash_potions_are_no_health_potions() {
    assert!(is_health_potion(&utility_item("a", 1, "restore")));
    assert!(!is_health_potion(&utility_item("b", 1, "splash_restore")));
    assert!(slot_is_empty("", 5));
    assert!(slot_is_empty("potion", 0));
    assert!(!slot_is_empty("potion", 1));
}

#[test]
fn requests_follow_the_picks() {
    let requests = requests_for((None, Some(("potion".to_string(), 7))));
    assert_eq!(requests.len(), 1);
    assert_eq!((requests[0].slot, requests[0].code.as_str(), requests[0].remaining), ("utility2", "potion", 7));
}

#[test]
fn topping_up_never_swaps_the_item() {
    let mut character = blank_character();
    character.utility1_slot = "potion".into();
    character.utility1_slot_quantity = 70;
    character.utility2_slot = "boost".into();
    character.utility2_slot_quantity = 100;
    let stock = bank(&[("potion", 20), ("boost", 50), ("other", 50)]);
    let requests = top_up_requests(&character, &stock);
    assert_eq!(requests.len(), 1);
    assert_eq!((requests[0].slot, requests[0].code.as_str(), requests[0].remaining), ("utility1", "potion", 20));
    character.utility1_slot = "".into();
    assert!(top_up_requests(&character, &stock).is_empty());
}

#[test]
fn stocking_up_takes_several_passes_when_room_is_short() {
    let mut character = blank_character();
    character.inventory_max_items = 60;
    character.inventory = vec![InventorySlot { slot: 1, code: "ore".into(), quantity: 30 }];
    assert_eq!(room_for_items(&character), 30);
    assert_eq!(room_for_stacks(&character), 19);
    let mut requests = vec![
        UtilityRequest { slot: "utility1", code: "potion".into(), remaining: 25 },
        UtilityRequest { slot: "utility2", code: "boost".into(), remaining: 25 },
    ];
    let (withdraw, equip) = plan_utility_pass(&character, &mut requests);
    assert_eq!(withdraw.len(), 2);
    assert_eq!((equip[0].slot.as_str(), equip[0].quantity), ("utility1", 25));
    assert_eq!((equip[1].code.as_str(), equip[1].quantity), ("boost", 5));
    assert_eq!((requests[0].remaining, requests[1].remaining), (0, 20));
    // The room is free again once the items have been put on.
    let (withdraw, equip) = plan_utility_pass(&character, &mut requests);
    assert_eq!((withdraw.len(), equip.len()), (1, 1));
    assert_eq!((equip[0].slot.as_str(), equip[0].quantity), ("utility2", 20));
    let (withdraw, equip) = plan_utility_pass(&character, &mut requests);
    assert!(withdraw.is_empty() && equip.is_empty());
}
