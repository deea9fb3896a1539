use artifactsmmo::api::GameData;
use artifactsmmo::flags::{BankItemRequest, Flag, FlagAction, GameState};
use artifactsmmo::optimize::{current_slot_rating, equipped_codes, RankedItem, SlotRating};
use artifactsmmo::table::Table;
use artifactsmmo::types::{BankItem, Character, CraftInfo, CraftIngredient, Item, ItemEffect};

fn blank_character() -> Character {
    Character {
        name: "test".into(), account: "test".into(), skin: "".into(),
        level: 20, xp: 0, max_xp: 0, gold: 0, speed: 0,
        mining_level: 1, mining_xp: 0, mining_max_xp: 0,
        woodcutting_level: 1, woodcutting_xp: 0, woodcutting_max_xp: 0,
        fishing_level: 1, fishing_xp: 0, fishing_max_xp: 0,
        weaponcrafting_level: 1, weaponcrafting_xp: 0, weaponcrafting_max_xp: 0,
        gearcrafting_level: 1, gearcrafting_xp: 0, gearcrafting_max_xp: 0,
        jewelrycrafting_level: 1, jewelrycrafting_xp: 0, jewelrycrafting_max_xp: 0,
        cooking_level: 1, cooking_xp: 0, cooking_max_xp: 0,
        alchemy_level: 1, alchemy_xp: 0, alchemy_max_xp: 0,
        hp: 100, max_hp: 100, haste: 0, critical_strike: 0, wisdom: 0,
        prospecting: 0, initiative: 0, threat: 0,
        attack_fire: 0, attack_earth: 0, attack_water: 0, attack_air: 0,
        dmg: 0, dmg_fire: 0, dmg_earth: 0, dmg_water: 0, dmg_air: 0,
        res_fire: 0, res_earth: 0, res_water: 0, res_air: 0,
        effects: vec![], x: 0, y: 0, layer: "interior".into(), map_id: 0,
        cooldown: 0, cooldown_expiration: None,
        weapon_slot: "".into(), rune_slot: "".into(), shield_slot: "".into(),
        helmet_slot: "".into(), body_armor_slot: "".into(), leg_armor_slot: "".into(),
        boots_slot: "".into(), ring1_slot: "".into(), ring2_slot: "".into(),
        amulet_slot: "".into(), artifact1_slot: "".into(), artifact2_slot: "".into(),
        artifact3_slot: "".into(), utility1_slot: "".into(), utility1_slot_quantity: 0,
        utility2_slot: "".into(), utility2_slot_quantity: 0, bag_slot: "".into(),
        task: "".into(), task_type: "".into(), task_progress: 0, task_total: 0,
        inventory_max_items: 100, inventory: vec![],
    }
}

fn blank_data(items: Vec<Item>) -> GameData {
    GameData { monsters: vec![], items, resources: vec![], maps: vec![], craftable_equip: vec![] }
}

fn make_craft_item(code: &str, ingredients: Vec<(&str, i32)>) -> Item {
    Item {
        name: code.into(), code: code.into(), level: 1, item_type: "weapon".into(),
        subtype: "".into(), description: "".into(), conditions: vec![], effects: vec![],
        craft: Some(CraftInfo {
            skill: Some("weaponcrafting".into()),
            level: None,
            items: ingredients.into_iter().map(|(c, q)| CraftIngredient { code: c.into(), quantity: q }).collect(),
            quantity: 1,
        }),
        tradeable: true, recyclable: false,
    }
}

fn food(code: &str) -> Item {
    Item {
        item_type: "consumable".into(),
        effects: vec![ItemEffect { code: "heal".into(), value: 10, description: "".into() }],
        craft: None,
        ..make_craft_item(code, vec![])
    }
}

/// If the top-ranked item for a slot is not obtainable, the next one that is gets flagged.
#[test]
fn bank_flagging_falls_back_to_first_available_ranked_item() {
    let ranked = vec![
        RankedItem { code: "amulet_rank1".into(), rating: 300 },
        RankedItem { code: "amulet_rank2".into(), rating: 200 },
        RankedItem { code: "amulet_rank3".into(), rating: 100 },
    ];
    let slot_ratings = vec![SlotRating { slot: "amulet", category: "amulet", ranked }];

    let mut state = GameState::new(blank_data(vec![]));
    state.set_item_ratings("char1", slot_ratings, &blank_character());

    // Only the 3rd-ranked item is actually in the bank right now.
    state.update_bank(vec![BankItem { code: "amulet_rank3".into(), quantity: 1 }]);

    let flags = state.drain_flags("char1");
    assert_eq!(flags.len(), 1);
    match &flags[0].action {
        FlagAction::EquipUpgrade { slot, item_code } => {
            assert_eq!(slot, "amulet");
            assert_eq!(item_code, "amulet_rank3");
        }
        other => panic!("expected EquipUpgrade, got {other:?}"),
    }
    assert_eq!(flags[0].from_character, "bank");
}

/// A spare copy of an item the character already wears is not flagged again.
#[test]
fn bank_flagging_skips_item_already_equipped() {
    let ranked = vec![
        RankedItem { code: "amulet_rank1".into(), rating: 300 },
        RankedItem { code: "amulet_rank2".into(), rating: 200 },
    ];
    let slot_ratings = vec![SlotRating { slot: "amulet", category: "amulet", ranked }];

    let mut character = blank_character();
    character.amulet_slot = "amulet_rank1".into(); // already wearing the #1 pick

    let mut state = GameState::new(blank_data(vec![]));
    state.set_item_ratings("char1", slot_ratings, &character);

    // A spare copy of the already-equipped item is still sitting in the bank.
    state.update_bank(vec![BankItem { code: "amulet_rank1".into(), quantity: 1 }]);

    let flags = state.drain_flags("char1");
    assert!(flags.is_empty(), "should not re-flag an item already equipped in that slot");
}

/// An item that beats an empty slot but not what is worn is no upgrade.
#[test]
fn bank_flagging_refuses_downgrade_from_current_gear() {
    let ranked = vec![
        RankedItem { code: "good_weapon".into(), rating: 500 },
        RankedItem { code: "weak_weapon".into(), rating: 50 }, // beats empty, but not current gear
    ];
    let slot_ratings = vec![SlotRating { slot: "weapon", category: "weapon", ranked }];

    let mut character = blank_character();
    character.weapon_slot = "good_weapon".into();

    let mut state = GameState::new(blank_data(vec![]));
    state.set_item_ratings("char1", slot_ratings, &character);

    state.update_bank(vec![BankItem { code: "weak_weapon".into(), quantity: 1 }]);

    let flags = state.drain_flags("char1");
    assert!(flags.is_empty(), "should not flag a downgrade from currently-equipped gear");
}

/// The craft flag fires once every ingredient of a wishlisted item is there, for its owner only.
#[test]
fn craft_wishlist_gear_flag_fires_only_once_fully_craftable() {
    let mut state = GameState::new(blank_data(vec![make_craft_item("iron_sword", vec![("iron_bar", 2), ("wood", 1)])]));
    state.set_wishlist("crafter1", vec!["iron_sword".to_string()], vec![]);

    // Only one of the two ingredients present — must not fire yet.
    state.update_bank(vec![BankItem { code: "iron_bar".into(), quantity: 2 }]);
    assert!(state.drain_flags("crafter1").is_empty(), "should not fire with a missing ingredient");

    // Both ingredients now present in sufficient quantity — should fire.
    state.update_bank(vec![
        BankItem { code: "iron_bar".into(), quantity: 2 },
        BankItem { code: "wood".into(), quantity: 1 },
    ]);

    let flags = state.drain_flags("crafter1");
    assert_eq!(flags.len(), 1);
    assert!(matches!(flags[0].action, FlagAction::CraftWishlistGearAvailable));

    // Some other character was never registered as the wishlist owner and must never receive it.
    assert!(state.drain_flags("someone_else").is_empty());
}

/// Bank updates that keep the condition true do not pile up flags.
#[test]
fn craft_wishlist_gear_flag_is_deduplicated() {
    let mut state = GameState::new(blank_data(vec![make_craft_item("iron_sword", vec![("iron_bar", 2)])]));
    state.set_wishlist("crafter1", vec!["iron_sword".to_string()], vec![]);

    state.update_bank(vec![BankItem { code: "iron_bar".into(), quantity: 5 }]);
    state.update_bank(vec![BankItem { code: "iron_bar".into(), quantity: 5 }]);
    state.update_bank(vec![BankItem { code: "iron_bar".into(), quantity: 5 }]);

    let flags = state.drain_flags("crafter1");
    assert_eq!(flags.len(), 1, "repeated triggers of the same still-true condition should not pile up");
}

#[test]
fn fetch_requests_add_up_but_others_do_not() {
    let mut state = GameState::new(blank_data(vec![]));
    let fetch = || Flag {
        from_character: "a".into(),
        action: FlagAction::RetrieveFromBank(vec![BankItemRequest { code: "ore".into(), quantity: 2 }]),
    };
    state.set_flag("b", fetch());
    state.set_flag("b", fetch());
    state.set_flag("b", Flag { from_character: "a".into(), action: FlagAction::MerchantSummon });
    state.set_flag("b", Flag { from_character: "c".into(), action: FlagAction::MerchantSummon });
    let equip = |slot: &str, code: &str| Flag {
        from_character: "a".into(),
        action: FlagAction::EquipUpgrade { slot: slot.into(), item_code: code.into() },
    };
    state.set_flag("b", equip("ring1", "gold_ring"));
    state.set_flag("b", equip("ring2", "gold_ring"));
    state.set_flag("b", equip("ring1", "gold_ring"));
    let flags = state.drain_flags("b");
    assert_eq!(flags.len(), 5);
    assert_eq!(flags[2].from_character, "a");
    assert!(state.drain_flags("b").is_empty(), "draining leaves nothing");
}

#[test]
fn waiting_for_food_is_answered_once() {
    let mut state = GameState::new(blank_data(vec![food("bread"), make_craft_item("sword", vec![])]));
    state.await_healing_consumables("hungry");
    state.update_bank(vec![
        BankItem { code: "sword".into(), quantity: 3 },
        BankItem { code: "bread".into(), quantity: 0 },
    ]);
    assert!(state.drain_flags("hungry").is_empty());
    state.update_bank(vec![BankItem { code: "bread".into(), quantity: 1 }]);
    let flags = state.drain_flags("hungry");
    assert_eq!(flags.len(), 1);
    assert!(matches!(flags[0].action, FlagAction::HealingConsumablesAvailable));
    // The wait is over: the next restock tells nobody.
    state.update_bank(vec![BankItem { code: "bread".into(), quantity: 9 }]);
    assert!(state.drain_flags("hungry").is_empty());
}

#[test]
fn upgrades_found_right_after_rating_are_flagged() {
    let mut state = GameState::new(blank_data(vec![]));
    state.update_bank(vec![BankItem { code: "helmet_a".into(), quantity: 2 }]);
    state.flag_bank_upgrades_for("char1");
    assert!(state.drain_flags("char1").is_empty(), "no ratings yet");
    let ratings = vec![SlotRating {
        slot: "helmet",
        category: "helmet",
        ranked: vec![RankedItem { code: "helmet_a".into(), rating: 0 }],
    }];
    state.set_item_ratings("char1", ratings, &blank_character());
    state.flag_bank_upgrades_for("char1");
    // Rated no better than empty, but the slot is empty, so it is a pickup.
    assert_eq!(state.drain_flags("char1").len(), 1);
    state.set_equipped_slot("char1", "helmet", "helmet_a");
    state.flag_bank_upgrades_for("char1");
    assert!(state.drain_flags("char1").is_empty(), "already worn");
    assert_eq!(state.equipped_snapshot("char1").get("helmet"), Some(&"helmet_a".to_string()));
}

#[test]
fn shared_numbers_and_lists_are_remembered() {
    let mut state = GameState::new(blank_data(vec![]));
    assert_eq!(state.fighter_combat_level(), 1);
    assert_eq!(state.crafter_min_gear_level(), 1);
    state.set_fighter_combat_level(17);
    state.set_crafter_min_gear_level(4);
    assert_eq!(state.fighter_combat_level(), 17);
    assert_eq!(state.crafter_min_gear_level(), 4);
    let mut reserved: Table<i32> = Table::new();
    reserved.insert("bar".into(), 3);
    state.set_reserved_materials(reserved);
    assert_eq!(state.reserved_materials_snapshot().get("bar"), Some(&3));
    state.set_wishlist("c", vec!["sword".into()], vec!["potion".into()]);
    assert_eq!(state.wishlist_equipment_codes(), vec!["sword".to_string()]);
    assert_eq!(state.wishlist_alchemy_codes(), vec!["potion".to_string()]);
    state.update_bank(vec![BankItem { code: "ore".into(), quantity: 6 }]);
    assert_eq!(state.bank_quantity("ore"), 6);
    assert_eq!(state.bank_quantity("gem"), 0);
    assert_eq!(state.bank_snapshot().len(), 1);
    assert_eq!(state.all_item_ratings().len(), 0);
}

#[test]
fn rating_of_what_is_worn() {
    let ranked = vec![
        RankedItem { code: "a".into(), rating: 30 },
        RankedItem { code: "b".into(), rating: 20 },
    ];
    assert_eq!(current_slot_rating(&ranked, None), None);
    assert_eq!(current_slot_rating(&ranked, Some("b")), Some(20));
    assert_eq!(current_slot_rating(&ranked, Some("unknown")), Some(0));
    let rating = SlotRating { slot: "ring1", category: "ring", ranked };
    assert_eq!(rating.best_code(), Some("a"));
    assert_eq!(rating.best_rating(), 30);
}

#[test]
fn empty_slots_are_left_out_of_equipped_codes() {
    let mut character = blank_character();
    character.ring2_slot = "gold_ring".into();
    character.bag_slot = "satchel".into();
    let codes = equipped_codes(&character);
    assert_eq!(codes.len(), 1);
    assert_eq!(codes.get("ring2"), Some(&"gold_ring".to_string()));
}
