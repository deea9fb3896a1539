use artifactsmmo::api::GameData;
use artifactsmmo::flags::{Flag, FlagAction, GameState};
use artifactsmmo::loops::bank_round::{start_deposit, start_round_trip, BankOrder};
use artifactsmmo::loops::crafting_exec::{CraftingTrip, FinalizedCraft};
use artifactsmmo::loops::crafting_round::{start_trip, CraftOrder};
use artifactsmmo::loops::flag_round::{start_round, FlagOrder};
use artifactsmmo::loops::food_round::{next_food_order, FoodOrder, FoodStep};
use artifactsmmo::loops::refining_round::{refining_place, start_refining, RefineOrder};
use artifactsmmo::loops::utility_round::{start_filling, start_topping_up, UtilityOrder};
use artifactsmmo::table::Table;
use artifactsmmo::types::{
    BankItem, Character, CraftInfo, CraftIngredient, DepositItem, InventorySlot, Item, ItemEffect,
    MapContent, MapInteractions, MapTile,
};

fn blank_character() -> Character {
    Character {
        name: "test".into(), account: "test".into(), skin: "".into(),
        level: 10, xp: 0, max_xp: 0, gold: 0, speed: 0,
        mining_level: 1, mining_xp: 0, mining_max_xp: 0,
        woodcutting_level: 1, woodcutting_xp: 0, woodcutting_max_xp: 0,
        fishing_level: 1, fishing_xp: 0, fishing_max_xp: 0,
        weaponcrafting_level: 1, weaponcrafting_xp: 0, weaponcrafting_max_xp: 0,
        gearcrafting_level: 1, gearcrafting_xp: 0, gearcrafting_max_xp: 0,
        jewelrycrafting_level: 1, jewelrycrafting_xp: 0, jewelrycrafting_max_xp: 0,
        cooking_level: 1, cooking_xp: 0, cooking_max_xp: 0,
        alchemy_level: 1, alchemy_xp: 0, alchemy_max_xp: 0,
        hp: 100, max_hp: 100, haste: 0, critical_strike: 0, wisdom: 0,
        prospecting: 0, initiative: 0, threat: 0,
        attack_fire: 0, attack_earth: 0, attack_water: 0, attack_air: 0,
        dmg: 0, dmg_fire: 0, dmg_earth: 0, dmg_water: 0, dmg_air: 0,
        res_fire: 0, res_earth: 0, res_water: 0, res_air: 0,
        effects: vec![], x: 0, y: 0, layer: "interior".into(), map_id: 0,
        cooldown: 0, cooldown_expiration: None,
        weapon_slot: "".into(), rune_slot: "".into(), shield_slot: "".into(),
        helmet_slot: "".into(), body_armor_slot: "".into(), leg_armor_slot: "".into(),
        boots_slot: "".into(), ring1_slot: "".into(), ring2_slot: "".into(),
        amulet_slot: "".into(), artifact1_slot: "".into(), artifact2_slot: "".into(),
        artifact3_slot: "".into(), utility1_slot: "".into(), utility1_slot_quantity: 0,
        utility2_slot: "".into(), utility2_slot_quantity: 0, bag_slot: "".into(),
        task: "".into(), task_type: "".into(), task_progress: 0, task_total: 0,
        inventory_max_items: 100, inventory: vec![],
    }
}

fn blank_data(items: Vec<Item>) -> GameData {
    GameData { monsters: vec![], items, resources: vec![], maps: vec![], craftable_equip: vec![] }
}

fn slot(code: &str, quantity: i32) -> InventorySlot {
    InventorySlot { slot: 1, code: code.into(), quantity }
}

fn to_bank(character: &mut Character) {
    character.x = 4;
    character.y = 1;
}

fn pairs(items: &[DepositItem]) -> Vec<(&str, i32)> {
    items.iter().map(|d| (d.code.as_str(), d.quantity)).collect()
}

#[test]
fn a_deposit_leaves_nothing_behind() {
    let mut character = blank_character();
    assert!(matches!(start_deposit(&character).next(&character), BankOrder::Finish));
    character.inventory = vec![slot("ore", 3), slot("", 0), slot("gem", 1)];
    character.gold = 5;
    let mut trip = start_deposit(&character);
    assert!(matches!(trip.next(&character), BankOrder::GoToBank));
    to_bank(&mut character);
    match trip.next(&character) {
        BankOrder::Store(items) => assert_eq!(pairs(&items), [("ore", 3), ("gem", 1)]),
        other => panic!("expected a deposit, got {other:?}"),
    }
    character.inventory.clear();
    assert!(matches!(trip.next(&character), BankOrder::Pay { gold: 5 }));
    character.gold = 0;
    assert!(matches!(trip.next(&character), BankOrder::Finish));
}

#[test]
fn a_round_trip_ends_where_it_began() {
    let mut character = blank_character();
    character.x = 8;
    character.y = -2;
    let mut trip = start_round_trip(&character);
    assert!(matches!(trip.next(&character), BankOrder::GoToBank));
    to_bank(&mut character);
    assert!(matches!(trip.next(&character), BankOrder::GoBack { x: 8, y: -2 }));
    assert!(matches!(trip.next(&character), BankOrder::Finish));
}

#[test]
fn a_flag_round_puts_on_upgrades_and_acts_on_the_rest() {
    let mut character = blank_character();
    character.boots_slot = "old_boots".into();
    let mut state = GameState::new(blank_data(vec![]));
    let flag = |action: FlagAction| Flag { from_character: "bank".into(), action };
    let mut round = start_round(
        vec![
            flag(FlagAction::MerchantSummon),
            flag(FlagAction::EquipUpgrade { slot: "boots".into(), item_code: "new_boots".into() }),
            flag(FlagAction::HealingConsumablesAvailable),
        ],
        &character,
    );
    assert!(matches!(round.next(&character, &mut state, "test"), FlagOrder::StoreAll));
    to_bank(&mut character);
    match round.next(&character, &mut state, "test") {
        FlagOrder::TakeOff(bodies) => assert_eq!(bodies[0].slot, "boots"),
        other => panic!("expected to take off, got {other:?}"),
    }
    match round.next(&character, &mut state, "test") {
        FlagOrder::Withdraw(items) => assert_eq!(pairs(&items), [("new_boots", 1)]),
        other => panic!("expected a withdrawal, got {other:?}"),
    }
    match round.next(&character, &mut state, "test") {
        FlagOrder::PutOn(bodies) => assert_eq!(bodies[0].code, "new_boots"),
        other => panic!("expected to put on, got {other:?}"),
    }
    assert_eq!(state.equipped_snapshot("test").len(), 0);
    assert!(matches!(round.next(&character, &mut state, "test"), FlagOrder::Reposition));
    assert_eq!(state.equipped_snapshot("test").get("boots"), Some(&"new_boots".to_string()));
    character.x = 9;
    assert!(matches!(round.next(&character, &mut state, "test"), FlagOrder::GoToBank));
    to_bank(&mut character);
    assert!(matches!(round.next(&character, &mut state, "test"), FlagOrder::Act(0)));
    assert!(matches!(round.next(&character, &mut state, "test"), FlagOrder::Act(1)));
    // It has found its target anew, so it does not go back.
    assert!(matches!(round.next(&character, &mut state, "test"), FlagOrder::Finish));
}

#[test]
fn a_flag_round_without_upgrades_goes_back() {
    let mut character = blank_character();
    let mut state = GameState::new(blank_data(vec![]));
    let pending = vec![Flag { from_character: "x".into(), action: FlagAction::MerchantSummon }];
    let mut round = start_round(pending, &character);
    assert!(matches!(round.next(&character, &mut state, "test"), FlagOrder::GoToBank));
    to_bank(&mut character);
    assert!(matches!(round.next(&character, &mut state, "test"), FlagOrder::Act(0)));
    assert!(matches!(round.next(&character, &mut state, "test"), FlagOrder::GoBack { x: 0, y: 0 }));
    assert!(matches!(round.next(&character, &mut state, "test"), FlagOrder::Finish));
}

#[test]
fn a_crafting_trip_makes_everything_and_comes_back() {
    let mut character = blank_character();
    let trip = CraftingTrip {
        withdraw: vec![DepositItem { code: "bar".into(), quantity: 8 }],
        plan: vec![
            FinalizedCraft { code: "sword".into(), skill: "weaponcrafting".into(), quantity: 2 },
            FinalizedCraft { code: "ring".into(), skill: "jewelrycrafting".into(), quantity: 1 },
        ],
    };
    let mut round = start_trip(trip);
    assert!(matches!(round.next(&character), CraftOrder::GoToBank));
    to_bank(&mut character);
    match round.next(&character) {
        CraftOrder::Withdraw(items) => assert_eq!(pairs(&items), [("bar", 8)]),
        other => panic!("expected a withdrawal, got {other:?}"),
    }
    for (item, skill, qty) in [("sword", "weaponcrafting", 2), ("ring", "jewelrycrafting", 1)] {
        match round.next(&character) {
            CraftOrder::GoToWorkshop { skill: s } => assert_eq!(s, skill),
            other => panic!("expected a workshop, got {other:?}"),
        }
        character.x = 7;
        match round.next(&character) {
            CraftOrder::Craft { code, quantity } => assert_eq!((code.as_str(), quantity), (item, qty)),
            other => panic!("expected a craft, got {other:?}"),
        }
    }
    character.inventory = vec![slot("sword", 2), slot("ring", 1)];
    character.gold = 3;
    assert!(matches!(round.next(&character), CraftOrder::GoToBank));
    to_bank(&mut character);
    match round.next(&character) {
        CraftOrder::Store(items) => assert_eq!(pairs(&items), [("sword", 2), ("ring", 1)]),
        other => panic!("expected a deposit, got {other:?}"),
    }
    character.inventory.clear();
    assert!(matches!(round.next(&character), CraftOrder::Pay { gold: 3 }));
    assert!(matches!(round.next(&character), CraftOrder::Replan));
}

fn bar() -> Item {
    Item {
        name: "bar".into(), code: "bar".into(), level: 1, item_type: "resource".into(),
        subtype: "".into(), description: "".into(), conditions: vec![], effects: vec![],
        craft: Some(CraftInfo {
            skill: Some("mining".into()), level: None,
            items: vec![CraftIngredient { code: "ore".into(), quantity: 10 }],
            quantity: 1,
        }),
        tradeable: true, recyclable: false,
    }
}

#[test]
fn refining_needs_a_skill_and_a_workshop() {
    let tile = MapTile {
        map_id: 1, name: "forge".into(), skin: "".into(), x: 1, y: 5, layer: "overworld".into(),
        access: None,
        interactions: Some(MapInteractions {
            content: Some(MapContent { content_type: "workshop".into(), code: "mining".into() }),
            transition: None,
        }),
    };
    let maps = [tile];
    let (skill, places) = refining_place("mining", &maps).unwrap();
    assert_eq!((skill, places.len()), ("mining", 1));
    assert!(refining_place("fishing", &maps).is_none());
    assert!(refining_place("alchemy", &maps).is_none());
}

#[test]
fn refining_works_off_batches_and_deposits_the_rest() {
    let items = [bar()];
    let none: Table<i32> = Table::new();
    let mut character = blank_character();
    character.inventory = vec![slot("ore", 25)];
    let mut bank = vec![BankItem { code: "ore".into(), quantity: 5 }];
    let mut round = start_refining();
    assert!(matches!(round.next(&items, &bank, &character, &none, "mining"), RefineOrder::GoToBank));
    to_bank(&mut character);
    match round.next(&items, &bank, &character, &none, "mining") {
        RefineOrder::Withdraw(list) => assert_eq!(pairs(&list), [("ore", 5)]),
        other => panic!("expected a withdrawal, got {other:?}"),
    }
    character.inventory = vec![slot("ore", 30)];
    bank[0].quantity = 0;
    assert!(matches!(round.next(&items, &bank, &character, &none, "mining"), RefineOrder::GoToWorkshop));
    match round.next(&items, &bank, &character, &none, "mining") {
        RefineOrder::Craft { code, quantity } => assert_eq!((code.as_str(), quantity), ("bar", 3)),
        other => panic!("expected a craft, got {other:?}"),
    }
    character.inventory = vec![slot("bar", 3)];
    // Nothing is left to refine: everything goes to the bank, and that is the end.
    assert!(matches!(round.next(&items, &bank, &character, &none, "mining"), RefineOrder::StoreAll));
    assert!(matches!(round.next(&items, &bank, &character, &none, "mining"), RefineOrder::Finish));
}

#[test]
fn a_full_bag_is_emptied_before_refining() {
    let items = [bar()];
    let none: Table<i32> = Table::new();
    let mut character = blank_character();
    character.inventory = vec![slot("ore", 100)];
    let mut round = start_refining();
    assert!(matches!(round.next(&items, &[], &character, &none, "mining"), RefineOrder::StoreAll));
    character.inventory.clear();
    to_bank(&mut character);
    let bank = [BankItem { code: "ore".into(), quantity: 100 }];
    match round.next(&items, &bank, &character, &none, "mining") {
        RefineOrder::Withdraw(list) => assert_eq!(pairs(&list), [("ore", 100)]),
        other => panic!("expected a withdrawal, got {other:?}"),
    }
}

#[test]
fn a_round_keeps_the_reservations_of_its_batch() {
    let items = [bar()];
    let mut held_back: Table<i32> = Table::new();
    held_back.insert("ore".to_string(), 5);
    held_back.insert("wood".to_string(), 9);
    let none: Table<i32> = Table::new();
    let mut character = blank_character();
    character.inventory = vec![slot("ore", 25)];
    let mut round = start_refining();
    assert_eq!(round.plan.reserved.get("ore"), None);
    // Two bars from twenty; only the reservation of ore stood in the way of a third.
    assert!(matches!(round.next(&items, &[], &character, &held_back, "mining"), RefineOrder::GoToWorkshop));
    assert_eq!(round.plan.reserved.get("ore"), Some(&5));
    assert_eq!(round.plan.reserved.get("wood"), None);
    // While the batch is worked off they stay, whatever is reserved meanwhile.
    match round.next(&items, &[], &character, &none, "mining") {
        RefineOrder::Craft { code, quantity } => assert_eq!((code.as_str(), quantity), ("bar", 2)),
        other => panic!("expected a craft, got {other:?}"),
    }
    assert_eq!(round.plan.reserved.get("ore"), Some(&5));
    // The next batch brings its own.
    character.inventory = vec![slot("ore", 5), slot("bar", 2)];
    assert!(matches!(round.next(&items, &[], &character, &none, "mining"), RefineOrder::StoreAll));
    assert_eq!(round.plan.reserved.get("ore"), None);
}

fn consumable(code: &str, item_type: &str, effect: &str) -> Item {
    Item {
        name: code.into(), code: code.into(), level: 1, item_type: item_type.into(),
        subtype: "".into(), description: "".into(), conditions: vec![],
        effects: vec![ItemEffect { code: effect.into(), value: 30, description: "".into() }],
        craft: None, tradeable: true, recyclable: false,
    }
}

#[test]
fn empty_utility_slots_are_filled_in_passes() {
    let data = blank_data(vec![consumable("potion", "utility", "restore")]);
    let bank = [BankItem { code: "potion".into(), quantity: 80 }];
    let mut character = blank_character();
    character.inventory_max_items = 50;
    let mut round = start_filling(&character);
    assert!(matches!(round.next(&character, &data, &bank), UtilityOrder::StoreAll));
    assert!(matches!(round.next(&character, &data, &bank), UtilityOrder::GoToBank));
    to_bank(&mut character);
    for quantity in [50, 30] {
        match round.next(&character, &data, &bank) {
            UtilityOrder::Withdraw(list) => assert_eq!(pairs(&list), [("potion", quantity)]),
            other => panic!("expected a withdrawal, got {other:?}"),
        }
        match round.next(&character, &data, &bank) {
            UtilityOrder::PutOn(bodies) => {
                assert_eq!((bodies[0].slot.as_str(), bodies[0].quantity), ("utility1", quantity))
            }
            other => panic!("expected to put on, got {other:?}"),
        }
    }
    assert!(matches!(round.next(&character, &data, &bank), UtilityOrder::Finish));
    assert!(round.equipped);
}

#[test]
fn full_utility_slots_need_nothing() {
    let data = blank_data(vec![consumable("potion", "utility", "restore")]);
    let bank = [BankItem { code: "potion".into(), quantity: 80 }];
    let mut character = blank_character();
    character.utility1_slot = "potion".into();
    character.utility1_slot_quantity = 100;
    character.utility2_slot = "boost".into();
    character.utility2_slot_quantity = 10;
    let mut filling = start_filling(&character);
    assert!(matches!(filling.next(&character, &data, &bank), UtilityOrder::Finish));
    assert!(!filling.equipped);
    let mut topping = start_topping_up();
    assert!(matches!(topping.next(&character, &data, &bank), UtilityOrder::Finish));
    character.utility1_slot_quantity = 95;
    let mut topping = start_topping_up();
    assert!(matches!(topping.next(&character, &data, &bank), UtilityOrder::GoToBank));
    match topping.next(&character, &data, &bank) {
        UtilityOrder::Withdraw(list) => assert_eq!(pairs(&list), [("potion", 5)]),
        other => panic!("expected a withdrawal, got {other:?}"),
    }
}

#[test]
fn food_is_fetched_or_waited_for() {
    let mut state = GameState::new(blank_data(vec![consumable("bread", "consumable", "heal")]));
    let mut character = blank_character();
    let (order, step) = next_food_order(FoodStep::Ready, &character, &mut state, "test");
    assert!(matches!((order, step), (FoodOrder::Finish, FoodStep::Over)));
    // It waits to be told, and is.
    state.update_bank(vec![BankItem { code: "bread".into(), quantity: 40 }]);
    assert_eq!(state.drain_flags("test").len(), 1);
    let (order, step) = next_food_order(FoodStep::Ready, &character, &mut state, "test");
    assert!(matches!(order, FoodOrder::StoreAll));
    let (order, step) = next_food_order(step, &character, &mut state, "test");
    assert!(matches!(order, FoodOrder::FillUtilities));
    let (order, step) = next_food_order(step, &character, &mut state, "test");
    assert!(matches!(order, FoodOrder::TopUpUtilities));
    let (order, step) = next_food_order(step, &character, &mut state, "test");
    assert!(matches!(order, FoodOrder::GoToBank));
    to_bank(&mut character);
    let (order, step) = next_food_order(step, &character, &mut state, "test");
    match order {
        FoodOrder::Withdraw(list) => assert_eq!(pairs(&list), [("bread", 40)]),
        other => panic!("expected a withdrawal, got {other:?}"),
    }
    assert_eq!(step, FoodStep::Over);
    character.inventory = vec![slot("bread", 1)];
    let (order, _) = next_food_order(FoodStep::Ready, &character, &mut state, "test");
    assert!(matches!(order, FoodOrder::Finish));
}
