use artifactsmmo::api::client::{cooldown_left, retries_init, retry_delay_ms, ACTION_ATTEMPTS};
use artifactsmmo::api::game_data::is_craftable_equipment;
use artifactsmmo::api::getters::{first_of, next_page, page_values, reply_value};
use artifactsmmo::api::is_inventory_full;
use artifactsmmo::ranking::{
    find_first_best, find_last_best, is_less, rank_by_fraction, rank_by_key,
};
use artifactsmmo::table::Table;
use artifactsmmo::text::{contains_code, same};
use artifactsmmo::types::{
    ApiError, ApiResponse, Character, CraftInfo, InventorySlot, Item, PagedResponse,
};

fn blank_character() -> Character {
    Character {
        name: "test".into(), account: "test".into(), skin: "".into(),
        level: 1, xp: 0, max_xp: 0, gold: 0, speed: 0,
        mining_level: 1, mining_xp: 0, mining_max_xp: 0,
        woodcutting_level: 1, woodcutting_xp: 0, woodcutting_max_xp: 0,
        fishing_level: 1, fishing_xp: 0, fishing_max_xp: 0,
        weaponcrafting_level: 1, weaponcrafting_xp: 0, weaponcrafting_max_xp: 0,
        gearcrafting_level: 1, gearcrafting_xp: 0, gearcrafting_max_xp: 0,
        jewelrycrafting_level: 1, jewelrycrafting_xp: 0, jewelrycrafting_max_xp: 0,
        cooking_level: 1, cooking_xp: 0, cooking_max_xp: 0,
        alchemy_level: 1, alchemy_xp: 0, alchemy_max_xp: 0,
        hp: 100, max_hp: 100, haste: 0, critical_strike: 0, wisdom: 0,
        prospecting: 0, initiative: 0, threat: 0,
        attack_fire: 0, attack_earth: 0, attack_water: 0, attack_air: 0,
        dmg: 0, dmg_fire: 0, dmg_earth: 0, dmg_water: 0, dmg_air: 0,
        res_fire: 0, res_earth: 0, res_water: 0, res_air: 0,
        effects: vec![], x: 0, y: 0, layer: "interior".into(), map_id: 0,
        cooldown: 0, cooldown_expiration: None,
        weapon_slot: "".into(), rune_slot: "".into(), shield_slot: "".into(),
        helmet_slot: "".into(), body_armor_slot: "".into(), leg_armor_slot: "".into(),
        boots_slot: "".into(), ring1_slot: "".into(), ring2_slot: "".into(),
        amulet_slot: "".into(), artifact1_slot: "".into(), artifact2_slot: "".into(),
        artifact3_slot: "".into(), utility1_slot: "".into(), utility1_slot_quantity: 0,
        utility2_slot: "".into(), utility2_slot_quantity: 0, bag_slot: "".into(),
        task: "".into(), task_type: "".into(), task_progress: 0, task_total: 0,
        inventory_max_items: 100, inventory: vec![],
    }
}

#[test]
fn replies_give_their_data_or_their_error() {
    let ok: ApiResponse<i32> = ApiResponse { data: Some(4), error: None };
    assert_eq!(reply_value(ok), Ok(4));
    let failed: ApiResponse<i32> = ApiResponse { data: Some(4), error: Some(ApiError { message: "cooldown".into() }) };
    assert_eq!(reply_value(failed), Err("cooldown".to_string()));
    let empty: ApiResponse<i32> = ApiResponse { data: None, error: None };
    assert_eq!(reply_value(empty), Err("no data in response".to_string()));
}

#[test]
fn pages_are_followed_to_the_last() {
    let page: PagedResponse<i32> = PagedResponse { data: Some(vec![1, 2]), total: None, page: None, size: None, pages: Some(2), error: None };
    assert_eq!(page_values(page), Ok(vec![1, 2]));
    let blank: PagedResponse<i32> = PagedResponse { data: None, total: None, page: None, size: None, pages: None, error: None };
    assert_eq!(page_values(blank), Ok(vec![]));
    let failed: PagedResponse<i32> = PagedResponse { data: None, total: None, page: None, size: None, pages: None, error: Some(ApiError { message: "no".into() }) };
    assert_eq!(page_values(failed), Err("no".to_string()));
    assert_eq!(next_page(1, Some(2)), Some(2));
    assert_eq!(next_page(2, Some(2)), None);
    assert_eq!(next_page(1, None), None);
    assert_eq!(first_of(vec![7, 8], "none"), Ok(7));
    assert_eq!(first_of(Vec::<i32>::new(), "none"), Err("none".to_string()));
}

#[test]
fn waits_between_attempts_never_shorten() {
    let delays: Vec<u64> = (0..ACTION_ATTEMPTS).filter_map(retry_delay_ms).collect();
    assert_eq!(delays.len(), ACTION_ATTEMPTS - 1);
    assert!(delays.windows(2).all(|w| w[0] <= w[1]));
    assert_eq!(retry_delay_ms(ACTION_ATTEMPTS), None);
    assert_eq!(delays[0], 500);
    assert!(retries_init(1));
    assert!(!retries_init(5));
    assert_eq!(cooldown_left(5_000, 2_000), 3_000);
    assert_eq!(cooldown_left(2_000, 5_000), 0);
    assert_eq!(cooldown_left(i64::MAX, i64::MIN), u64::MAX);
}

#[test]
fn a_bag_is_full_by_slots_or_by_items() {
    let mut character = blank_character();
    assert!(!is_inventory_full(&character));
    character.inventory = (0..20).map(|i| InventorySlot { slot: i, code: "ore".into(), quantity: 1 }).collect();
    assert!(is_inventory_full(&character));
    character.inventory.pop();
    assert!(!is_inventory_full(&character));
    character.inventory_max_items = 19;
    assert!(is_inventory_full(&character));
}

#[test]
fn equipment_is_crafted_with_a_crafting_skill() {
    let item = |item_type: &str, skill: Option<&str>| Item {
        name: "x".into(), code: "x".into(), level: 1, item_type: item_type.into(),
        subtype: "".into(), description: "".into(), conditions: vec![], effects: vec![],
        craft: skill.map(|s| CraftInfo { skill: Some(s.into()), level: None, items: vec![], quantity: 1 }),
        tradeable: true, recyclable: false,
    };
    assert!(is_craftable_equipment(&item("weapon", Some("weaponcrafting"))));
    assert!(!is_craftable_equipment(&item("weapon", None)));
    assert!(!is_craftable_equipment(&item("resource", Some("mining"))));
}

#[test]
fn tables_remember_by_name() {
    let mut table: Table<i32> = Table::new();
    table.insert("a".into(), 1);
    table.insert("b".into(), 2);
    table.insert("a".into(), 3);
    assert_eq!(table.len(), 2);
    assert_eq!((table.get("a"), table.get("c")), (Some(&3), None));
    assert_eq!(table.at(1), (&"b".to_string(), &2));
    let copy = table.copied();
    assert_eq!(table.remove("a"), Some(3));
    assert_eq!(table.remove("a"), None);
    assert!(!table.contains("a") && copy.contains("a"));
    // Taking a key out leaves the others in their order.
    let mut order: Table<i32> = Table::new();
    for key in ["x", "y", "z"] {
        order.insert(key.to_string(), 0);
    }
    order.remove("y");
    order.remove("w");
    assert_eq!(order.len(), 2);
    assert_eq!((order.at(0).0.as_str(), order.at(1).0.as_str()), ("x", "z"));
    assert!(same("abc", "abc") && !same("abc", "abd") && !same("ab", "abc"));
    assert!(contains_code(&["x".to_string()], "x"));
}

#[test]
fn rankings_put_the_greatest_first_and_keep_ties_in_order() {
    assert_eq!(rank_by_key(&[3, 9, 3, 10]), vec![3, 1, 0, 2]);
    // 1/2, 2/3, 2/4, -1/5
    assert_eq!(rank_by_fraction(&[(1, 2), (2, 3), (2, 4), (-1, 5)]), vec![1, 0, 2, 3]);
    assert!(is_less((1, 3), (1, 2)) && !is_less((1, 2), (2, 4)));
    assert_eq!(find_last_best(&[Some(3), None, Some(7), Some(7)]), Some(3));
    assert_eq!(find_first_best(&[Some(3), None, Some(7), Some(7)]), Some(2));
    assert_eq!(find_last_best(&[None]), None);
    assert_eq!(find_first_best(&[]), None);
}
