use artifactsmmo::api::GameData;
use artifactsmmo::flags::GameState;
use artifactsmmo::formulas::crafting_xp_terms;
use artifactsmmo::loops::crafting_plan::xp_to_next_tier;
use artifactsmmo::loops::grand_exchange::{
    batch_capacity_at_current_price, cheapest_acquisition_cost, plan_upgrade_purchases,
    plan_wishlist_purchases,
};
use artifactsmmo::loops::market::{GEMarket, GEOrderBook, Ledger};
use artifactsmmo::loops::plan_ge_purchases;
use artifactsmmo::loops::price_queries::{collect_craft_tree_codes, collect_ge_query_codes};
use artifactsmmo::optimize::{skill_level, RankedItem, SlotRating};
use artifactsmmo::table::Table;
use artifactsmmo::types::{BankItem, Character, CraftInfo, CraftIngredient, GEOrder, Item};

fn order(price: i32, qty: i32) -> GEOrder {
    GEOrder { id: "1".into(), order_type: "sell".into(), account: "seller".into(), code: "x".into(), quantity: qty, price, created_at: "2024-01-01T00:00:00Z".into() }
}

fn blank_character() -> Character {
    Character {
        name: "test".into(), account: "test".into(), skin: "".into(),
        level: 1, xp: 0, max_xp: 0, gold: 0, speed: 0,
        mining_level: 1, mining_xp: 0, mining_max_xp: 0,
        woodcutting_level: 1, woodcutting_xp: 0, woodcutting_max_xp: 0,
        fishing_level: 1, fishing_xp: 0, fishing_max_xp: 0,
        weaponcrafting_level: 1, weaponcrafting_xp: 0, weaponcrafting_max_xp: 150,
        gearcrafting_level: 1, gearcrafting_xp: 0, gearcrafting_max_xp: 150,
        jewelrycrafting_level: 1, jewelrycrafting_xp: 0, jewelrycrafting_max_xp: 150,
        cooking_level: 1, cooking_xp: 0, cooking_max_xp: 0,
        alchemy_level: 1, alchemy_xp: 0, alchemy_max_xp: 150,
        hp: 100, max_hp: 100, haste: 0, critical_strike: 0, wisdom: 0,
        prospecting: 0, initiative: 0, threat: 0,
        attack_fire: 0, attack_earth: 0, attack_water: 0, attack_air: 0,
        dmg: 0, dmg_fire: 0, dmg_earth: 0, dmg_water: 0, dmg_air: 0,
        res_fire: 0, res_earth: 0, res_water: 0, res_air: 0,
        effects: vec![], x: 0, y: 0, layer: "interior".into(), map_id: 0,
        cooldown: 0, cooldown_expiration: None,
        weapon_slot: "".into(), rune_slot: "".into(), shield_slot: "".into(),
        helmet_slot: "".into(), body_armor_slot: "".into(), leg_armor_slot: "".into(),
        boots_slot: "".into(), ring1_slot: "".into(), ring2_slot: "".into(),
        amulet_slot: "".into(), artifact1_slot: "".into(), artifact2_slot: "".into(),
        artifact3_slot: "".into(), utility1_slot: "".into(), utility1_slot_quantity: 0,
        utility2_slot: "".into(), utility2_slot_quantity: 0, bag_slot: "".into(),
        task: "".into(), task_type: "".into(), task_progress: 0, task_total: 0,
        inventory_max_items: 100, inventory: vec![],
    }
}

fn craft_item(code: &str, skill: &str, level_req: Option<i32>, ingredients: Vec<(&str, i32)>, output_qty: i32) -> Item {
    Item {
        name: code.into(), code: code.into(), level: 1, item_type: "resource".into(),
        subtype: "".into(), description: "".into(), conditions: vec![], effects: vec![],
        craft: Some(CraftInfo {
            skill: Some(skill.into()),
            level: level_req,
            items: ingredients.into_iter().map(|(c, q)| CraftIngredient { code: c.into(), quantity: q }).collect(),
            quantity: output_qty,
        }),
        tradeable: true,
        recyclable: false,
    }
}

fn blank_data(items: Vec<Item>) -> GameData {
    GameData { monsters: vec![], items, resources: vec![], maps: vec![], craftable_equip: vec![] }
}

/// The XP of one craft, put together from its factors.
fn calculate_crafting_xp(skill_level: i32, item: &Item, skill: &str, wisdom: i32) -> f64 {
    match crafting_xp_terms(skill_level, item, skill) {
        None => 0.0,
        Some(t) => {
            let ratio = t.level as f64 / t.skill_level as f64;
            ((t.base as f64 + ratio * t.coefficient as f64)
                * (t.multiplier_tenths as f64 / 10.0)
                * (t.penalty_tenths as f64 / 10.0)
                * (1.0 + wisdom as f64 * 0.001))
                .round()
        }
    }
}

/// The XP of one craft of each item.
fn craft_xp(character: &Character, items: &[Item]) -> Vec<i32> {
    items
        .iter()
        .map(|item| match item.craft.as_ref().and_then(|c| c.skill.as_ref()) {
            Some(skill) => calculate_crafting_xp(skill_level(character, skill), item, skill, character.wisdom) as i32,
            None => 0,
        })
        .collect()
}

fn claimed_qty(ledger: &Ledger, code: &str) -> i32 {
    ledger.market.books.get(code).unwrap().claimed_qty
}

#[test]
fn order_book_claims_cheapest_tiers_first() {
    let mut book = GEOrderBook::from_orders(&[order(10, 5), order(5, 3), order(20, 100)]);

    let (obtained, cost) = book.claim(6);

    // 3 units @5 (=15) + 3 units @10 (=30) = 45, cheapest tiers exhausted first.
    assert_eq!(obtained, 6);
    assert_eq!(cost, 45);
    assert_eq!(book.claimed_qty, 6);
    assert_eq!(book.claimed_cost, 45);
}

#[test]
fn order_book_partial_fulfillment_when_insufficient() {
    let mut book = GEOrderBook::from_orders(&[order(5, 3)]);

    let (obtained, cost) = book.claim(10);

    assert_eq!(obtained, 3);
    assert_eq!(cost, 15);
}

#[test]
fn order_book_quotes_without_claiming() {
    let book = GEOrderBook::from_orders(&[order(10, 5), order(5, 3)]);
    assert_eq!(book.quote(4), (4, 25));
    assert_eq!(book.quote(100), (8, 65));
    assert_eq!(book.quote(0), (0, 0));
    assert_eq!(book.claimed_qty, 0);
    assert_eq!(book.tiers, vec![(5, 3), (10, 5)]);
}

#[test]
fn market_adds_up_what_was_claimed() {
    let mut market = GEMarket { books: Table::new() };
    market.books.insert("bar".into(), GEOrderBook::from_orders(&[order(2, 5)]));
    market.books.insert("wood".into(), GEOrderBook::from_orders(&[order(1, 5)]));
    assert_eq!(market.claim("bar", 3), (3, 6));
    assert_eq!(market.claim("stone", 3), (0, 0));
    assert_eq!(market.purchases(), vec![("bar".to_string(), 3, 6)]);
}

#[test]
fn cheapest_acquisition_uses_free_bank_stock_before_paying_for_anything() {
    let data = blank_data(vec![]);
    let character = blank_character();
    let mut ledger = Ledger::default();
    ledger.bank.insert("iron_bar".into(), 3);
    ledger.market.books.insert("iron_bar".into(), GEOrderBook::from_orders(&[order(50, 10)]));

    let cost = cheapest_acquisition_cost("iron_bar", 3, &data, &character, &mut ledger).unwrap();
    assert_eq!(cost, 0);
    assert_eq!(*ledger.bank.get("iron_bar").unwrap(), 0);
    assert_eq!(claimed_qty(&ledger, "iron_bar"), 0);

    // Bank is now empty — the next unit must be bought.
    let cost2 = cheapest_acquisition_cost("iron_bar", 2, &data, &character, &mut ledger).unwrap();
    assert_eq!(cost2, 100);
}

#[test]
fn cheapest_acquisition_prefers_buying_when_cheaper_than_crafting() {
    let data = blank_data(vec![craft_item("gadget", "weaponcrafting", None, vec![("part", 2)], 1)]);
    let character = blank_character();
    let mut ledger = Ledger::default();
    ledger.market.books.insert("gadget".into(), GEOrderBook::from_orders(&[order(15, 5)]));
    ledger.market.books.insert("part".into(), GEOrderBook::from_orders(&[order(10, 10)])); // crafting would cost 20

    let cost = cheapest_acquisition_cost("gadget", 1, &data, &character, &mut ledger).unwrap();

    assert_eq!(cost, 15);
    assert_eq!(claimed_qty(&ledger, "gadget"), 1);
    assert_eq!(claimed_qty(&ledger, "part"), 0);
}

#[test]
fn cheapest_acquisition_prefers_crafting_when_cheaper_than_buying() {
    let data = blank_data(vec![craft_item("gadget", "weaponcrafting", None, vec![("part", 2)], 1)]);
    let character = blank_character();
    let mut ledger = Ledger::default();
    ledger.market.books.insert("gadget".into(), GEOrderBook::from_orders(&[order(100, 5)]));
    ledger.market.books.insert("part".into(), GEOrderBook::from_orders(&[order(10, 10)])); // crafting costs 20

    let cost = cheapest_acquisition_cost("gadget", 1, &data, &character, &mut ledger).unwrap();

    assert_eq!(cost, 20);
    assert_eq!(claimed_qty(&ledger, "part"), 2);
    assert_eq!(claimed_qty(&ledger, "gadget"), 0);
}

#[test]
fn cheapest_acquisition_none_when_unobtainable_and_leaves_ledger_untouched() {
    let data = blank_data(vec![]); // no recipe, and no GE listing set up below
    let character = blank_character();
    let mut ledger = Ledger::default();
    ledger.bank.insert("mythril".into(), 1);

    let result = cheapest_acquisition_cost("mythril", 5, &data, &character, &mut ledger);

    assert!(result.is_none());
    // The 1 free unit from bank must NOT have been consumed by the failed attempt.
    assert_eq!(*ledger.bank.get("mythril").unwrap(), 1);
}

#[test]
fn cheapest_acquisition_respects_crafting_skill_level_requirement() {
    let data = blank_data(vec![craft_item("high_tier_sword", "weaponcrafting", Some(50), vec![("bar", 1)], 1)]);
    let mut character = blank_character();
    character.weaponcrafting_level = 10; // below the level-50 requirement, and no GE listing
    let mut ledger = Ledger::default();
    ledger.bank.insert("bar".into(), 10);

    let result = cheapest_acquisition_cost("high_tier_sword", 1, &data, &character, &mut ledger);

    assert!(result.is_none());
}

/// A material that two ingredients of one craft need is not free from the bank for both.
#[test]
fn cheapest_acquisition_shares_bank_stock_across_sibling_ingredients() {
    let data = blank_data(vec![
        craft_item("widget", "weaponcrafting", None, vec![("part", 2), ("subassembly", 1)], 1),
        craft_item("subassembly", "weaponcrafting", None, vec![("part", 1)], 1),
    ]);
    let character = blank_character();
    let mut ledger = Ledger::default();
    ledger.bank.insert("part".into(), 2); // enough for only one of the two "part" demands
    ledger.market.books.insert("part".into(), GEOrderBook::from_orders(&[order(10, 100)]));

    let cost = cheapest_acquisition_cost("widget", 1, &data, &character, &mut ledger).unwrap();

    // 3 "part" needed total (2 direct + 1 via subassembly); 2 free from bank, 1 bought @10.
    assert_eq!(cost, 10);
}

#[test]
fn cheapest_acquisition_of_nothing_is_free() {
    let data = blank_data(vec![]);
    let mut ledger = Ledger::default();
    assert_eq!(cheapest_acquisition_cost("x", 0, &data, &blank_character(), &mut ledger), Some(0));
    assert_eq!(cheapest_acquisition_cost("x", -4, &data, &blank_character(), &mut ledger), Some(0));
}

#[test]
fn cheapest_acquisition_crafts_whole_batches() {
    let data = blank_data(vec![craft_item("arrow", "weaponcrafting", None, vec![("wood", 1)], 10)]);
    let mut ledger = Ledger::default();
    ledger.market.books.insert("wood".into(), GEOrderBook::from_orders(&[order(3, 100)]));
    // 25 arrows take three batches of ten.
    assert_eq!(cheapest_acquisition_cost("arrow", 25, &data, &blank_character(), &mut ledger), Some(9));
    assert_eq!(claimed_qty(&ledger, "wood"), 3);
}

#[test]
fn cheapest_acquisition_survives_circular_recipes() {
    let data = blank_data(vec![
        craft_item("egg", "cooking", None, vec![("hen", 1)], 1),
        craft_item("hen", "cooking", None, vec![("egg", 1)], 1),
    ]);
    let mut ledger = Ledger::default();
    assert_eq!(cheapest_acquisition_cost("egg", 1, &data, &blank_character(), &mut ledger), None);
    ledger.bank.insert("hen".into(), 1);
    assert_eq!(cheapest_acquisition_cost("egg", 1, &data, &blank_character(), &mut ledger), Some(0));
}

#[test]
fn plan_upgrade_purchases_falls_back_to_affordable_lower_rated_pick() {
    let data = blank_data(vec![]);
    let mut state = GameState::new(data);
    let character = blank_character();

    state.set_item_ratings("char_a", vec![SlotRating {
        slot: "weapon", category: "weapon",
        ranked: vec![
            RankedItem { code: "expensive_sword".into(), rating: 900 },
            RankedItem { code: "cheap_sword".into(), rating: 100 },
        ],
    }], &character);

    let mut ledger = Ledger::default();
    ledger.market.books.insert("expensive_sword".into(), GEOrderBook::from_orders(&[order(1000, 1)]));
    ledger.market.books.insert("cheap_sword".into(), GEOrderBook::from_orders(&[order(50, 1)]));

    let mut gold_budget = 200;
    let purchases = plan_upgrade_purchases(&state, &character, &mut ledger, &mut gold_budget);

    assert_eq!(purchases.len(), 1);
    assert_eq!(purchases[0].code, "cheap_sword");
    assert_eq!(purchases[0].cost, 50);
    assert_eq!(gold_budget, 150);
}

fn craft_info(ingredients: Vec<(&str, i32)>) -> CraftInfo {
    CraftInfo {
        skill: Some("weaponcrafting".into()), level: None,
        items: ingredients.into_iter().map(|(c, q)| CraftIngredient { code: c.into(), quantity: q }).collect(),
        quantity: 1,
    }
}

#[test]
fn batch_capacity_stops_at_the_cheapest_tiers_boundary() {
    let craft = craft_info(vec![("part", 2)]);
    let mut ledger = Ledger::default();
    ledger.market.books.insert("part".into(), GEOrderBook::from_orders(&[order(1, 10), order(5, 90)]));

    // 10 units at the cheapest tier / 2 per craft = 5 crafts before the price would step up.
    assert_eq!(batch_capacity_at_current_price(&craft, &ledger), 5);
}

#[test]
fn batch_capacity_treats_free_bank_stock_as_its_own_flat_region() {
    let craft = craft_info(vec![("part", 1)]);
    let mut ledger = Ledger::default();
    ledger.bank.insert("part".into(), 5);
    ledger.market.books.insert("part".into(), GEOrderBook::from_orders(&[order(1, 1000)]));

    // Crossing from free to paid is itself a price change: the batch stops at 5, not 1005.
    assert_eq!(batch_capacity_at_current_price(&craft, &ledger), 5);
}

/// A tier that has been used up stays in the book at quantity 0 and is passed over.
#[test]
fn batch_capacity_skips_an_exhausted_leading_tier() {
    let craft = craft_info(vec![("part", 1)]);
    let mut ledger = Ledger::default();
    let mut book = GEOrderBook::from_orders(&[order(1, 5), order(3, 1000)]);
    book.claim(5); // exhaust the cheap tier, leaving it at (1, 0) rather than removed
    ledger.market.books.insert("part".into(), book);

    assert_eq!(batch_capacity_at_current_price(&craft, &ledger), 1000);
}

/// A batch that crosses into the next price tier pays each tier's own price.
#[test]
fn plan_wishlist_purchases_batches_correctly_across_a_price_tier_boundary() {
    let items = || vec![craft_item("lizard_dagger", "weaponcrafting", None, vec![("lizard_scale", 1)], 1)];
    let data = blank_data(items());
    let state = GameState::new(data);

    let mut character = blank_character();
    character.weaponcrafting_level = 3;
    character.weaponcrafting_xp = 0;
    character.weaponcrafting_max_xp = 100_000;

    let remaining_xp = xp_to_next_tier(character.weaponcrafting_level, character.weaponcrafting_xp, character.weaponcrafting_max_xp) as f64;
    let xp_per_craft = calculate_crafting_xp(character.weaponcrafting_level, &items()[0], "weaponcrafting", character.wisdom);
    let crafts_needed = (remaining_xp / xp_per_craft).ceil() as i64;
    assert!(crafts_needed > 5, "test setup needs the tier boundary (at 5 units) to actually be crossed, got {crafts_needed}");

    let mut ledger = Ledger::default();
    // Two price tiers, so satisfying the full tier gap has to cross the boundary between them.
    ledger.market.books.insert("lizard_scale".into(), GEOrderBook::from_orders(&[order(1, 5), order(3, 1_000_000)]));

    let mut gold_budget = 1_000_000_000;
    let xp = craft_xp(&character, &items());
    let purchases = plan_wishlist_purchases(&state, &character, &xp, &mut ledger, &mut gold_budget);

    let total_crafts: i64 = purchases.iter().map(|p| p.crafts).sum();
    let total_cost: i64 = purchases.iter().map(|p| p.cost).sum();

    assert!(total_crafts >= crafts_needed, "expected the tier gap to actually be closed");
    let expected_cost = 5 + (total_crafts - 5) * 3;
    assert_eq!(total_cost, expected_cost, "batch must price the cheap tier's 5 units and the rest at the next tier's price, not one flat rate");
}

/// Two recipes that could each close the same gap are not both bought to completion.
#[test]
fn plan_wishlist_purchases_does_not_double_count_alternative_recipes() {
    let items = || vec![
        craft_item("lizard_dagger", "weaponcrafting", None, vec![("lizard_scale", 1)], 1),
        craft_item("mercury_dagger", "weaponcrafting", None, vec![("mercury_bar", 1)], 1),
    ];
    let data = blank_data(items());
    let state = GameState::new(data);

    let mut character = blank_character();
    character.weaponcrafting_level = 3;
    character.weaponcrafting_xp = 0;
    character.weaponcrafting_max_xp = 100_000;

    let remaining_xp = xp_to_next_tier(character.weaponcrafting_level, character.weaponcrafting_xp, character.weaponcrafting_max_xp) as f64;
    let xp_per_craft = calculate_crafting_xp(character.weaponcrafting_level, &items()[0], "weaponcrafting", character.wisdom);
    assert_eq!(
        xp_per_craft,
        calculate_crafting_xp(character.weaponcrafting_level, &items()[1], "weaponcrafting", character.wisdom),
        "test setup requires identical xp/craft for both recipes to isolate the double-counting check"
    );
    assert!(xp_per_craft > 0.0, "test setup requires a positive xp/craft to be meaningful");

    let mut ledger = Ledger::default();
    ledger.market.books.insert("lizard_scale".into(), GEOrderBook::from_orders(&[order(1, 100_000)]));
    ledger.market.books.insert("mercury_bar".into(), GEOrderBook::from_orders(&[order(1, 100_000)]));

    let mut gold_budget = 1_000_000;
    let xp = craft_xp(&character, &items());
    let purchases = plan_wishlist_purchases(&state, &character, &xp, &mut ledger, &mut gold_budget);

    let total_crafts: i64 = purchases.iter()
        .filter(|p| p.code == "lizard_dagger" || p.code == "mercury_dagger")
        .map(|p| p.crafts)
        .sum();
    let max_crafts_for_one_recipe_alone = (remaining_xp / xp_per_craft).ceil() as i64;

    assert!(total_crafts > 0, "expected at least some purchases toward the shared tier gap");
    assert!(
        total_crafts <= max_crafts_for_one_recipe_alone,
        "double-counted the tier gap across alternative recipes: bought {} crafts combined, \
         but only {} were needed to close it once",
        total_crafts, max_crafts_for_one_recipe_alone,
    );
}

/// A wishlist item is never bought finished, however cheap: buying it gives no crafting XP.
#[test]
fn plan_wishlist_purchases_never_buys_the_finished_wishlist_item() {
    let items = || vec![craft_item("lizard_dagger", "weaponcrafting", None, vec![("lizard_scale", 1)], 1)];
    let data = blank_data(items());
    let state = GameState::new(data);

    let mut character = blank_character();
    character.weaponcrafting_level = 3;
    character.weaponcrafting_xp = 0;
    character.weaponcrafting_max_xp = 100_000;

    let mut ledger = Ledger::default();
    ledger.market.books.insert("lizard_dagger".into(), GEOrderBook::from_orders(&[order(1, 1_000)])); // tempting bait
    ledger.market.books.insert("lizard_scale".into(), GEOrderBook::from_orders(&[order(5, 1_000)]));

    let mut gold_budget = 1_000_000;
    let xp = craft_xp(&character, &items());
    let purchases = plan_wishlist_purchases(&state, &character, &xp, &mut ledger, &mut gold_budget);

    assert!(purchases.iter().any(|p| p.code == "lizard_dagger" && p.crafts > 0), "expected lizard_dagger to actually be crafted");
    assert_eq!(claimed_qty(&ledger, "lizard_dagger"), 0, "the finished item itself must never be bought");
    assert!(claimed_qty(&ledger, "lizard_scale") > 0, "its ingredient should be bought instead");
}

#[test]
fn plan_wishlist_purchases_never_overspends() {
    let items = || vec![craft_item("lizard_dagger", "weaponcrafting", None, vec![("lizard_scale", 1)], 1)];
    let state = GameState::new(blank_data(items()));
    let mut character = blank_character();
    character.weaponcrafting_level = 3;
    character.weaponcrafting_max_xp = 100_000;
    let mut ledger = Ledger::default();
    ledger.market.books.insert("lizard_scale".into(), GEOrderBook::from_orders(&[order(5, 1_000)]));
    let mut gold_budget = 12;
    let xp = craft_xp(&character, &items());
    let purchases = plan_wishlist_purchases(&state, &character, &xp, &mut ledger, &mut gold_budget);
    let spent: i64 = purchases.iter().map(|p| p.cost).sum();
    assert_eq!(spent, 10);
    assert_eq!(gold_budget, 2);
    assert_eq!(claimed_qty(&ledger, "lizard_scale"), 2);
}

#[test]
fn a_purchase_plan_accounts_for_all_gold() {
    let items = || vec![craft_item("lizard_dagger", "weaponcrafting", None, vec![("lizard_scale", 1)], 1)];
    let mut state = GameState::new(blank_data(items()));
    let mut character = blank_character();
    character.weaponcrafting_level = 3;
    character.weaponcrafting_max_xp = 100_000;
    state.set_item_ratings("char_a", vec![SlotRating {
        slot: "weapon", category: "weapon",
        ranked: vec![RankedItem { code: "sword".into(), rating: 900 }],
    }], &character);
    state.update_bank(vec![BankItem { code: "lizard_scale".into(), quantity: 1 }]);
    let mut market = GEMarket { books: Table::new() };
    market.books.insert("sword".into(), GEOrderBook::from_orders(&[order(40, 1)]));
    market.books.insert("lizard_scale".into(), GEOrderBook::from_orders(&[order(5, 1_000)]));
    let xp = craft_xp(&character, &items());
    let plan = plan_ge_purchases(&state, &character, &xp, market, 60);
    assert_eq!(plan.upgrades.len(), 1);
    assert_eq!(plan.upgrades[0].char_name, "char_a");
    // One craft from the bank for nothing, then four for 5 each with what 40 leaves of 60.
    let crafts: i64 = plan.wishlist.iter().map(|p| p.crafts).sum();
    assert_eq!(crafts, 5);
    assert_eq!(plan.total_cost, 60);
    assert_eq!(
        plan.market_purchases,
        vec![("sword".to_string(), 1, 40), ("lizard_scale".to_string(), 4, 20)],
    );
}

#[test]
fn craft_trees_are_walked_once() {
    let data = blank_data(vec![
        craft_item("sword", "weaponcrafting", None, vec![("bar", 2), ("wood", 1)], 1),
        craft_item("bar", "mining", None, vec![("ore", 3), ("wood", 1)], 1),
    ]);
    let mut seen: Vec<String> = vec![];
    collect_craft_tree_codes("sword", &data, &mut seen);
    seen.sort();
    assert_eq!(seen, ["bar", "ore", "sword", "wood"]);
    let before = seen.len();
    collect_craft_tree_codes("bar", &data, &mut seen);
    assert_eq!(seen.len(), before);
}

#[test]
fn prices_are_asked_for_upgrades_and_wishlist_materials() {
    let items = || vec![
        craft_item("sword", "gearcrafting", Some(40), vec![("bar", 2)], 1),
        craft_item("lizard_dagger", "weaponcrafting", None, vec![("lizard_scale", 1)], 1),
    ];
    let mut state = GameState::new(blank_data(items()));
    let mut character = blank_character();
    character.weaponcrafting_level = 3;
    state.set_item_ratings("char_a", vec![SlotRating {
        slot: "weapon", category: "weapon",
        ranked: vec![RankedItem { code: "sword".into(), rating: 900 }],
    }], &character);
    let xp = craft_xp(&character, &items());
    let mut codes = collect_ge_query_codes(&state, &character, &xp);
    codes.sort();
    assert_eq!(codes, ["bar", "lizard_scale", "sword"]);
}
