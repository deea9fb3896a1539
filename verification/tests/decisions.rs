use artifactsmmo::api::GameData;
use artifactsmmo::flags::{Flag, FlagAction, GameState};
use artifactsmmo::loops::fight::{
    next_fight_action, next_fight_step, next_fight_turn, sets_the_bar, utility_ran_dry,
    FightAction, FightMemory, FightStep, FightTurn,
};
use artifactsmmo::loops::flag_handling::{
    equip_bodies, flag_task, must_return, record_upgrades, slot_value, split_flags, unequip_bodies,
    upgrade_withdrawals, FlagTask,
};
use artifactsmmo::loops::gather::{
    gather_step_after, max_drops_per_action, next_gather_action, one_action_from_full,
    GatherAction, GatherMemory, GatherStep,
};
use artifactsmmo::loops::movement::{nearest_location, plan_move, Move};
use artifactsmmo::types::{Character, InventorySlot, MonsterDrop};

fn blank_character() -> Character {
    Character {
        name: "test".into(), account: "test".into(), skin: "".into(),
        level: 1, xp: 0, max_xp: 0, gold: 0, speed: 0,
        mining_level: 1, mining_xp: 0, mining_max_xp: 0,
        woodcutting_level: 1, woodcutting_xp: 0, woodcutting_max_xp: 0,
        fishing_level: 1, fishing_xp: 0, fishing_max_xp: 0,
        weaponcrafting_level: 1, weaponcrafting_xp: 0, weaponcrafting_max_xp: 0,
        gearcrafting_level: 1, gearcrafting_xp: 0, gearcrafting_max_xp: 0,
        jewelrycrafting_level: 1, jewelrycrafting_xp: 0, jewelrycrafting_max_xp: 0,
        cooking_level: 1, cooking_xp: 0, cooking_max_xp: 0,
        alchemy_level: 1, alchemy_xp: 0, alchemy_max_xp: 0,
        hp: 100, max_hp: 100, haste: 0, critical_strike: 0, wisdom: 0,
        prospecting: 0, initiative: 0, threat: 0,
        attack_fire: 0, attack_earth: 0, attack_water: 0, attack_air: 0,
        dmg: 0, dmg_fire: 0, dmg_earth: 0, dmg_water: 0, dmg_air: 0,
        res_fire: 0, res_earth: 0, res_water: 0, res_air: 0,
        effects: vec![], x: 0, y: 0, layer: "interior".into(), map_id: 0,
        cooldown: 0, cooldown_expiration: None,
        weapon_slot: "".into(), rune_slot: "".into(), shield_slot: "".into(),
        helmet_slot: "".into(), body_armor_slot: "".into(), leg_armor_slot: "".into(),
        boots_slot: "".into(), ring1_slot: "".into(), ring2_slot: "".into(),
        amulet_slot: "".into(), artifact1_slot: "".into(), artifact2_slot: "".into(),
        artifact3_slot: "".into(), utility1_slot: "".into(), utility1_slot_quantity: 0,
        utility2_slot: "".into(), utility2_slot_quantity: 0, bag_slot: "".into(),
        task: "".into(), task_type: "".into(), task_progress: 0, task_total: 0,
        inventory_max_items: 100, inventory: vec![],
    }
}

fn at(layer: &str, x: i32, y: i32) -> (String, i32, i32) {
    (layer.to_string(), x, y)
}

#[test]
fn the_nearest_place_is_on_the_own_layer() {
    let locs = [at("underground", 0, 1), at("overworld", 5, 5), at("overworld", -3, 2), at("overworld", 2, 3)];
    assert_eq!(nearest_location("overworld", 0, 0, &locs), Some(2));
    assert_eq!(nearest_location("interior", 0, 0, &locs), Some(0));
    // With none on the own layer all count alike, and the first of those as near is found.
    assert_eq!(nearest_location("interior", 3, 3, &locs), Some(3));
    let spread = [at("underground", 4, 0), at("overworld", 0, 2), at("underground", 1, 1)];
    assert_eq!(nearest_location("interior", 0, 0, &spread), Some(1));
    assert_eq!(nearest_location("overworld", 0, 0, &[]), None);
}

#[test]
fn moving_goes_nowhere_without_need() {
    let mut character = blank_character();
    character.layer = "overworld".into();
    let locs = [at("overworld", 5, 5), at("overworld", 1, 0)];
    assert!(matches!(plan_move(&character, &locs), Move::Go { x: 1, y: 0 }));
    character.x = 5;
    character.y = 5;
    assert!(matches!(plan_move(&character, &locs), Move::Stay));
    assert!(matches!(plan_move(&character, &[]), Move::Nowhere));
    match plan_move(&character, &[at("underground", 5, 5)]) {
        Move::OtherLayer { layer } => assert_eq!(layer, "underground"),
        other => panic!("expected another layer, got {other:?}"),
    }
}

fn drops(max: i32) -> Vec<MonsterDrop> {
    vec![MonsterDrop { code: "ore".into(), rate: 1, min_quantity: 1, max_quantity: max }]
}

#[test]
fn a_gatherer_stops_before_the_bag_overflows() {
    let mut character = blank_character();
    character.inventory = vec![InventorySlot { slot: 1, code: "ore".into(), quantity: 97 }];
    assert_eq!(max_drops_per_action(&drops(3)), 3);
    assert!(one_action_from_full(&character, 3));
    assert!(!one_action_from_full(&character, 2));
}

#[test]
fn a_gathering_round() {
    let mut character = blank_character();
    let target = drops(3);
    let mut memory = GatherMemory { max_drops: 0, prev_level: None };
    let mut go = |step: GatherStep, character: &Character, fighter: i32, target: Option<&Vec<MonsterDrop>>| {
        next_gather_action(step, &mut memory, character, "mining", fighter, target)
    };
    assert_eq!(go(GatherStep::Fetched, &character, 1, None), GatherAction::FindTarget);
    assert_eq!(go(GatherStep::Targeted, &character, 1, None), GatherAction::GiveUp);
    assert_eq!(go(GatherStep::Targeted, &character, 1, Some(&target)), GatherAction::GoToTarget);
    assert_eq!(go(GatherStep::Arrived, &character, 1, Some(&target)), GatherAction::Gather);
    assert_eq!(go(GatherStep::Gathered, &character, 1, Some(&target)), GatherAction::Gather);
    character.mining_level = 2;
    assert_eq!(go(GatherStep::Gathered, &character, 1, Some(&target)), GatherAction::Refit);
    assert_eq!(go(GatherStep::Refitted, &character, 1, Some(&target)), GatherAction::Gather);
    character.inventory = vec![InventorySlot { slot: 1, code: "ore".into(), quantity: 98 }];
    assert_eq!(go(GatherStep::Gathered, &character, 1, Some(&target)), GatherAction::Process);
    assert_eq!(go(GatherStep::Processed, &character, 1, Some(&target)), GatherAction::HandleFlags);
    assert_eq!(go(GatherStep::Flagged, &character, 1, Some(&target)), GatherAction::Retarget);
    assert_eq!(go(GatherStep::Retargeted, &character, 1, Some(&target)), GatherAction::GoToTarget);
    // Level 10 is enough to fight beside a fighter of level 1.
    character.mining_level = 10;
    assert_eq!(go(GatherStep::Fetched, &character, 1, None), GatherAction::SwitchToFighting);
    assert_eq!(go(GatherStep::Refitted, &character, 1, None), GatherAction::SwitchToFighting);
    character.inventory_max_items = 98;
    assert_eq!(go(GatherStep::Targeted, &character, 1, Some(&target)), GatherAction::Unload);
    assert_eq!(go(GatherStep::Unloaded, &character, 1, Some(&target)), GatherAction::GoToTarget);
    assert_eq!(memory, GatherMemory { max_drops: 3, prev_level: Some(2) });
    assert_eq!(gather_step_after(GatherAction::Gather), Some(GatherStep::Gathered));
    assert_eq!(gather_step_after(GatherAction::SwitchToFighting), None);
    assert_eq!(gather_step_after(GatherAction::GiveUp), None);
}

fn walk(character: &Character, before: &Character, prev: Option<i32>, revert: Option<&str>, fighter: i32, from: FightStep) -> Vec<FightAction> {
    let mut step = from;
    let mut actions = vec![];
    loop {
        let action = next_fight_action(step, true, character, before, prev, revert, fighter);
        actions.push(action);
        match next_fight_step(step, action) {
            Some(next) if action != FightAction::Fight => step = next,
            _ => return actions,
        }
    }
}

#[test]
fn a_fighter_prepares_before_the_first_fight() {
    let character = blank_character();
    assert_eq!(
        walk(&character, &character, None, None, 1, FightStep::Fetched),
        vec![
            FightAction::Supply, FightAction::TopUp { rejudge: false }, FightAction::SeeToFood,
            FightAction::Target { refit: true }, FightAction::Heal, FightAction::Fight,
        ],
    );
}

#[test]
fn a_fighter_sees_to_everything_between_fights() {
    let mut before = blank_character();
    before.utility1_slot_quantity = 1;
    let mut character = blank_character();
    character.level = 2;
    character.inventory_max_items = 0;
    assert!(utility_ran_dry(&before, &character));
    assert_eq!(
        walk(&character, &before, Some(1), None, 1, FightStep::Fought),
        vec![
            FightAction::Target { refit: true }, FightAction::SeeToFood, FightAction::Unload,
            FightAction::TopUp { rejudge: true }, FightAction::SeeToFood, FightAction::Supply,
            FightAction::Target { refit: false }, FightAction::TopUp { rejudge: true }, FightAction::Heal,
            FightAction::HandleFlags, FightAction::TopUp { rejudge: true }, FightAction::Fight,
        ],
    );
}

#[test]
fn a_promoted_fighter_turns_back() {
    let character = blank_character();
    let actions = walk(&character, &character, Some(1), Some("mining"), 30, FightStep::Fought);
    assert_eq!(actions.last(), Some(&FightAction::SwitchBack));
    assert!(sets_the_bar(None, true));
    assert!(!sets_the_bar(Some("mining"), true));
    assert!(!sets_the_bar(None, false));
}

#[test]
fn a_fighter_remembers_its_level_and_how_it_went_into_the_fight() {
    let mut character = blank_character();
    character.utility1_slot_quantity = 1;
    let mut memory = FightMemory::new(&character);
    assert_eq!((memory.prev_level, memory.before_fight.utility1_slot_quantity), (None, 1));
    character.utility1_slot_quantity = 2;
    // Going into the fight it notes how it is.
    let turn = next_fight_turn(FightStep::Ready, true, &character, &mut memory, None, 1);
    assert_eq!(turn, FightTurn { action: FightAction::Fight, levelled_up: false, sets_the_bar: false });
    assert_eq!((memory.prev_level, memory.before_fight.utility1_slot_quantity), (None, 2));
    // The first fight has no level to compare with.
    character.utility1_slot_quantity = 0;
    character.level = 5;
    let turn = next_fight_turn(FightStep::Fought, true, &character, &mut memory, None, 1);
    assert_eq!(turn, FightTurn { action: FightAction::SeeToFood, levelled_up: false, sets_the_bar: false });
    assert_eq!((memory.prev_level, memory.before_fight.utility1_slot_quantity), (Some(5), 2));
    // The slot ran dry in the fight.
    let turn = next_fight_turn(FightStep::Fed, true, &character, &mut memory, None, 1);
    assert_eq!(turn.action, FightAction::Supply);
    // The next one takes it up, which only the dedicated fighter's peers go by.
    character.level = 6;
    let turn = next_fight_turn(FightStep::Fought, true, &character, &mut memory, None, 1);
    assert_eq!(turn, FightTurn { action: FightAction::Target { refit: true }, levelled_up: true, sets_the_bar: true });
    character.level = 7;
    let turn = next_fight_turn(FightStep::Fought, true, &character, &mut memory, Some("mining"), 1);
    assert_eq!((turn.levelled_up, turn.sets_the_bar), (true, false));
}

fn equip(slot: &str, code: &str) -> Flag {
    Flag {
        from_character: "bank".into(),
        action: FlagAction::EquipUpgrade { slot: slot.into(), item_code: code.into() },
    }
}

#[test]
fn upgrades_are_put_on_in_one_trip() {
    let mut character = blank_character();
    character.ring1_slot = "tin_ring".into();
    let pending = vec![
        equip("ring1", "gold_ring"),
        Flag { from_character: "x".into(), action: FlagAction::MerchantSummon },
        equip("boots", "iron_boots"),
    ];
    let (upgrades, rest) = split_flags(pending);
    assert_eq!((upgrades.len(), rest.len()), (2, 1));
    assert_eq!(flag_task(&rest[0].action), FlagTask::Merchant);
    assert_eq!(flag_task(&FlagAction::HealingConsumablesAvailable), FlagTask::FetchFood);
    assert_eq!(flag_task(&FlagAction::CraftWishlistGearAvailable), FlagTask::Craft);
    assert_eq!(flag_task(&FlagAction::RetrieveFromBank(vec![])), FlagTask::FetchItems);
    assert_eq!(slot_value(&character, "ring1"), "tin_ring");
    assert_eq!(slot_value(&character, "nose"), "");
    // Only the ring has something to take off.
    let off = unequip_bodies(&character, &upgrades);
    assert_eq!(off.len(), 1);
    assert_eq!(off[0].slot, "ring1");
    let fetch = upgrade_withdrawals(&upgrades);
    assert_eq!((fetch[1].code.as_str(), fetch[1].quantity), ("iron_boots", 1));
    let on = equip_bodies(&upgrades);
    assert_eq!((on[0].code.as_str(), on[0].slot.as_str()), ("gold_ring", "ring1"));
    let data = GameData { monsters: vec![], items: vec![], resources: vec![], maps: vec![], craftable_equip: vec![] };
    let mut state = GameState::new(data);
    record_upgrades(&mut state, "test", &upgrades);
    let worn = state.equipped_snapshot("test");
    assert_eq!(worn.get("ring1"), Some(&"gold_ring".to_string()));
    assert_eq!(worn.get("boots"), Some(&"iron_boots".to_string()));
}

#[test]
fn a_character_returns_to_where_it_was() {
    let character = blank_character();
    assert!(must_return(false, &character, 3, 0));
    assert!(!must_return(false, &character, 0, 0));
    assert!(!must_return(true, &character, 3, 0));
}
