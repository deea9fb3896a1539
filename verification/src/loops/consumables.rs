//! Food: how much of it a character carries, when it eats, and when it fetches more.

use vstd::prelude::*;

use super::bank_ops::{
    carried, deposit_views, total_carried, used_count, used_slots, INVENTORY_SLOTS,
};
use crate::api::GameData;
use crate::arith::{ceil_div, max_int, min_int, sat_i32, saturated};
use crate::flags::{bank_holds, food_in_bank, has_food, is_in_bank};
use crate::optimize::combat_sim::first_effect;
use crate::optimize::eligibility::{heals, is_eligible, is_healing_consumable, meets_conditions};
use crate::ranking::{
    by_key, find_first_best, first_best, is_ranking, places, rank_by_key, ranked,
};
use crate::text::same;
use crate::types::{
    bank_qty, find_item, item_named, quantity_in, BankItem, Character, DepositItem, InventorySlot,
    Item,
};

verus! {

/// At most this many inventory slots hold food at once, to leave room for loot.
pub const MAX_HEALING_CONSUMABLE_SLOTS: usize = 3;

/// How much one use of an item heals; 0 where it does not.
pub open spec fn heal_amount(item: Item) -> int {
    match first_effect(item.effects@, "heal"@, 0) {
        Some(value) => value,
        None => 0,
    }
}

/// How much one use of an item heals; 0 where it does not.
pub fn heal_value(item: &Item) -> (r: i32)
    ensures
        r == heal_amount(*item),
{
    let mut i: usize = 0;
    while i < item.effects.len()
        invariant
            i <= item.effects@.len(),
            first_effect(item.effects@, "heal"@, 0) == first_effect(
                item.effects@,
                "heal"@,
                i as int,
            ),
        decreases item.effects@.len() - i,
    {
        if same(&item.effects[i].code, "heal") {
            return item.effects[i].value;
        }
        i += 1;
    }
    0
}

/// The food in an inventory slot, if any.
pub open spec fn food_in_slot(slot: InventorySlot, items: Seq<Item>) -> Option<Item> {
    if slot.quantity > 0 {
        match item_named(items, slot.code@) {
            Some(item) => if heals(item) {
                Some(item)
            } else {
                None
            },
            None => None,
        }
    } else {
        None
    }
}

/// The place of the food in an inventory slot, if any.
fn slot_food(slot: &InventorySlot, items: &[Item]) -> (r: Option<usize>)
    ensures
        match food_in_slot(*slot, items@) {
            Some(item) => r matches Some(k) && k < items@.len() && items@[k as int] == item,
            None => r is None,
        },
{
    if slot.quantity > 0 {
        if let Some(k) = find_item(items, &slot.code) {
            if is_healing_consumable(&items[k]) {
                return Some(k);
            }
        }
    }
    None
}

/// How much food the first `n` slots hold.
pub open spec fn food_carried(inventory: Seq<InventorySlot>, items: Seq<Item>, n: int) -> int
    decreases n,
{
    if n <= 0 {
        0
    } else if food_in_slot(inventory[n - 1], items) is Some {
        sat_i32(food_carried(inventory, items, n - 1) + inventory[n - 1].quantity)
    } else {
        food_carried(inventory, items, n - 1)
    }
}

/// How much food a character carries.
pub fn inventory_healing_consumable_qty(character: &Character, data: &GameData) -> (r: i32)
    ensures
        r == food_carried(
            character.inventory@,
            data.items@,
            character.inventory@.len() as int,
        ),
{
    let mut sum: i32 = 0;
    let mut i: usize = 0;
    while i < character.inventory.len()
        invariant
            i <= character.inventory@.len(),
            sum == food_carried(character.inventory@, data.items@, i as int),
        decreases character.inventory@.len() - i,
    {
        if slot_food(&character.inventory[i], &data.items).is_some() {
            sum = saturated(sum as i64 + character.inventory[i].quantity as i64);
        }
        i += 1;
    }
    sum
}

/// Whether the bank holds any food.
pub fn bank_has_healing_consumable(bank: &[BankItem], data: &GameData) -> (r: bool)
    ensures
        r == food_in_bank(data.items@, bank@),
{
    has_food(&data.items, bank)
}

/// How many of a food that heals `value` to eat at once to get from `hp` to the threshold: the
/// fewest that are enough, at least one, and no more than are held.
pub open spec fn bites(hp: int, threshold: int, value: int, held_qty: int) -> int {
    if threshold <= hp {
        1
    } else {
        min_int(ceil_div(threshold - hp, max_int(value, 1)), max_int(held_qty, 1))
    }
}

/// How many of a food to eat at once.
pub fn heal_quantity_needed(hp: i32, min_hp_threshold: i32, value: i32, held_qty: i32) -> (r: i32)
    ensures
        r == bites(hp as int, min_hp_threshold as int, value as int, held_qty as int),
{
    let cap: i32 = if held_qty >= 1 {
        held_qty
    } else {
        1
    };
    if min_hp_threshold <= hp {
        return 1;
    }
    let gap: i64 = min_hp_threshold as i64 - hp as i64;
    let each: i64 = if value >= 1 {
        value as i64
    } else {
        1
    };
    let needed: i64 = (gap + each - 1) / each;
    proof {
        assert(1 <= needed <= gap) by (nonlinear_arith)
            requires
                needed == (gap + each - 1) / each as int,
                each >= 1,
                gap >= 1,
        ;
    }
    if needed <= cap as i64 {
        needed as i32
    } else {
        cap
    }
}

/// Eating as told crosses the threshold unless the food runs out first, and one bite fewer would
/// not have.
pub proof fn law_bites_are_enough_and_no_more(hp: int, threshold: int, value: int, held_qty: int)
    requires
        hp < threshold,
        value >= 1,
        held_qty >= 1,
    ensures
        1 <= bites(hp, threshold, value, held_qty) <= held_qty,
        hp + bites(hp, threshold, value, held_qty) * value >= threshold || bites(
            hp,
            threshold,
            value,
            held_qty,
        ) == held_qty,
        hp + (bites(hp, threshold, value, held_qty) - 1) * value < threshold,
{
    let gap = threshold - hp;
    let n = ceil_div(gap, value);
    assert(n >= 1 && n * value >= gap && (n - 1) * value < gap) by (nonlinear_arith)
        requires
            n == (gap + value - 1) / value,
            value >= 1,
            gap >= 1,
    ;
    let q = bites(hp, threshold, value, held_qty);
    assert((q - 1) * value <= (n - 1) * value) by (nonlinear_arith)
        requires
            q <= n,
            value >= 1,
    ;
}

/// Whether an item is food that the character may eat and the bank holds.
pub open spec fn is_stocked_food(item: Item, who: Character, bank: Seq<BankItem>) -> bool {
    heals(item) && is_eligible(who, item) && bank_holds(bank, item.code@)
}

/// Which of the first `n` items are food that the character may eat and the bank holds.
pub open spec fn food_picks(items: Seq<Item>, who: Character, bank: Seq<BankItem>, n: int) -> Seq<int>
    decreases n,
{
    if n <= 0 {
        Seq::empty()
    } else if is_stocked_food(items[n - 1], who, bank) {
        food_picks(items, who, bank, n - 1).push(n - 1)
    } else {
        food_picks(items, who, bank, n - 1)
    }
}

/// How much the picked items heal.
pub open spec fn heal_keys(picks: Seq<int>, items: Seq<Item>) -> Seq<i64> {
    picks.map_values(|i: int| heal_amount(items[i]) as i64)
}

/// The food the bank holds, what heals most first.
pub open spec fn food_order(items: Seq<Item>, who: Character, bank: Seq<BankItem>) -> Seq<int> {
    let picks = food_picks(items, who, bank, items.len() as int);
    ranked(by_key(heal_keys(picks, items)), picks.len() as int).map_values(|j: int| picks[j])
}

/// What has been taken, and how much and how many kinds may still be taken.
#[verifier::ext_equal]
pub struct Basket {
    pub taken: Seq<(Seq<char>, int)>,
    pub room: int,
    pub kinds: int,
}

/// The basket after the first `n` of the foods in order have been taken, each as far as the bank
/// and the room allow.
pub open spec fn basket(
    start: Basket,
    order: Seq<int>,
    items: Seq<Item>,
    bank: Seq<BankItem>,
    n: int,
) -> Basket
    decreases n,
{
    if n <= 0 {
        start
    } else {
        let b = basket(start, order, items, bank, n - 1);
        let code = items[order[n - 1]].code@;
        let take = min_int(bank_qty(bank, code), b.room);
        if b.room <= 0 || b.kinds == 0 || take <= 0 {
            b
        } else {
            Basket { taken: b.taken.push((code, take)), room: b.room - take, kinds: b.kinds - 1 }
        }
    }
}

/// How many kinds of food fit.
pub open spec fn kinds_that_fit(used: int) -> int {
    min_int(max_int(INVENTORY_SLOTS - used, 0), MAX_HEALING_CONSUMABLE_SLOTS as int)
}

/// A list of withdrawals, as mathematical values.
pub open spec fn withdrawal_views(list: Seq<(String, i32)>) -> Seq<(Seq<char>, int)> {
    list.map_values(|w: (String, i32)| (w.0@, w.1 as int))
}

/// Plans what food to withdraw: what heals most first, up to `target_qty` items in all with the
/// `held_qty` already held, and of no more kinds than fit the free slots and the cap.
pub fn plan_healing_consumable_withdrawal(
    character: &Character,
    data: &GameData,
    bank: &[BankItem],
    target_qty: i32,
    held_qty: i32,
    used_slots: usize,
) -> (r: Vec<(String, i32)>)
    ensures
        ({
            let order = food_order(data.items@, *character, bank@);
            let start = Basket {
                taken: Seq::empty(),
                room: max_int(sat_i32(target_qty - held_qty), 0),
                kinds: kinds_that_fit(used_slots as int),
            };
            withdrawal_views(r@) == basket(
                start,
                order,
                data.items@,
                bank@,
                order.len() as int,
            ).taken
        }),
{
    let mut picks: Vec<usize> = Vec::new();
    let mut keys: Vec<i64> = Vec::new();
    let mut i: usize = 0;
    assert(places(picks@) =~= Seq::empty());
    assert(keys@ =~= heal_keys(places(picks@), data.items@));
    while i < data.items.len()
        invariant
            i <= data.items@.len(),
            places(picks@) == food_picks(data.items@, *character, bank@, i as int),
            keys@ == heal_keys(places(picks@), data.items@),
            keys@.len() == picks@.len(),
            forall|j: int| 0 <= j < picks@.len() ==> (#[trigger] picks@[j]) < data.items@.len(),
        decreases data.items@.len() - i,
    {
        let item: &Item = &data.items[i];
        if is_healing_consumable(item) && meets_conditions(character, item) && is_in_bank(
            bank,
            &item.code,
        ) {
            let ghost had = picks@;
            picks.push(i);
            keys.push(heal_value(item) as i64);
            assert(places(picks@) =~= places(had).push(i as int));
            assert(keys@ =~= heal_keys(places(picks@), data.items@));
        }
        i += 1;
    }
    let order: Vec<usize> = rank_by_key(&keys);
    let ghost target = food_order(data.items@, *character, bank@);
    let mut room: i32 = saturated(target_qty as i64 - held_qty as i64);
    if room < 0 {
        room = 0;
    }
    let mut kinds: usize = if used_slots >= INVENTORY_SLOTS {
        0
    } else {
        INVENTORY_SLOTS - used_slots
    };
    if kinds > MAX_HEALING_CONSUMABLE_SLOTS {
        kinds = MAX_HEALING_CONSUMABLE_SLOTS;
    }
    let ghost start = Basket { taken: Seq::empty(), room: room as int, kinds: kinds as int };
    let mut out: Vec<(String, i32)> = Vec::new();
    assert(withdrawal_views(out@) =~= Seq::empty());
    let mut j: usize = 0;
    while j < order.len()
        invariant
            j <= order@.len(),
            order@.len() == picks@.len(),
            keys@.len() == picks@.len(),
            places(picks@) == food_picks(
                data.items@,
                *character,
                bank@,
                data.items@.len() as int,
            ),
            keys@ == heal_keys(places(picks@), data.items@),
            forall|m: int| 0 <= m < picks@.len() ==> (#[trigger] picks@[m]) < data.items@.len(),
            places(order@) == ranked(by_key(keys@), keys@.len() as int),
            is_ranking(places(order@), by_key(keys@), keys@.len() as int),
            target == food_order(data.items@, *character, bank@),
            room >= 0,
            (Basket { taken: withdrawal_views(out@), room: room as int, kinds: kinds as int })
                == basket(start, target, data.items@, bank@, j as int),
        decreases order@.len() - j,
    {
        assert(places(order@)[j as int] == order@[j as int]);
        let pick: usize = picks[order[j]];
        assert(places(picks@)[order@[j as int] as int] == pick);
        assert(target[j as int] == pick);
        let available: i32 = quantity_in(bank, &data.items[pick].code);
        let take: i32 = if available <= room {
            available
        } else {
            room
        };
        if room > 0 && kinds > 0 && take > 0 {
            let ghost had = out@;
            out.push((data.items[pick].code.clone(), take));
            assert(withdrawal_views(out@) =~= withdrawal_views(had).push(
                (data.items@[pick as int].code@, take as int),
            ));
            room = room - take;
            kinds = kinds - 1;
        }
        j += 1;
    }
    out
}

/// What the first `n` withdrawals add up to.
pub open spec fn taken_total(taken: Seq<(Seq<char>, int)>, n: int) -> int
    decreases n,
{
    if n <= 0 {
        0
    } else {
        taken_total(taken, n - 1) + taken[n - 1].1
    }
}

proof fn lemma_total_pushed(taken: Seq<(Seq<char>, int)>, more: (Seq<char>, int), n: int)
    requires
        0 <= n <= taken.len(),
    ensures
        taken_total(taken.push(more), n) == taken_total(taken, n),
    decreases n,
{
    if n > 0 {
        lemma_total_pushed(taken, more, n - 1);
    }
}

/// A withdrawal never takes more than there is room for, of more kinds than fit, or more of
/// anything than the bank holds.
pub proof fn law_withdrawal_fits(
    start: Basket,
    order: Seq<int>,
    items: Seq<Item>,
    bank: Seq<BankItem>,
    n: int,
)
    requires
        0 <= n <= order.len(),
        start.taken.len() == 0,
        start.room >= 0,
        start.kinds >= 0,
    ensures
        ({
            let b = basket(start, order, items, bank, n);
            &&& b.room >= 0
            &&& b.kinds >= 0
            &&& taken_total(b.taken, b.taken.len() as int) == start.room - b.room
            &&& b.taken.len() == start.kinds - b.kinds
            &&& forall|k: int|
                0 <= k < b.taken.len() ==> 0 < (#[trigger] b.taken[k]).1 <= bank_qty(
                    bank,
                    b.taken[k].0,
                )
        }),
    decreases n,
{
    if n > 0 {
        law_withdrawal_fits(start, order, items, bank, n - 1);
        let b = basket(start, order, items, bank, n - 1);
        let code = items[order[n - 1]].code@;
        let take = min_int(bank_qty(bank, code), b.room);
        if b.room > 0 && b.kinds != 0 && take > 0 {
            lemma_total_pushed(b.taken, (code, take), b.taken.len() as int);
        }
    }
}

/// What a character out of food does about it.
#[derive(Debug, Clone, Copy, PartialEq, Eq, Structural)]
pub enum FoodErrand {
    /// It has some.
    Nothing,
    /// The bank has none either: wait to be told of some.
    Wait,
    /// The bank has some: go and fetch it.
    Fetch,
}

/// What a character does about food.
pub fn food_errand(character: &Character, data: &GameData, bank: &[BankItem]) -> (r: FoodErrand)
    ensures
        r == errand_for(*character, data.items@, bank@),
{
    if inventory_healing_consumable_qty(character, data) > 0 {
        FoodErrand::Nothing
    } else if bank_has_healing_consumable(bank, data) {
        FoodErrand::Fetch
    } else {
        FoodErrand::Wait
    }
}

/// How many items a character stocks up to: nineteen twentieths of what it can carry, which leaves
/// room for loot.
pub open spec fn fill_target(max_items: int) -> int {
    (max_items * 19) / 20
}

/// What food a character fetches from the bank.
pub open spec fn food_fetched(who: Character, items: Seq<Item>, bank: Seq<BankItem>) -> Seq<
    (Seq<char>, int),
> {
    let order = food_order(items, who, bank);
    let len = who.inventory@.len() as int;
    let start = Basket {
        taken: Seq::empty(),
        room: max_int(
            sat_i32(
                fill_target(who.inventory_max_items as int) - carried(who.inventory@, len),
            ),
            0,
        ),
        kinds: kinds_that_fit(used_count(who.inventory@, len) as int),
    };
    basket(start, order, items, bank, order.len() as int).taken
}

/// What a character does about food.
pub open spec fn errand_for(who: Character, items: Seq<Item>, bank: Seq<BankItem>) -> FoodErrand {
    if food_carried(who.inventory@, items, who.inventory@.len() as int) > 0 {
        FoodErrand::Nothing
    } else if food_in_bank(items, bank) {
        FoodErrand::Fetch
    } else {
        FoodErrand::Wait
    }
}

/// What food to fetch from the bank, as withdrawals.
pub fn plan_food_fetch(character: &Character, data: &GameData, bank: &[BankItem]) -> (r: Vec<
    DepositItem,
>)
    ensures
        deposit_views(r@) == food_fetched(*character, data.items@, bank@),
{
    let max_items: i64 = character.inventory_max_items as i64;
    let scaled: i64 = max_items * 19;
    let target: i64 = if scaled >= 0 {
        scaled / 20
    } else {
        -((19 - scaled) / 20)
    };
    assert(target == fill_target(character.inventory_max_items as int));
    let list: Vec<(String, i32)> = plan_healing_consumable_withdrawal(
        character,
        data,
        bank,
        target as i32,
        total_carried(&character.inventory),
        used_slots(&character.inventory),
    );
    let mut out: Vec<DepositItem> = Vec::new();
    let mut i: usize = 0;
    assert(deposit_views(out@) =~= withdrawal_views(list@).take(0));
    while i < list.len()
        invariant
            i <= list@.len(),
            deposit_views(out@) == withdrawal_views(list@).take(i as int),
        decreases list@.len() - i,
    {
        let ghost had = out@;
        out.push(DepositItem { code: list[i].0.clone(), quantity: list[i].1 });
        assert(deposit_views(out@) =~= deposit_views(had).push(
            (list@[i as int].0@, list@[i as int].1 as int),
        ));
        i += 1;
        assert(withdrawal_views(list@).take(i as int) =~= withdrawal_views(list@).take(
            i - 1,
        ).push(withdrawal_views(list@)[i - 1]));
    }
    assert(withdrawal_views(list@).take(i as int) =~= withdrawal_views(list@));
    out
}

/// How a hurt character gets its hit points back.
#[derive(Debug)]
pub enum HealAction {
    /// It has enough.
    Done,
    /// Eat this many of a food.
    Eat { code: String, quantity: i32 },
    /// There is no food left: rest.
    Rest,
}

/// How much the food in each inventory slot heals.
pub open spec fn slot_heals(inventory: Seq<InventorySlot>, items: Seq<Item>) -> Seq<Option<i64>> {
    Seq::new(
        inventory.len(),
        |i: int|
            match food_in_slot(inventory[i], items) {
                Some(item) => Some(heal_amount(item) as i64),
                None => None,
            },
    )
}

/// What a character does next to get to `min_hp_threshold`: it eats the food that heals most, the
/// fewest that are enough, and rests only when it has none.
pub fn next_heal(character: &Character, min_hp_threshold: i32, data: &GameData) -> (r: HealAction)
    ensures
        ({
            let keys = slot_heals(character.inventory@, data.items@);
            if character.hp >= min_hp_threshold {
                r is Done
            } else {
                match first_best(keys, keys.len() as int) {
                    Some(b) => r matches HealAction::Eat { code, quantity } && code@
                        == character.inventory@[b].code@ && quantity == bites(
                        character.hp as int,
                        min_hp_threshold as int,
                        keys[b]->0 as int,
                        character.inventory@[b].quantity as int,
                    ),
                    None => r is Rest,
                }
            }
        }),
{
    if character.hp >= min_hp_threshold {
        return HealAction::Done;
    }
    let ghost target = slot_heals(character.inventory@, data.items@);
    let mut keys: Vec<Option<i64>> = Vec::new();
    let mut i: usize = 0;
    while i < character.inventory.len()
        invariant
            i <= character.inventory@.len(),
            target == slot_heals(character.inventory@, data.items@),
            keys@ == target.take(i as int),
        decreases character.inventory@.len() - i,
    {
        match slot_food(&character.inventory[i], &data.items) {
            Some(k) => {
                keys.push(Some(heal_value(&data.items[k]) as i64));
            },
            None => {
                keys.push(None);
            },
        }
        i += 1;
        assert(target.take(i as int) =~= target.take(i - 1).push(target[i - 1]));
    }
    assert(target.take(i as int) =~= target);
    match find_first_best(&keys) {
        Some(b) => {
            let slot: &InventorySlot = &character.inventory[b];
            match slot_food(slot, &data.items) {
                Some(k) => HealAction::Eat {
                    code: slot.code.clone(),
                    quantity: heal_quantity_needed(
                        character.hp,
                        min_hp_threshold,
                        heal_value(&data.items[k]),
                        slot.quantity,
                    ),
                },
                None => HealAction::Rest,
            }
        },
        None => HealAction::Rest,
    }
}

} // verus!
