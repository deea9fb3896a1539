//! What holds of bags, food and utility slots.

use vstd::prelude::*;

use super::bank_ops::{carried, stacks, stands_at_bank, used_count};
use super::consumables::{
    basket, errand_for, fill_target, food_carried, food_in_slot, food_order, food_picks,
    heal_amount, heal_keys, kinds_that_fit, slot_heals, Basket, FoodErrand,
};
use super::gather::{is_full, is_nearly_full, most_drops};
use super::utility::{
    free_room, free_slots, level_keys, option_order, options, pick_of, restores, top_up,
};
use crate::arith::{fits_i32, min_int};
use crate::flags::bank_holds;
use crate::optimize::combat_sim::first_effect;
use crate::optimize::eligibility::{heals, is_eligible};
use crate::optimize::loadout_laws::lemma_contains_pushed;
use crate::ranking::{
    by_key, first_best, law_first_best, law_ranking, lemma_keys_are_ordered, ranked,
};
use crate::types::{
    bank_qty, item_named, BankItem, Character, InventorySlot, Item, ItemEffect, MonsterDrop,
};

verus! {

/// The quantities of the first `n` slots, added up.
pub open spec fn slot_sum(inventory: Seq<InventorySlot>, n: int) -> int
    decreases n,
{
    if n <= 0 {
        0
    } else {
        slot_sum(inventory, n - 1) + inventory[n - 1].quantity
    }
}

/// No partial sum of the slots leaves the 32-bit range.
pub open spec fn slots_fit(inventory: Seq<InventorySlot>) -> bool {
    forall|k: int| 0 <= k <= inventory.len() ==> fits_i32(#[trigger] slot_sum(inventory, k))
}

proof fn lemma_carried(inventory: Seq<InventorySlot>, n: int)
    requires
        0 <= n <= inventory.len(),
        slots_fit(inventory),
    ensures
        carried(inventory, n) == slot_sum(inventory, n),
    decreases n,
{
    if n > 0 {
        lemma_carried(inventory, n - 1);
        assert(fits_i32(slot_sum(inventory, n)));
    }
}

/// What a character carries is what all its slots hold together. Its bag is full where that is as
/// much as it can carry, or where twenty slots are in use; and one action from full where the room
/// left is no more than what one action can give.
pub proof fn law_bag_is_full_when_nothing_more_fits(who: Character, max_drops: int)
    requires
        slots_fit(who.inventory@),
    ensures
        ({
            let n = who.inventory@.len() as int;
            let sum = slot_sum(who.inventory@, n);
            &&& carried(who.inventory@, n) == sum
            &&& is_full(who) <==> sum >= who.inventory_max_items || used_count(who.inventory@, n)
                >= 20
            &&& is_nearly_full(who, max_drops) <==> sum + max_drops >= who.inventory_max_items
            &&& free_room(who) == if who.inventory_max_items > sum {
                min_int(who.inventory_max_items - sum, i32::MAX as int)
            } else {
                0
            }
            &&& used_count(who.inventory@, n) <= 20 ==> free_slots(who) == 20 - used_count(
                who.inventory@,
                n,
            )
        }),
{
    lemma_carried(who.inventory@, who.inventory@.len() as int);
}

/// A slot counts as used exactly where it holds something: every slot with a code and a quantity
/// adds one, and no other does.
pub proof fn law_used_slots_hold_something(inventory: Seq<InventorySlot>, n: int)
    requires
        0 < n <= inventory.len(),
    ensures
        used_count(inventory, 0) == 0,
        inventory[n - 1].code@.len() > 0 && inventory[n - 1].quantity > 0 ==> used_count(
            inventory,
            n,
        ) == used_count(inventory, n - 1) + 1,
        inventory[n - 1].code@.len() == 0 || inventory[n - 1].quantity <= 0 ==> used_count(
            inventory,
            n,
        ) == used_count(inventory, n - 1),
{
}

/// Everything that a character carries is deposited: each slot that holds something as a stack of
/// its own, and nothing besides.
pub proof fn law_deposit_leaves_nothing_behind(inventory: Seq<InventorySlot>, n: int)
    requires
        0 <= n <= inventory.len(),
    ensures
        stacks(inventory, n).len() == used_count(inventory, n),
        forall|i: int|
            0 <= i < n && (#[trigger] inventory[i]).quantity > 0 && inventory[i].code@.len() > 0
                ==> stacks(inventory, n).contains(
                (inventory[i].code@, inventory[i].quantity as int),
            ),
        forall|k: int|
            0 <= k < stacks(inventory, n).len() ==> (#[trigger] stacks(inventory, n)[k]).1 > 0
                && stacks(inventory, n)[k].0.len() > 0,
    decreases n,
{
    if n > 0 {
        law_deposit_leaves_nothing_behind(inventory, n - 1);
        let before = stacks(inventory, n - 1);
        let all = stacks(inventory, n);
        assert forall|i: int|
            0 <= i < n && (#[trigger] inventory[i]).quantity > 0 && inventory[i].code@.len()
                > 0 implies all.contains((inventory[i].code@, inventory[i].quantity as int)) by {
            let stack = (inventory[i].code@, inventory[i].quantity as int);
            if i < n - 1 {
                assert(before.contains(stack));
                let k = before.index_of(stack);
                assert(all[k] == stack);
            } else {
                assert(all[before.len() as int] == stack);
            }
        }
        assert forall|k: int| 0 <= k < all.len() implies (#[trigger] all[k]).1 > 0
            && all[k].0.len() > 0 by {
            if k < before.len() {
                assert(all[k] == before[k]);
            }
        }
    }
}

/// The bank stands at (4, 1).
pub proof fn law_where_the_bank_is(who: Character)
    ensures
        stands_at_bank(who) <==> who.x == 4 && who.y == 1,
{
}

/// What the first `n` drops can give at most, added up.
pub open spec fn drop_sum(drops: Seq<MonsterDrop>, n: int) -> int
    decreases n,
{
    if n <= 0 {
        0
    } else {
        drop_sum(drops, n - 1) + drops[n - 1].max_quantity
    }
}

/// What one action can give at most is all that every drop can give at once.
pub proof fn law_one_action_can_drop_everything(drops: Seq<MonsterDrop>, n: int)
    requires
        0 <= n <= drops.len(),
        forall|k: int| 0 <= k <= n ==> fits_i32(#[trigger] drop_sum(drops, k)),
    ensures
        most_drops(drops, n) == drop_sum(drops, n),
    decreases n,
{
    if n > 0 {
        law_one_action_can_drop_everything(drops, n - 1);
        assert(fits_i32(drop_sum(drops, n)));
    }
}

proof fn lemma_heal_amount(effects: Seq<ItemEffect>, from: int)
    requires
        0 <= from,
    ensures
        (forall|i: int| from <= i < effects.len() ==> (#[trigger] effects[i]).code@ != "heal"@)
            ==> first_effect(effects, "heal"@, from) is None,
        forall|i: int|
            from <= i < effects.len() && (#[trigger] effects[i]).code@ == "heal"@ && (forall|j: int|
                from <= j < i ==> (#[trigger] effects[j]).code@ != "heal"@) ==> first_effect(
                effects,
                "heal"@,
                from,
            ) == Some(effects[i].value as int),
    decreases effects.len() - from,
{
    if from < effects.len() && effects[from].code@ != "heal"@ {
        lemma_heal_amount(effects, from + 1);
    }
}

/// An item heals as much as its first healing effect says, and nothing where it has none.
pub proof fn law_food_heals_what_it_says(item: Item)
    ensures
        (forall|i: int|
            0 <= i < item.effects@.len() ==> (#[trigger] item.effects@[i]).code@ != "heal"@)
            ==> heal_amount(item) == 0,
        forall|i: int|
            0 <= i < item.effects@.len() && (#[trigger] item.effects@[i]).code@ == "heal"@ && (
            forall|j: int| 0 <= j < i ==> (#[trigger] item.effects@[j]).code@ != "heal"@)
                ==> heal_amount(item) == item.effects@[i].value,
{
    lemma_heal_amount(item.effects@, 0);
}

proof fn lemma_food_picks(items: Seq<Item>, who: Character, bank: Seq<BankItem>, n: int)
    requires
        0 <= n <= items.len(),
    ensures
        forall|i: int| #[trigger]
            food_picks(items, who, bank, n).contains(i) <==> 0 <= i < n && heals(items[i])
                && is_eligible(who, items[i]) && bank_holds(bank, items[i].code@),
    decreases n,
{
    let all = food_picks(items, who, bank, n);
    if n > 0 {
        lemma_food_picks(items, who, bank, n - 1);
        let before = food_picks(items, who, bank, n - 1);
        assert forall|i: int| #[trigger] all.contains(i) <==> 0 <= i < n && heals(items[i])
            && is_eligible(who, items[i]) && bank_holds(bank, items[i].code@) by {
            lemma_contains_pushed(before, n - 1, i);
        }
    }
}

/// Food is fetched in the order of what it heals, the most first: all food that the bank holds and
/// the character may eat, and nothing else.
pub proof fn law_best_food_is_fetched_first(items: Seq<Item>, who: Character, bank: Seq<BankItem>)
    ensures
        ({
            let order = food_order(items, who, bank);
            &&& forall|i: int| #[trigger]
                order.contains(i) <==> 0 <= i < items.len() && heals(items[i]) && is_eligible(
                    who,
                    items[i],
                ) && bank_holds(bank, items[i].code@)
            &&& forall|a: int, b: int|
                0 <= a < b < order.len() ==> heal_amount(items[#[trigger] order[a]]) >= heal_amount(
                    items[#[trigger] order[b]],
                )
        }),
{
    let n = items.len() as int;
    let picks = food_picks(items, who, bank, n);
    let keys = heal_keys(picks, items);
    let order = food_order(items, who, bank);
    lemma_food_picks(items, who, bank, n);
    lemma_keys_are_ordered(keys);
    law_ranking(by_key(keys), keys.len() as int);
    let places = ranked(by_key(keys), picks.len() as int);
    assert forall|i: int| #[trigger] order.contains(i) <==> 0 <= i < n && heals(items[i])
        && is_eligible(who, items[i]) && bank_holds(bank, items[i].code@) by {
        if order.contains(i) {
            let a = order.index_of(i);
            assert(0 <= places[a] < picks.len());
            assert(picks[places[a]] == i);
            assert(picks.contains(i));
        }
        if picks.contains(i) {
            let j = picks.index_of(i);
            assert(places.contains(j));
            let a = places.index_of(j);
            assert(order[a] == i);
        }
    }
    assert forall|a: int, b: int| 0 <= a < b < order.len() implies heal_amount(
        items[#[trigger] order[a]],
    ) >= heal_amount(items[#[trigger] order[b]]) by {
        let (p, q) = (places[a], places[b]);
        assert(0 <= p < picks.len() && 0 <= q < picks.len());
        assert(!by_key(keys)(p, q));
        lemma_heal_fits(items[picks[p]]);
        lemma_heal_fits(items[picks[q]]);
        assert(keys[p] == heal_amount(items[picks[p]]) && keys[q] == heal_amount(items[picks[q]]));
    }
}

proof fn lemma_effect_fits(effects: Seq<ItemEffect>, code: Seq<char>, from: int)
    ensures
        first_effect(effects, code, from) matches Some(v) ==> fits_i32(v),
    decreases effects.len() - from,
{
    if 0 <= from < effects.len() && effects[from].code@ != code {
        lemma_effect_fits(effects, code, from + 1);
    }
}

proof fn lemma_heal_fits(item: Item)
    ensures
        fits_i32(heal_amount(item)),
{
    lemma_effect_fits(item.effects@, "heal"@, 0);
}

/// Of each food as much is taken as the bank has and there is room for, in order, until the room or
/// the kinds that fit are used up.
pub proof fn law_basket_is_filled_in_order(
    start: Basket,
    order: Seq<int>,
    items: Seq<Item>,
    bank: Seq<BankItem>,
    i: int,
)
    requires
        0 <= i < order.len(),
    ensures
        ({
            let b = basket(start, order, items, bank, i);
            let after = basket(start, order, items, bank, i + 1);
            let code = items[order[i]].code@;
            let have = bank_qty(bank, code);
            let take = if have < b.room {
                have
            } else {
                b.room
            };
            &&& b.room > 0 && b.kinds != 0 && have > 0 ==> after.taken == b.taken.push((code, take))
                && after.room == b.room - take && after.kinds == b.kinds - 1
            &&& b.room <= 0 || b.kinds == 0 || have <= 0 ==> after == b
        }),
{
}

/// At most three slots hold food, and no more than are free of the twenty. A character stocks up to
/// nineteen twentieths of what it can carry, rounded down.
pub proof fn law_room_is_left_for_loot(used: int, max_items: int)
    ensures
        kinds_that_fit(used) <= 3,
        0 <= used <= 17 ==> kinds_that_fit(used) == 3,
        17 <= used <= 20 ==> kinds_that_fit(used) == 20 - used,
        used >= 20 ==> kinds_that_fit(used) == 0,
        20 * fill_target(max_items) <= 19 * max_items < 20 * (fill_target(max_items) + 1),
{
}

proof fn lemma_food_carried(inventory: Seq<InventorySlot>, items: Seq<Item>, n: int)
    requires
        0 <= n <= inventory.len(),
    ensures
        food_carried(inventory, items, n) >= 0,
        food_carried(inventory, items, n) > 0 <==> exists|i: int|
            0 <= i < n && (#[trigger] inventory[i]).quantity > 0 && (item_named(
                items,
                inventory[i].code@,
            ) matches Some(item) && heals(item)),
    decreases n,
{
    if n > 0 {
        lemma_food_carried(inventory, items, n - 1);
        if food_in_slot(inventory[n - 1], items) is Some {
            assert(inventory[n - 1].quantity > 0);
        }
        if food_carried(inventory, items, n - 1) > 0 {
            let i = choose|i: int|
                0 <= i < n - 1 && (#[trigger] inventory[i]).quantity > 0 && (item_named(
                    items,
                    inventory[i].code@,
                ) matches Some(item) && heals(item));
            assert(inventory[i].quantity > 0);
        }
    }
}

/// A character that carries any food needs none. One that carries none fetches some where the bank
/// has any, and otherwise waits.
pub proof fn law_food_is_fetched_when_none_is_left(
    who: Character,
    items: Seq<Item>,
    bank: Seq<BankItem>,
)
    ensures
        ({
            let fed = exists|i: int|
                0 <= i < who.inventory@.len() && (#[trigger] who.inventory@[i]).quantity > 0 && (
                item_named(items, who.inventory@[i].code@) matches Some(item) && heals(item));
            let banked = exists|i: int|
                0 <= i < bank.len() && (#[trigger] bank[i]).quantity > 0 && (item_named(
                    items,
                    bank[i].code@,
                ) matches Some(item) && heals(item));
            &&& fed ==> errand_for(who, items, bank) == FoodErrand::Nothing
            &&& !fed && banked ==> errand_for(who, items, bank) == FoodErrand::Fetch
            &&& !fed && !banked ==> errand_for(who, items, bank) == FoodErrand::Wait
        }),
{
    lemma_food_carried(who.inventory@, items, who.inventory@.len() as int);
}

/// A hurt character eats the food it carries that heals most, the first of several; it has none to
/// eat only where no slot holds any.
pub proof fn law_best_food_is_eaten_first(inventory: Seq<InventorySlot>, items: Seq<Item>)
    ensures
        match first_best(slot_heals(inventory, items), inventory.len() as int) {
            Some(b) => {
                &&& 0 <= b < inventory.len()
                &&& food_in_slot(inventory[b], items) is Some
                &&& forall|i: int|
                    0 <= i < inventory.len() ==> (#[trigger] food_in_slot(
                        inventory[i],
                        items,
                    ) matches Some(item) ==> heal_amount(item) <= heal_amount(
                        food_in_slot(inventory[b], items)->0,
                    ) && (heal_amount(item) == heal_amount(
                        food_in_slot(inventory[b], items)->0,
                    ) ==> b <= i))
            },
            None => forall|i: int|
                0 <= i < inventory.len() ==> #[trigger] food_in_slot(inventory[i], items) is None,
        },
        forall|i: int|
            0 <= i < inventory.len() ==> (#[trigger] food_in_slot(inventory[i], items) is Some
                <==> inventory[i].quantity > 0 && (item_named(
                items,
                inventory[i].code@,
            ) matches Some(item) && heals(item))),
{
    let keys = slot_heals(inventory, items);
    let n = inventory.len() as int;
    law_first_best(keys, n);
    assert forall|i: int| 0 <= i < n implies (keys[i] is Some <==> #[trigger] food_in_slot(
        inventory[i],
        items,
    ) is Some) && (keys[i] is Some ==> keys[i]->0 == heal_amount(
        food_in_slot(inventory[i], items)->0,
    )) by {
        if let Some(item) = food_in_slot(inventory[i], items) {
            lemma_heal_fits(item);
        }
    }
    match first_best(keys, n) {
        Some(b) => {
            assert(keys[b] is Some);
            assert forall|i: int| 0 <= i < n implies (#[trigger] food_in_slot(
                inventory[i],
                items,
            ) matches Some(item) ==> heal_amount(item) <= heal_amount(
                food_in_slot(inventory[b], items)->0,
            ) && (heal_amount(item) == heal_amount(food_in_slot(inventory[b], items)->0) ==> b
                <= i)) by {
                if food_in_slot(inventory[i], items) is Some {
                    assert(keys[i] is Some);
                }
            }
        },
        None => {
            assert forall|i: int| 0 <= i < n implies #[trigger] food_in_slot(
                inventory[i],
                items,
            ) is None by {
                assert(keys[i] is None);
            }
        },
    }
}

proof fn lemma_options(
    items: Seq<Item>,
    who: Character,
    bank: Seq<BankItem>,
    kept: Seq<Seq<char>>,
    n: int,
)
    requires
        0 <= n <= items.len(),
    ensures
        forall|i: int| #[trigger]
            options(items, who, bank, kept, n).contains(i) <==> 0 <= i < n && is_for_utility(
                items[i],
                who,
                bank,
                kept,
            ),
    decreases n,
{
    let all = options(items, who, bank, kept, n);
    if n > 0 {
        lemma_options(items, who, bank, kept, n - 1);
        let before = options(items, who, bank, kept, n - 1);
        assert forall|i: int| #[trigger] all.contains(i) <==> 0 <= i < n && is_for_utility(
            items[i],
            who,
            bank,
            kept,
        ) by {
            lemma_contains_pushed(before, n - 1, i);
        }
    }
}

/// An item can go into a utility slot: it is made for one, the character may use it, the bank has
/// some, and no slot that stays holds it.
pub open spec fn is_for_utility(
    item: Item,
    who: Character,
    bank: Seq<BankItem>,
    kept: Seq<Seq<char>>,
) -> bool {
    &&& item.item_type@ == "utility"@
    &&& is_eligible(who, item)
    &&& bank_qty(bank, item.code@) > 0
    &&& !kept.contains(item.code@)
}

/// Utility slots are filled in the order of the items' levels, the highest first, from everything
/// that can go into one.
pub proof fn law_utility_slots_take_the_highest_level(
    items: Seq<Item>,
    who: Character,
    bank: Seq<BankItem>,
    kept: Seq<Seq<char>>,
)
    ensures
        ({
            let order = option_order(items, who, bank, kept);
            &&& forall|i: int| #[trigger]
                order.contains(i) <==> 0 <= i < items.len() && is_for_utility(
                    items[i],
                    who,
                    bank,
                    kept,
                )
            &&& forall|a: int, b: int|
                0 <= a < b < order.len() ==> items[#[trigger] order[a]].level >= items[
                #[trigger] order[b]].level
        }),
{
    let n = items.len() as int;
    let picks = options(items, who, bank, kept, n);
    let keys = level_keys(picks, items);
    let order = option_order(items, who, bank, kept);
    lemma_options(items, who, bank, kept, n);
    lemma_keys_are_ordered(keys);
    law_ranking(by_key(keys), keys.len() as int);
    let places = ranked(by_key(keys), picks.len() as int);
    assert forall|i: int| #[trigger] order.contains(i) <==> 0 <= i < n && is_for_utility(
        items[i],
        who,
        bank,
        kept,
    ) by {
        if order.contains(i) {
            let a = order.index_of(i);
            assert(0 <= places[a] < picks.len());
            assert(picks[places[a]] == i);
            assert(picks.contains(i));
        }
        if picks.contains(i) {
            let j = picks.index_of(i);
            assert(places.contains(j));
            let a = places.index_of(j);
            assert(order[a] == i);
        }
    }
    assert forall|a: int, b: int| 0 <= a < b < order.len() implies items[
    #[trigger] order[a]].level >= items[#[trigger] order[b]].level by {
        let (p, q) = (places[a], places[b]);
        assert(0 <= p < picks.len() && 0 <= q < picks.len());
        assert(!by_key(keys)(p, q));
        assert(keys[p] == items[picks[p]].level && keys[q] == items[picks[q]].level);
    }
}

/// A potion for the bearer's own hit points is one that restores; a pick takes as many as the bank
/// has, up to a hundred.
pub proof fn law_stack_holds_a_hundred(item: Item, bank: Seq<BankItem>)
    ensures
        restores(item) <==> exists|i: int|
            0 <= i < item.effects@.len() && (#[trigger] item.effects@[i]).code@ == "restore"@,
        pick_of(item, bank).0 == item.code@,
        bank_qty(bank, item.code@) <= 100 ==> pick_of(item, bank).1 == bank_qty(bank, item.code@),
        bank_qty(bank, item.code@) >= 100 ==> pick_of(item, bank).1 == 100,
{
}

/// A utility slot that holds something is topped up to a hundred of it, as far as the bank has it;
/// an empty slot and a full one are left alone.
pub proof fn law_slot_is_topped_up_to_a_hundred(
    slot: Seq<char>,
    code: Seq<char>,
    quantity: int,
    bank: Seq<BankItem>,
)
    requires
        0 <= quantity,
    ensures
        ({
            let have = bank_qty(bank, code);
            let asked = top_up(slot, code, quantity, bank);
            &&& code.len() == 0 || quantity >= 100 || have <= 0 ==> asked.len() == 0
            &&& code.len() > 0 && quantity < 100 && have > 0 ==> asked.len() == 1 && asked[0].0
                == slot && asked[0].1 == code && asked[0].2 == if quantity + have <= 100 {
                have
            } else {
                100 - quantity
            }
        }),
{
}

} // verus!
