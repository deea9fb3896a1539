//! What holds of a refining batch: which recipes it takes, in which order, and how much of each.

use vstd::prelude::*;

use super::market::stock;
use super::refining::{
    crafts_left, crafts_planned, extra, fits, item_levels, left, most_that_fit, noted, refinable,
    refining_order, usable, Batch, Means,
};
use crate::arith::{fits_i32, max_int, quot};
use crate::optimize::loadout_laws::lemma_contains_pushed;
use crate::optimize::skills::level_in;
use crate::ranking::{by_key, law_ranking, lemma_keys_are_ordered, ranked};
use crate::types::{bank_qty, held, BankItem, Character, CraftIngredient, InventorySlot, Item};

verus! {

/// A recipe of the skill that the character has the level for.
pub open spec fn can_make(item: Item, skill: Seq<char>, who: Character) -> bool {
    &&& item.craft is Some
    &&& item.craft->0.skill is Some
    &&& item.craft->0.skill->0@ == skill
    &&& level_in(who, skill) >= match item.craft->0.level {
        Some(req) => req as int,
        None => 0,
    }
}

proof fn lemma_refinable_exactly(items: Seq<Item>, skill: Seq<char>, who: Character, n: int)
    requires
        0 <= n <= items.len(),
    ensures
        forall|i: int| #[trigger]
            refinable(items, skill, who, n).contains(i) <==> 0 <= i < n && can_make(
                items[i],
                skill,
                who,
            ),
    decreases n,
{
    let all = refinable(items, skill, who, n);
    if n > 0 {
        lemma_refinable_exactly(items, skill, who, n - 1);
        let before = refinable(items, skill, who, n - 1);
        assert forall|i: int| #[trigger] all.contains(i) <==> 0 <= i < n && can_make(
            items[i],
            skill,
            who,
        ) by {
            lemma_contains_pushed(before, n - 1, i);
        }
    }
}

/// A batch considers every recipe of its skill that the character has the level for, and no other,
/// the highest level first.
pub proof fn law_highest_recipe_is_refined_first(
    items: Seq<Item>,
    skill: Seq<char>,
    who: Character,
)
    ensures
        ({
            let order = refining_order(items, skill, who);
            &&& forall|i: int| #[trigger]
                order.contains(i) <==> 0 <= i < items.len() && can_make(items[i], skill, who)
            &&& forall|a: int, b: int|
                0 <= a < b < order.len() ==> items[#[trigger] order[a]].level >= items[
                #[trigger] order[b]].level
        }),
{
    let n = items.len() as int;
    let picks = refinable(items, skill, who, n);
    let keys = item_levels(picks, items);
    let order = refining_order(items, skill, who);
    lemma_refinable_exactly(items, skill, who, n);
    lemma_keys_are_ordered(keys);
    law_ranking(by_key(keys), keys.len() as int);
    let places = ranked(by_key(keys), picks.len() as int);
    assert forall|i: int| #[trigger] order.contains(i) <==> 0 <= i < n && can_make(
        items[i],
        skill,
        who,
    ) by {
        if order.contains(i) {
            let a = order.index_of(i);
            assert(0 <= places[a] < picks.len());
            assert(picks[places[a]] == i);
            assert(picks.contains(i));
        }
        if picks.contains(i) {
            let j = picks.index_of(i);
            assert(places.contains(j));
            let a = places.index_of(j);
            assert(order[a] == i);
        }
    }
    assert forall|a: int, b: int| 0 <= a < b < order.len() implies items[
    #[trigger] order[a]].level >= items[#[trigger] order[b]].level by {
        let (p, q) = (places[a], places[b]);
        assert(0 <= p < picks.len() && 0 <= q < picks.len());
        assert(!by_key(keys)(p, q));
        assert(keys[p] == items[picks[p]].level && keys[q] == items[picks[q]].level);
    }
}

/// What may be used of an item is what is held and banked beyond what is reserved, and nothing
/// where the reservation is larger.
pub proof fn law_reserved_materials_are_not_used(m: Means, code: Seq<char>)
    ensures
        ({
            let all = held(m.inventory, code) + bank_qty(m.bank, code);
            let kept = stock(m.reserved, code);
            &&& all <= kept ==> usable(m, code) == 0
            &&& all > kept && fits_i32(all - kept) ==> usable(m, code) == all - kept
        }),
{
}

proof fn lemma_crafts_left(b: Batch, m: Means, ings: Seq<CraftIngredient>, n: int)
    requires
        0 < n <= ings.len(),
    ensures
        forall|k: int|
            0 <= k < n ==> crafts_left(b, m, ings, n) <= quot(
                left(b, m, (#[trigger] ings[k]).code@),
                max_int(ings[k].quantity as int, 1),
            ),
        exists|k: int|
            0 <= k < n && crafts_left(b, m, ings, n) == quot(
                left(b, m, (#[trigger] ings[k]).code@),
                max_int(ings[k].quantity as int, 1),
            ),
    decreases n,
{
    if n > 1 {
        lemma_crafts_left(b, m, ings, n - 1);
        let here = quot(
            left(b, m, ings[n - 1].code@),
            max_int(ings[n - 1].quantity as int, 1),
        );
        if crafts_left(b, m, ings, n) != here {
            let k = choose|k: int|
                0 <= k < n - 1 && crafts_left(b, m, ings, n - 1) == quot(
                    left(b, m, (#[trigger] ings[k]).code@),
                    max_int(ings[k].quantity as int, 1),
                );
            assert(crafts_left(b, m, ings, n) == quot(
                left(b, m, ings[k].code@),
                max_int(ings[k].quantity as int, 1),
            ));
        } else {
            assert(here == quot(
                left(b, m, ings[n - 1].code@),
                max_int(ings[n - 1].quantity as int, 1),
            ));
        }
    } else {
        assert(crafts_left(b, m, ings, 1) == quot(
            left(b, m, ings[0].code@),
            max_int(ings[0].quantity as int, 1),
        ));
    }
}

proof fn lemma_most_that_fit(
    b: Batch,
    m: Means,
    code: Seq<char>,
    ings: Seq<CraftIngredient>,
    want: int,
)
    ensures
        ({
            let n = most_that_fit(b, m, code, ings, want);
            &&& 0 <= n
            &&& n > 0 ==> n <= want && fits(b, m, code, ings, n)
            &&& forall|q: int| n < q <= want ==> !#[trigger] fits(b, m, code, ings, q)
        }),
    decreases want,
{
    if want > 0 && !fits(b, m, code, ings, want) {
        lemma_most_that_fit(b, m, code, ings, want - 1);
    }
}

/// How many slots and items `n` crafts would come to on top of what is planned.
pub open spec fn keeps_to_the_bag(
    b: Batch,
    m: Means,
    code: Seq<char>,
    ings: Seq<CraftIngredient>,
    n: int,
) -> bool {
    let (slots, items) = extra(b, ings, n, ings.len() as int);
    let own = if b.slots.contains(code) {
        0int
    } else {
        1int
    };
    b.slots.len() + own + slots <= 20 && b.total + items <= m.max_items
}

/// A recipe is planned as often as can be: there are materials for that many crafts and they keep
/// to the bag, and for any larger number there are no materials or they would not.
pub proof fn law_recipe_is_refined_as_often_as_can_be(b: Batch, m: Means, item: Item)
    requires
        item.craft is Some,
        item.craft->0.items@.len() > 0,
        forall|k: int|
            0 <= k < item.craft->0.items@.len() ==> (#[trigger] item.craft->0.items@[k]).quantity > 0
                && left(b, m, item.craft->0.items@[k].code@) >= 0,
    ensures
        ({
            let ings = item.craft->0.items@;
            let n = crafts_planned(b, m, item);
            &&& n >= 0
            &&& forall|k: int|
                0 <= k < ings.len() ==> n * (#[trigger] ings[k]).quantity <= left(
                    b,
                    m,
                    ings[k].code@,
                )
            &&& n > 0 ==> keeps_to_the_bag(b, m, item.code@, ings, n)
            &&& forall|q: int|
                q > n ==> !#[trigger] keeps_to_the_bag(b, m, item.code@, ings, q) || exists|k: int|
                    0 <= k < ings.len() && q * (#[trigger] ings[k]).quantity > left(
                        b,
                        m,
                        ings[k].code@,
                    )
        }),
{
    let ings = item.craft->0.items@;
    let len = ings.len() as int;
    let want = crafts_left(b, m, ings, len);
    let n = crafts_planned(b, m, item);
    lemma_crafts_left(b, m, ings, len);
    lemma_most_that_fit(b, m, item.code@, ings, want);
    let low = choose|k: int|
        0 <= k < len && want == quot(
            left(b, m, (#[trigger] ings[k]).code@),
            max_int(ings[k].quantity as int, 1),
        );
    assert(ings[low].quantity > 0);
    let q0 = ings[low].quantity as int;
    let l0 = left(b, m, ings[low].code@);
    assert(want >= 0 && (want + 1) * q0 > l0) by (nonlinear_arith)
        requires
            want == l0 / q0,
            q0 > 0,
            l0 >= 0,
    ;
    assert forall|k: int| 0 <= k < len implies n * (#[trigger] ings[k]).quantity <= left(
        b,
        m,
        ings[k].code@,
    ) by {
        let q = ings[k].quantity as int;
        let l = left(b, m, ings[k].code@);
        assert(n * q <= l) by (nonlinear_arith)
            requires
                0 <= n <= l / q,
                q > 0,
                l >= 0,
        ;
    }
    assert forall|q: int| q > n implies !#[trigger] keeps_to_the_bag(b, m, item.code@, ings, q)
        || exists|k: int|
        0 <= k < ings.len() && q * (#[trigger] ings[k]).quantity > left(b, m, ings[k].code@) by {
        if q <= want {
            assert(!fits(b, m, item.code@, ings, q));
        } else {
            assert(q * q0 > l0) by (nonlinear_arith)
                requires
                    q >= want + 1,
                    (want + 1) * q0 > l0,
                    q0 > 0,
            ;
            assert(q * ings[low].quantity > left(b, m, ings[low].code@));
        }
    }
}

/// What a recipe costs in room: an ingredient of which enough is carried takes none, and otherwise
/// as many items as are missing, and a slot where it has none yet.
pub proof fn law_room_for_what_is_missing(
    b: Batch,
    ings: Seq<CraftIngredient>,
    qty: int,
    n: int,
)
    requires
        0 < n <= ings.len(),
    ensures
        extra(b, ings, qty, 0) == (0int, 0int),
        ({
            let need = ings[n - 1].quantity * qty;
            let have = stock(b.spare, ings[n - 1].code@);
            let before = extra(b, ings, qty, n - 1);
            let after = extra(b, ings, qty, n);
            &&& need <= have ==> after == before
            &&& need > have ==> after.1 == before.1 + (need - have)
            &&& need > have && b.slots.contains(ings[n - 1].code@) ==> after.0 == before.0
            &&& need > have && !b.slots.contains(ings[n - 1].code@) ==> after.0 == before.0 + 1
        }),
{
}

/// Every reservation of an ingredient that a recipe takes is noted with the batch.
pub proof fn law_reservations_in_the_way_are_noted(
    relevant: Map<Seq<char>, i32>,
    m: Means,
    ings: Seq<CraftIngredient>,
    n: int,
    c: Seq<char>,
)
    requires
        0 <= n <= ings.len(),
    ensures
        ({
            let after = noted(relevant, m, ings, n);
            let taken = exists|i: int| 0 <= i < n && (#[trigger] ings[i]).code@ == c;
            &&& taken && stock(m.reserved, c) > 0 ==> stock(after, c) == stock(m.reserved, c)
            &&& !taken || stock(m.reserved, c) <= 0 ==> (after.contains_key(c)
                <==> relevant.contains_key(c)) && stock(after, c) == stock(relevant, c)
        }),
    decreases n,
{
    if n > 0 {
        law_reservations_in_the_way_are_noted(relevant, m, ings, n - 1, c);
        if ings[n - 1].code@ == c {
            assert(ings[n - 1].code@ == c);
        }
        if exists|i: int| 0 <= i < n - 1 && (#[trigger] ings[i]).code@ == c {
            let i = choose|i: int| 0 <= i < n - 1 && (#[trigger] ings[i]).code@ == c;
            assert(ings[i].code@ == c);
        }
    }
}

/// The quantities of the first `n` slots that hold an item, added up.
pub open spec fn held_sum(inventory: Seq<InventorySlot>, c: Seq<char>, n: int) -> int
    decreases n,
{
    if n <= 0 {
        0
    } else {
        held_sum(inventory, c, n - 1) + if inventory[n - 1].code@ == c {
            inventory[n - 1].quantity as int
        } else {
            0
        }
    }
}

/// What is held of an item is what all slots with its code hold together.
pub proof fn law_held_is_the_sum_of_its_slots(inventory: Seq<InventorySlot>, c: Seq<char>, n: int)
    requires
        0 <= n <= inventory.len(),
        forall|k: int| 0 <= k <= n ==> fits_i32(#[trigger] held_sum(inventory, c, k)),
    ensures
        held(inventory.take(n), c) == held_sum(inventory, c, n),
    decreases n,
{
    if n > 0 {
        law_held_is_the_sum_of_its_slots(inventory, c, n - 1);
        assert(inventory.take(n).drop_last() =~= inventory.take(n - 1));
        assert(fits_i32(held_sum(inventory, c, n)));
    }
}

/// The bank's quantity of an item is that of its first stack, and nothing where it has none.
pub proof fn law_bank_quantity_is_that_of_the_stack(bank: Seq<BankItem>, c: Seq<char>)
    ensures
        (forall|i: int| 0 <= i < bank.len() ==> (#[trigger] bank[i]).code@ != c) ==> bank_qty(bank, c)
            == 0,
        forall|i: int|
            0 <= i < bank.len() && (#[trigger] bank[i]).code@ == c && (forall|j: int|
                0 <= j < i ==> (#[trigger] bank[j]).code@ != c) ==> bank_qty(bank, c)
                == bank[i].quantity,
    decreases bank.len(),
{
    if bank.len() > 0 && bank[0].code@ != c {
        let rest = bank.drop_first();
        law_bank_quantity_is_that_of_the_stack(rest, c);
        if forall|i: int| 0 <= i < bank.len() ==> (#[trigger] bank[i]).code@ != c {
            assert forall|i: int| 0 <= i < rest.len() implies (#[trigger] rest[i]).code@ != c by {
                assert(rest[i] == bank[i + 1]);
            }
        }
        assert forall|i: int|
            0 <= i < bank.len() && (#[trigger] bank[i]).code@ == c && (forall|j: int|
                0 <= j < i ==> (#[trigger] bank[j]).code@ != c) implies bank_qty(bank, c)
            == bank[i].quantity by {
            assert(rest[i - 1] == bank[i]);
            assert forall|j: int| 0 <= j < i - 1 implies (#[trigger] rest[j]).code@ != c by {
                assert(rest[j] == bank[j + 1]);
            }
        }
    }
}

} // verus!
