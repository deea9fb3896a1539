//! What holds of how items are had: free stock first, then whichever of buying and crafting costs
//! less.

use vstd::prelude::*;

use super::acquisition::{acquire, acquire_all, by_buying, by_crafting, can_follow, crafts_for};
use super::grand_exchange::{
    batch_capacity, batch_size, buy_steps, first_tier, flat_crafts, flat_units, round_buys, Pick,
    UpgradeView, Wishing,
};
use super::market::{claimed, drawn, stock, LedgerView};
use super::purchase_laws::{available, law_claim_takes_what_there_is, ledger_sound};
use super::upgrade_steps::StepView;
use crate::arith::{fits_i32, max_int};
use crate::optimize::skills::level_in;
use crate::types::{recipe_of, Character, CraftInfo, CraftIngredient, Item};

verus! {

/// What the bank has is used before anything is paid for: as much of it as is asked for, and of
/// nothing else.
pub proof fn law_bank_is_drawn_on_first(l: LedgerView, code: Seq<char>, qty: int)
    requires
        stock(l.bank, code) >= 0,
        qty >= 0,
    ensures
        ({
            let (rest, d) = drawn(l, code, qty);
            let had = stock(l.bank, code);
            &&& had >= qty ==> rest == 0 && stock(d.bank, code) == had - qty
            &&& had < qty ==> rest == qty - had && stock(d.bank, code) == 0
            &&& forall|c: Seq<char>|
                c != code ==> #[trigger] stock(d.bank, c) == stock(l.bank, c)
            &&& d.books == l.books
        }),
{
}

/// What is bought costs nothing where the bank has it all. Else it can be bought exactly where the
/// sell orders hold the rest, and costs what those units cost.
pub proof fn law_buying_pays_for_the_rest(l: LedgerView, code: Seq<char>, qty: int)
    requires
        ledger_sound(l),
        stock(l.bank, code) >= 0,
        0 <= qty <= i32::MAX,
    ensures
        ({
            let had = stock(l.bank, code);
            let rest = qty - had;
            &&& had >= qty ==> by_buying(code, qty, l) is Some && by_buying(code, qty, l)->Some_0.0
                == 0
            &&& had < qty && !l.books.contains_key(code) ==> by_buying(code, qty, l) is None
            &&& had < qty && l.books.contains_key(code) ==> {
                let tiers = l.books[code].tiers;
                &&& available(tiers, tiers.len() as int) < rest ==> by_buying(code, qty, l) is None
                &&& by_buying(code, qty, l) matches Some((cost, _)) ==> cost == claimed(
                    tiers,
                    rest,
                ).1
            }
        }),
{
    let (rest, d) = drawn(l, code, qty);
    if l.books.contains_key(code) && rest > 0 {
        law_claim_takes_what_there_is(l.books[code].tiers, rest);
    }
}

/// A recipe can be followed where it names a skill and the character's level in that skill is at
/// least the one it asks for.
pub proof fn law_recipe_asks_for_its_own_skill(who: Character, craft: CraftInfo)
    ensures
        craft.skill is None ==> !can_follow(who, craft),
        craft.skill is Some && craft.level is None ==> can_follow(who, craft),
        craft.skill is Some && craft.level is Some ==> (can_follow(who, craft) <==> level_in(
            who,
            craft.skill->0@,
        ) >= craft.level->0),
{
}

/// As many crafts are made as it takes to have the quantity, and no more: one fewer would not do.
pub proof fn law_crafts_cover_the_quantity(craft: CraftInfo, qty: int)
    requires
        qty > 0,
    ensures
        ({
            let per = if craft.quantity >= 1 {
                craft.quantity as int
            } else {
                1
            };
            let n = crafts_for(craft, qty);
            &&& n * per >= qty
            &&& (n - 1) * per < qty
        }),
{
    let per = max_int(craft.quantity as int, 1);
    let n = (qty + per - 1) / per;
    assert(n * per >= qty && (n - 1) * per < qty) by (nonlinear_arith)
        requires
            n == (qty + per - 1) / per,
            per >= 1,
            qty > 0,
    ;
}

/// Nothing asked for costs nothing. Otherwise an item is had by buying or by crafting, whichever
/// costs less, by buying where they cost the same; and it cannot be had only where neither will do.
pub proof fn law_cheaper_way_is_taken(
    depth: nat,
    code: Seq<char>,
    qty: int,
    items: Seq<Item>,
    who: Character,
    l: LedgerView,
)
    ensures
        qty <= 0 ==> acquire(depth, code, qty, items, who, l) == Some((0int, l)),
        qty > 0 ==> {
            let way = acquire(depth, code, qty, items, who, l);
            let bought = by_buying(code, qty, l);
            let made = by_crafting(depth, code, qty, items, who, l);
            &&& bought is None && made is None ==> way is None
            &&& bought is Some && made is None ==> way == bought
            &&& bought is None && made is Some ==> way == made
            &&& bought is Some && made is Some ==> {
                &&& bought->Some_0.0 <= made->Some_0.0 ==> way == bought
                &&& made->Some_0.0 < bought->Some_0.0 ==> way == made
            }
        },
{
}

/// Crafting takes what the bank has for nothing, and for the rest the ingredients of as many crafts
/// as it takes, had in the same way. Without a recipe that the character can follow, or no further
/// down, the rest cannot be made.
pub proof fn law_crafting_takes_the_ingredients(
    depth: nat,
    code: Seq<char>,
    qty: int,
    items: Seq<Item>,
    who: Character,
    l: LedgerView,
)
    requires
        stock(l.bank, code) >= 0,
        0 < qty <= i32::MAX,
    ensures
        ({
            let had = stock(l.bank, code);
            let rest = qty - had;
            let way = by_crafting(depth, code, qty, items, who, l);
            let d = drawn(l, code, qty).1;
            &&& had >= qty ==> way == Some((0int, d))
            &&& had < qty && depth == 0 ==> way is None
            &&& had < qty && recipe_of(items, code) is None ==> way is None
            &&& had < qty && depth > 0 ==> (recipe_of(items, code) matches Some(craft) ==> {
                &&& !can_follow(who, craft) ==> way is None
                &&& can_follow(who, craft) ==> way == acquire_all(
                    (depth - 1) as nat,
                    craft.items@,
                    crafts_for(craft, rest),
                    items,
                    who,
                    d,
                )
            })
        }),
{
}

/// The ingredients of several crafts are had one after the other, each as many times as there are
/// crafts, from what the ones before it leave; their costs add up, and all of them have to be had.
pub proof fn law_ingredients_are_had_one_after_the_other(
    depth: nat,
    ings: Seq<CraftIngredient>,
    more: CraftIngredient,
    times: int,
    items: Seq<Item>,
    who: Character,
    l: LedgerView,
)
    ensures
        acquire_all(depth, Seq::empty(), times, items, who, l) == Some((0int, l)),
        ({
            let first = acquire_all(depth, ings, times, items, who, l);
            let all = acquire_all(depth, ings.push(more), times, items, who, l);
            &&& first is None ==> all is None
            &&& first matches Some((cost, left)) ==> {
                let last = acquire(depth, more.code@, more.quantity * times, items, who, left);
                &&& last is None ==> all is None
                &&& last matches Some((price, end)) ==> (all matches Some((total, after)) ==> total
                    == cost + price && after == end)
                &&& last is Some && fits_i32(more.quantity * times) && fits_i32(
                    cost + last->Some_0.0,
                ) ==> all is Some
            }
        }),
{
    assert(ings.push(more).drop_last() =~= ings);
}

/// An upgrade is bought exactly where its slot has not been bought for, it can be had, and what is
/// left of the gold covers its cheapest cost. Then the gold goes down by that cost, and the ledger
/// is the one that having it leaves; otherwise nothing changes.
pub proof fn law_upgrade_is_bought_where_it_can_be_paid(
    ledger: LedgerView,
    budget: int,
    steps: Seq<StepView>,
    i: int,
    items: Seq<Item>,
    who: Character,
)
    requires
        0 <= i < steps.len(),
    ensures
        ({
            let b = buy_steps(ledger, budget, steps, i, items, who);
            let after = buy_steps(ledger, budget, steps, i + 1, items, who);
            let step = steps[i];
            let taken = exists|j: int|
                0 <= j < b.bought.len() && (#[trigger] b.bought[j]).step.who == step.who
                    && b.bought[j].step.slot == step.slot;
            let way = acquire(items.len(), step.code, 1, items, who, b.ledger);
            if !taken && way is Some && way->Some_0.0 <= b.budget && fits_i32(
                b.budget - way->Some_0.0,
            ) {
                &&& after.bought == b.bought.push(UpgradeView { step, cost: way->Some_0.0 })
                &&& after.budget == b.budget - way->Some_0.0
                &&& after.ledger == way->Some_0.1
            } else {
                after == b
            }
        }),
{
}

proof fn lemma_first_tier(tiers: Seq<(i32, i32)>, from: int)
    requires
        0 <= from,
    ensures
        (forall|i: int| from <= i < tiers.len() ==> (#[trigger] tiers[i]).1 <= 0) ==> first_tier(
            tiers,
            from,
        ) == 0,
        forall|i: int|
            from <= i < tiers.len() && (#[trigger] tiers[i]).1 > 0 && (forall|j: int|
                from <= j < i ==> (#[trigger] tiers[j]).1 <= 0) ==> first_tier(tiers, from)
                == tiers[i].1,
        first_tier(tiers, from) >= 0,
    decreases tiers.len() - from,
{
    if from < tiers.len() && tiers[from].1 <= 0 {
        lemma_first_tier(tiers, from + 1);
    }
}

/// What there is of an ingredient at one price is all of the bank's free stock where there is any,
/// and else the cheapest tier that has anything left; nothing where nobody sells it.
pub proof fn law_one_price_is_free_stock_or_the_cheapest_tier(l: LedgerView, code: Seq<char>)
    ensures
        stock(l.bank, code) > 0 ==> flat_units(l, code) == stock(l.bank, code),
        stock(l.bank, code) <= 0 && !l.books.contains_key(code) ==> flat_units(l, code) == 0,
        stock(l.bank, code) <= 0 && l.books.contains_key(code) ==> {
            let tiers = l.books[code].tiers;
            &&& (forall|i: int| 0 <= i < tiers.len() ==> (#[trigger] tiers[i]).1 <= 0)
                ==> flat_units(l, code) == 0
            &&& forall|i: int|
                0 <= i < tiers.len() && (#[trigger] tiers[i]).1 > 0 && (forall|j: int|
                    0 <= j < i ==> (#[trigger] tiers[j]).1 <= 0) ==> flat_units(l, code)
                    == tiers[i].1
        },
{
    if l.books.contains_key(code) {
        lemma_first_tier(l.books[code].tiers, 0);
    }
}

proof fn lemma_flat_crafts(l: LedgerView, ings: Seq<CraftIngredient>, n: int)
    requires
        0 <= n <= ings.len(),
    ensures
        match flat_crafts(l, ings, n) {
            Some(m) => {
                &&& forall|i: int|
                    0 <= i < n && (#[trigger] ings[i]).quantity > 0 ==> m <= flat_units(
                        l,
                        ings[i].code@,
                    ) / ings[i].quantity as int
                &&& exists|i: int|
                    0 <= i < n && (#[trigger] ings[i]).quantity > 0 && m == flat_units(
                        l,
                        ings[i].code@,
                    ) / ings[i].quantity as int
            },
            None => forall|i: int| 0 <= i < n ==> (#[trigger] ings[i]).quantity <= 0,
        },
    decreases n,
{
    if n > 0 {
        lemma_flat_crafts(l, ings, n - 1);
        if ings[n - 1].quantity > 0 {
            let here = flat_units(l, ings[n - 1].code@) / ings[n - 1].quantity as int;
            if flat_crafts(l, ings, n) == Some(here) {
                assert(ings[n - 1].quantity > 0);
            } else {
                let m = flat_crafts(l, ings, n - 1)->0;
                let i = choose|i: int|
                    0 <= i < n - 1 && (#[trigger] ings[i]).quantity > 0 && m == flat_units(
                        l,
                        ings[i].code@,
                    ) / ings[i].quantity as int;
                assert(ings[i].quantity > 0);
            }
        } else if let Some(m) = flat_crafts(l, ings, n - 1) {
            let i = choose|i: int|
                0 <= i < n - 1 && (#[trigger] ings[i]).quantity > 0 && m == flat_units(
                    l,
                    ings[i].code@,
                ) / ings[i].quantity as int;
            assert(ings[i].quantity > 0);
        }
    }
}

/// A batch at the current price is as large as the price holds: there is enough of every ingredient
/// at one price for all of it, and not for one craft more. It is never less than one craft, and one
/// craft where nothing is used up.
pub proof fn law_batch_is_all_at_this_price(l: LedgerView, craft: CraftInfo)
    ensures
        ({
            let ings = craft.items@;
            let n = batch_capacity(l, craft);
            &&& n >= 1
            &&& n > 1 ==> forall|i: int|
                0 <= i < ings.len() && (#[trigger] ings[i]).quantity > 0 ==> n * ings[i].quantity
                    <= flat_units(l, ings[i].code@)
            &&& (forall|i: int| 0 <= i < ings.len() ==> (#[trigger] ings[i]).quantity <= 0) ==> n
                == 1
            &&& (exists|i: int| 0 <= i < ings.len() && (#[trigger] ings[i]).quantity > 0)
                ==> exists|i: int|
                0 <= i < ings.len() && (#[trigger] ings[i]).quantity > 0 && (n + 1)
                    * ings[i].quantity > flat_units(l, ings[i].code@)
        }),
{
    let ings = craft.items@;
    let len = ings.len() as int;
    let n = batch_capacity(l, craft);
    lemma_flat_crafts(l, ings, len);
    if n > 1 {
        assert forall|i: int| 0 <= i < ings.len() && (#[trigger] ings[i]).quantity > 0 implies n
            * ings[i].quantity <= flat_units(l, ings[i].code@) by {
            let q = ings[i].quantity as int;
            let u = flat_units(l, ings[i].code@);
            assert(n * q <= u) by (nonlinear_arith)
                requires
                    n <= u / q,
                    q > 0,
            ;
        }
    }
    if exists|i: int| 0 <= i < ings.len() && (#[trigger] ings[i]).quantity > 0 {
        let m = flat_crafts(l, ings, len)->0;
        let i = choose|i: int|
            0 <= i < len && (#[trigger] ings[i]).quantity > 0 && m == flat_units(l, ings[i].code@)
                / ings[i].quantity as int;
        let q = ings[i].quantity as int;
        let u = flat_units(l, ings[i].code@);
        assert((n + 1) * q > u) by (nonlinear_arith)
            requires
                n >= u / q,
                q > 0,
        ;
        assert(ings[i].quantity > 0);
    }
}

/// A round aims at as many crafts as three bounds allow together: what there is at one price, what
/// the gold pays for at that price, and what closes the gap. It buys for all of them where the gold
/// covers what they really cost, and otherwise for one.
pub proof fn law_round_buys_as_many_as_it_can(
    w: Wishing,
    p: Pick,
    items: Seq<Item>,
    who: Character,
)
    requires
        w.budget > 0,
        p.xp > 0,
        0 < w.gaps[p.skill] <= i32::MAX,
        items[p.item].craft is Some,
    ensures
        ({
            let craft = items[p.item].craft->0;
            let unit = if p.cost > 1 {
                p.cost
            } else {
                1
            };
            let n = batch_size(w, p, items);
            let fits = |m: int|
                m <= batch_capacity(w.ledger, craft) && m * unit <= w.budget && (m - 1) * p.xp
                    < w.gaps[p.skill];
            let all = acquire_all(0, craft.items@, n, items, who, w.ledger);
            &&& n >= 1
            &&& n > 1 ==> fits(n)
            &&& !fits(n + 1)
            &&& (all matches Some((cost, _)) && cost <= w.budget && fits_i32(w.budget - cost))
                ==> round_buys(w, p, items, who) == (n, all->Some_0.0, all->Some_0.1)
            &&& !(all matches Some((cost, _)) && cost <= w.budget && fits_i32(w.budget - cost))
                ==> round_buys(w, p, items, who).0 == 1
        }),
{
    let craft = items[p.item].craft->0;
    let unit = max_int(p.cost, 1);
    let gap = w.gaps[p.skill];
    let n = batch_size(w, p, items);
    law_batch_is_all_at_this_price(w.ledger, craft);
    let gold = w.budget / unit;
    let need = (gap + p.xp - 1) / p.xp;
    let x = p.xp;
    let budget = w.budget;
    assert(gold * unit <= budget && (gold + 1) * unit > budget && gold >= 0) by (nonlinear_arith)
        requires
            gold == budget / unit,
            unit >= 1,
            budget > 0,
    ;
    assert(1 <= need <= gap && need * x >= gap && (need - 1) * x < gap) by (nonlinear_arith)
        requires
            need == (gap + x - 1) / x,
            x >= 1,
            gap >= 1,
    ;
    if n > 1 {
        assert(n * unit <= budget) by (nonlinear_arith)
            requires
                n <= gold,
                gold * unit <= budget,
                unit >= 1,
        ;
        assert((n - 1) * x < gap) by (nonlinear_arith)
            requires
                n <= need,
                (need - 1) * x < gap,
                x >= 1,
        ;
    }
    let m = n + 1;
    if m <= batch_capacity(w.ledger, craft) && m * unit <= budget && (m - 1) * x < gap {
        assert(m <= gold) by (nonlinear_arith)
            requires
                m * unit <= budget,
                (gold + 1) * unit > budget,
                unit >= 1,
        ;
        assert(m <= need) by (nonlinear_arith)
            requires
                (m - 1) * x < gap,
                need * x >= gap,
                x >= 1,
        ;
    }
}

} // verus!
