//! What holds of plans as a whole: what comes before what, what they are made from, and where they
//! lead.

use vstd::prelude::*;

use super::crafting_exec::{loaded, needed, new_slots, Trip};
use super::crafting_plan::{allocate, fillers, wishlist};
use super::grand_exchange::{buy_steps, upgrades_bought, wishes_bought, Wishing};
use super::grand_exchange::{starting_gaps, wish_rounds};
use super::market::{open_offers, purchases_of, stock, BookView, LedgerView};
use super::movement::{distance, stands_at};
use super::supply::{is_plain_recipe, merged};
use super::upgrade_steps::upgrade_order;
use super::wishlist_plan::{
    all_banked, considered, idle_crafts, sure_crafts, upgrades_first, wishes_then,
};
use crate::arith::sat_i32;
use crate::flags::StateView;
use crate::formulas::recycling::return_shares;
use crate::optimize::brute_force::{candidate_ranking, open_slots, SlotCandidates};
use crate::optimize::loadout_laws::lemma_contains_pushed;
use crate::optimize::loadout_search::{rerated, slot_ratings, trial_scores, view_place};
use crate::optimize::slot_rating::worn_item;
use crate::optimize::targeting::Location;
use crate::types::{
    is_first_item, item_index, item_named, recipe_of, Character, CraftIngredient, GEOrder, Item,
};

verus! {

/// A code stands for the first item that has it, and for none where no item has it.
pub proof fn law_code_stands_for_the_first_item(items: Seq<Item>, code: Seq<char>, i: int)
    requires
        0 <= i < items.len(),
        items[i].code@ == code,
        forall|j: int| 0 <= j < i ==> (#[trigger] items[j]).code@ != code,
    ensures
        item_index(items, code) == Some(i),
        item_named(items, code) == Some(items[i]),
        recipe_of(items, code) == items[i].craft,
        code.len() > 0 ==> worn_item(items, code) == Some(items[i]),
        worn_item(items, Seq::empty()) is None,
{
    assert(is_first_item(items, code, i));
    let k = choose|k: int| is_first_item(items, code, k);
    if k < i {
        assert(items[k].code@ == code);
    } else if i < k {
        assert(items[i].code@ != code);
    }
}

/// A code that no item has stands for nothing.
pub proof fn law_unknown_code_stands_for_nothing(items: Seq<Item>, code: Seq<char>)
    requires
        forall|j: int| 0 <= j < items.len() ==> (#[trigger] items[j]).code@ != code,
    ensures
        item_named(items, code) is None,
        recipe_of(items, code) is None,
        worn_item(items, code) is None,
{
    if exists|k: int| is_first_item(items, code, k) {
        let k = choose|k: int| is_first_item(items, code, k);
        assert(items[k].code@ != code);
    }
}

/// The distance between two places is the steps along one axis and those along the other: going on
/// from one place to a next never takes fewer than going there directly, and back as many as there.
pub proof fn law_distance_counts_steps(x: int, y: int, a: int, b: int)
    ensures
        distance(x, y, x, y) == 0,
        distance(x, y, a, b) == distance(a, b, x, y),
        a >= x && b >= y ==> distance(x, y, a, b) == (a - x) + (b - y),
        a <= x && b >= y ==> distance(x, y, a, b) == (x - a) + (b - y),
        a >= x && b <= y ==> distance(x, y, a, b) == (a - x) + (y - b),
        a <= x && b <= y ==> distance(x, y, a, b) == (x - a) + (y - b),
{
}

/// A character is at one of several places where it has the layer and both coordinates of one.
pub proof fn law_at_a_place_in_layer_and_coordinates(who: Character, locs: Seq<Location>)
    ensures
        stands_at(who, locs, locs.len() as int) <==> exists|i: int|
            0 <= i < locs.len() && (#[trigger] locs[i]).0@ == who.layer@ && locs[i].1 == who.x
                && locs[i].2 == who.y,
{
}

proof fn lemma_open_offers(orders: Seq<GEOrder>, n: int, price: i32, quantity: i32)
    requires
        0 <= n <= orders.len(),
    ensures
        open_offers(orders, n).contains((price, quantity)) <==> exists|i: int|
            0 <= i < n && (#[trigger] orders[i]).price == price && orders[i].quantity == quantity
                && quantity > 0,
    decreases n,
{
    let all = open_offers(orders, n);
    let offer = (price, quantity);
    if n > 0 {
        lemma_open_offers(orders, n - 1, price, quantity);
        let before = open_offers(orders, n - 1);
        if before.contains(offer) {
            let k = before.index_of(offer);
            assert(all[k] == offer);
            let i = choose|i: int|
                0 <= i < n - 1 && (#[trigger] orders[i]).price == price && orders[i].quantity
                    == quantity && quantity > 0;
            assert(orders[i].price == price);
        }
        if orders[n - 1].price == price && orders[n - 1].quantity == quantity && quantity > 0 {
            assert(all[before.len() as int] == offer);
        }
        if all.contains(offer) && !before.contains(offer) {
            let k = all.index_of(offer);
            assert(k == before.len());
            assert(orders[n - 1].price == price);
        }
    }
}

/// A book offers exactly the sell orders that have anything left, each at its own price.
pub proof fn law_every_open_order_is_offered(orders: Seq<GEOrder>, price: i32, quantity: i32)
    ensures
        open_offers(orders, orders.len() as int).contains((price, quantity)) <==> exists|i: int|
            0 <= i < orders.len() && (#[trigger] orders[i]).price == price && orders[i].quantity
                == quantity && quantity > 0,
{
    lemma_open_offers(orders, orders.len() as int, price, quantity);
}

proof fn lemma_purchases(
    books: Map<Seq<char>, BookView>,
    codes: Seq<Seq<char>>,
    n: int,
    p: (Seq<char>, int, int),
)
    requires
        0 <= n <= codes.len(),
    ensures
        purchases_of(books, codes, n).contains(p) <==> exists|i: int|
            0 <= i < n && #[trigger] codes[i] == p.0 && books[p.0].claimed_qty == p.1
                && books[p.0].claimed_cost == p.2 && p.1 > 0,
    decreases n,
{
    let all = purchases_of(books, codes, n);
    if n > 0 {
        lemma_purchases(books, codes, n - 1, p);
        let before = purchases_of(books, codes, n - 1);
        if before.contains(p) {
            let k = before.index_of(p);
            assert(all[k] == p);
            let i = choose|i: int|
                0 <= i < n - 1 && #[trigger] codes[i] == p.0 && books[p.0].claimed_qty == p.1
                    && books[p.0].claimed_cost == p.2 && p.1 > 0;
            assert(codes[i] == p.0);
        }
        if codes[n - 1] == p.0 && books[p.0].claimed_qty == p.1 && books[p.0].claimed_cost == p.2
            && p.1 > 0 {
            assert(all[before.len() as int] == p);
        }
        if all.contains(p) && !before.contains(p) {
            let k = all.index_of(p);
            assert(k == before.len());
            assert(codes[n - 1] == p.0);
        }
    }
}

/// A plan lists everything claimed from the exchange, with how much of it and for how much gold,
/// and nothing that has not been claimed.
pub proof fn law_plan_lists_all_that_is_claimed(
    books: Map<Seq<char>, BookView>,
    codes: Seq<Seq<char>>,
    p: (Seq<char>, int, int),
)
    ensures
        purchases_of(books, codes, codes.len() as int).contains(p) <==> exists|i: int|
            0 <= i < codes.len() && #[trigger] codes[i] == p.0 && books[p.0].claimed_qty == p.1
                && books[p.0].claimed_cost == p.2 && p.1 > 0,
{
    lemma_purchases(books, codes, codes.len() as int, p);
}

/// Gold goes to upgrades first, whether they can be crafted or not, and to the wishlist only what
/// they leave, both of the gold and of the stock.
pub proof fn law_upgrades_are_paid_for_first(
    s: StateView,
    xp: Seq<i32>,
    who: Character,
    ledger: LedgerView,
    gold: int,
)
    ensures
        ({
            let steps = upgrade_order(s, false);
            let b = upgrades_bought(s, who, ledger, gold);
            let w = wishes_bought(s, xp, who, b);
            &&& b == buy_steps(ledger, gold, steps, steps.len() as int, s.data.items@, who)
            &&& w == wish_rounds(
                Wishing {
                    ledger: b.ledger,
                    budget: b.budget,
                    gaps: starting_gaps(who),
                    bought: Seq::empty(),
                },
                5000,
                s.data.items@,
                xp,
                who,
            )
        }),
{
}

/// Materials go to upgrades that can be crafted first, and to the wishlist only what they leave.
/// What is sure to be made lists the upgrades before the wishes.
pub proof fn law_upgrades_claim_materials_first(
    s: StateView,
    who: Character,
    xp: Seq<i32>,
    g: spec_fn(int, int, int) -> Option<i32>,
    h: spec_fn(int, int, int) -> i32,
)
    ensures
        ({
            let steps = upgrade_order(s, true);
            let a = allocate(
                all_banked(s),
                steps,
                steps.len() as int,
                s.data.items@,
                who,
            );
            let w = wishes_then(s, who, xp, all_banked(s), g, h);
            let sure = sure_crafts(s, who, xp, g, h);
            let u = a.planned.len() as int;
            &&& upgrades_first(s, who, all_banked(s)) == a
            &&& sure.len() == u + w.planned.len()
            &&& forall|i: int| 0 <= i < u ==> #[trigger] sure[i] == a.planned[i]
            &&& forall|i: int| u <= i < sure.len() ==> #[trigger] sure[i] == w.planned[i - u]
        }),
{
}

/// Filler keeps clear of everything that was considered for an upgrade or wished for.
pub proof fn law_filler_keeps_clear_of_what_is_wanted(
    s: StateView,
    who: Character,
    xp: Seq<i32>,
    supply: Map<Seq<char>, i32>,
    c: Seq<char>,
)
    ensures
        ({
            let wishes = wishlist(who, s.data.items@, xp, 4);
            considered(s, who, xp, supply).contains(c) <==> upgrades_first(
                s,
                who,
                supply,
            ).codes.contains(c) || exists|i: int|
                0 <= i < wishes.len() && (#[trigger] wishes[i]).code == c
        }),
        idle_crafts(s, who, xp) == fillers(
            who,
            s.data.items@,
            xp,
            considered(s, who, xp, all_banked(s)),
            3,
        ),
{
}

/// What two plans wait for is reserved for both: of everything as much as both reserve together.
pub proof fn law_reservations_add_up(
    a: Map<Seq<char>, i32>,
    b: Map<Seq<char>, i32>,
    c: Seq<char>,
)
    ensures
        stock(merged(a, b), c) == sat_i32(stock(a, c) + stock(b, c)),
        merged(a, b).contains_key(c) <==> a.contains_key(c) || b.contains_key(c),
{
}

/// The room of a trip: each ingredient that has no slot yet takes one, and of every ingredient that
/// many items as all crafts take of it.
pub proof fn law_trip_room_is_counted_by_ingredient(
    t: Trip,
    ings: Seq<CraftIngredient>,
    qty: int,
    n: int,
)
    requires
        0 < n <= ings.len(),
    ensures
        new_slots(t, ings, 0) == 0,
        needed(ings, qty, 0) == 0,
        t.slots.contains(ings[n - 1].code@) ==> new_slots(t, ings, n) == new_slots(t, ings, n - 1),
        !t.slots.contains(ings[n - 1].code@) ==> new_slots(t, ings, n) == new_slots(t, ings, n - 1)
            + 1,
        needed(ings, qty, n) == needed(ings, qty, n - 1) + qty * ings[n - 1].quantity,
{
    let q = ings[n - 1].quantity as int;
    assert(q * qty == qty * q) by (nonlinear_arith);
}

/// Filler that is loaded draws the bank down by what it takes; upgrades and wishes, which have been
/// given their materials, do not.
pub proof fn law_loaded_filler_draws_on_the_bank(
    t: Trip,
    ings: Seq<CraftIngredient>,
    qty: int,
    n: int,
    c: Seq<char>,
)
    requires
        0 <= n <= ings.len(),
        is_plain_recipe(ings),
    ensures
        loaded(t, ings, qty, false, n).bank == t.bank,
        forall|k: int|
            0 <= k < n && (#[trigger] ings[k]).code@ == c ==> stock(
                loaded(t, ings, qty, true, n).bank,
                c,
            ) == sat_i32(stock(t.bank, c) - ings[k].quantity * qty),
        (forall|k: int| 0 <= k < n ==> (#[trigger] ings[k]).code@ != c) ==> stock(
            loaded(t, ings, qty, true, n).bank,
            c,
        ) == stock(t.bank, c),
    decreases n,
{
    if n > 0 {
        law_loaded_filler_draws_on_the_bank(t, ings, qty, n - 1, c);
        if ings[n - 1].code@ == c {
            assert forall|k: int| 0 <= k < n - 1 implies (#[trigger] ings[k]).code@ != c by {
                assert(ings[n - 1].code@ == c);
            }
        }
    }
}

/// What recycling returns is spread over the ingredients by their share of the recipe: each gets
/// back its quantity's part of the whole. The last mention of an ingredient counts.
pub proof fn law_returns_are_spread_by_share(
    ings: Seq<CraftIngredient>,
    returned: int,
    total: int,
    k: int,
)
    requires
        0 <= k < ings.len(),
        0 <= returned <= i32::MAX,
        1 <= total <= i32::MAX,
        forall|j: int| k < j < ings.len() ==> (#[trigger] ings[j]).code@ != ings[k].code@,
    ensures
        return_shares(ings, returned, total).contains_key(ings[k].code@),
        return_shares(ings, returned, total)[ings[k].code@].0 == returned * ings[k].quantity,
        return_shares(ings, returned, total)[ings[k].code@].1 == total,
    decreases ings.len(),
{
    let q = ings[k].quantity;
    assert(i64::MIN <= returned * q <= i64::MAX) by (nonlinear_arith)
        requires
            0 <= returned <= i32::MAX,
            i32::MIN <= q <= i32::MAX,
    ;
    if k < ings.len() - 1 {
        let front = ings.drop_last();
        assert forall|j: int| k < j < front.len() implies (#[trigger] front[j]).code@
            != front[k].code@ by {
            assert(ings[j].code@ != ings[k].code@);
        }
        law_returns_are_spread_by_share(front, returned, total, k);
        assert(ings.last().code@ != ings[k].code@);
    }
}

proof fn lemma_open_slots(settled: Seq<bool>, n: int)
    requires
        0 <= n <= settled.len(),
    ensures
        forall|i: int| #[trigger]
            open_slots(settled, n).contains(i) <==> 0 <= i < n && !settled[i],
    decreases n,
{
    let all = open_slots(settled, n);
    if n > 0 {
        lemma_open_slots(settled, n - 1);
        let before = open_slots(settled, n - 1);
        assert forall|i: int| #[trigger] all.contains(i) <==> 0 <= i < n && !settled[i] by {
            lemma_contains_pushed(before, n - 1, i);
        }
    }
}

/// A search covers every slot that is not settled, and no other.
pub proof fn law_every_open_slot_is_searched(settled: Seq<bool>)
    requires
        settled.len() == 13,
    ensures
        forall|i: int| #[trigger]
            open_slots(settled, 13).contains(i) <==> 0 <= i < 13 && !settled[i],
{
    lemma_open_slots(settled, 13);
}

/// A candidate is scored in the loadout as it stands but for its own slot, and rated against that
/// same loadout with the slot empty.
pub proof fn law_candidates_are_tried_in_the_loadout(
    f: spec_fn(Seq<usize>) -> i64,
    g: spec_fn(Seq<usize>, Seq<usize>) -> i64,
    chosen: Seq<usize>,
    slot: int,
    n: int,
    c: int,
)
    requires
        0 <= slot < chosen.len(),
        0 <= c < n <= usize::MAX,
    ensures
        trial_scores(f, chosen, slot, n).len() == n,
        trial_scores(f, chosen, slot, n)[c] == f(chosen.update(slot, c as usize)),
        slot_ratings(g, chosen, slot, n).len() == n,
        slot_ratings(g, chosen, slot, n)[c] == g(
            chosen.update(slot, c as usize),
            chosen.update(slot, 0),
        ),
{
}

proof fn lemma_view_place_found(
    ratings: Seq<(Seq<char>, Seq<char>, Seq<(Seq<char>, i64)>)>,
    slot: Seq<char>,
    from: int,
    i: int,
)
    requires
        0 <= from <= i < ratings.len(),
        ratings[i].0 == slot,
        forall|j: int| from <= j < i ==> (#[trigger] ratings[j]).0 != slot,
    ensures
        view_place(ratings, slot, from) == Some(i),
    decreases i - from,
{
    if from < i {
        assert(ratings[from].0 != slot);
        lemma_view_place_found(ratings, slot, from + 1, i);
    }
}

/// The search gives a slot that it covers the ranking of its candidates for their part in the
/// loadout, and leaves its name, its category and every other slot alone.
pub proof fn law_searched_slot_gets_its_new_ranking(
    ratings: Seq<(Seq<char>, Seq<char>, Seq<(Seq<char>, i64)>)>,
    slots: Seq<SlotCandidates>,
    chosen: Seq<usize>,
    g: spec_fn(Seq<usize>, Seq<usize>) -> i64,
    n: int,
    i: int,
)
    requires
        0 < n <= slots.len(),
        ({
            let before = rerated(ratings, slots, chosen, g, n - 1);
            &&& 0 <= i < before.len()
            &&& before[i].0 == slots[n - 1].slot@
            &&& forall|j: int| 0 <= j < i ==> (#[trigger] before[j]).0 != slots[n - 1].slot@
        }),
    ensures
        ({
            let before = rerated(ratings, slots, chosen, g, n - 1);
            let after = rerated(ratings, slots, chosen, g, n);
            let s = slots[n - 1];
            &&& after.len() == before.len()
            &&& after[i] == (
                before[i].0,
                before[i].1,
                candidate_ranking(
                    s.candidates@,
                    slot_ratings(g, chosen, n - 1, s.candidates@.len() as int),
                ),
            )
            &&& forall|j: int|
                0 <= j < after.len() && j != i ==> #[trigger] after[j] == before[j]
            &&& rerated(ratings, slots, chosen, g, 0) == ratings
        }),
{
    let before = rerated(ratings, slots, chosen, g, n - 1);
    lemma_view_place_found(before, slots[n - 1].slot@, 0, i);
}

} // verus!
