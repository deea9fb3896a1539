//! What holds of every purchase plan.

use vstd::prelude::*;

use super::acquisition::{
    acquire, acquire_all, by_buying, by_crafting, can_follow, crafts_for, Outcome,
};
use super::crafting_plan::WISHLIST_SKILLS;
use super::grand_exchange::{
    batch_capacity, batch_size, best_in_skill, best_option, buy_steps, first_tier, flat_crafts, flat_units,
    is_resolved, option_of, purchase_of, recipe, round_buys, tallied, wish_round, wish_rounds,
    Pick, UpgradeView, WishView, Wishing,
};
use super::market::{
    book_after, cheapest_first, cheapness, claim_from, claimed, drawn, ledger_after, open_offers,
    sells, stock, taken, tiers_left, BookView, LedgerView,
};
use super::supply::is_plain_recipe;
use super::upgrade_steps::StepView;
use crate::arith::{ceil_div, fits_i32, max_int, min_int};
use crate::ranking::{by_key, law_ranking, lemma_keys_are_ordered, ranked};
use crate::types::{recipe_of, Character, CraftIngredient, GEOrder, Item};

verus! {

// ── Order books ──────────────────────────────────────────────────────────────

/// What the first `n` tiers hold together.
pub open spec fn available(tiers: Seq<(i32, i32)>, n: int) -> int
    decreases n,
{
    if n <= 0 {
        0
    } else {
        available(tiers, n - 1) + tiers[n - 1].1
    }
}

/// No tier holds less than nothing.
pub open spec fn tiers_sound(tiers: Seq<(i32, i32)>) -> bool {
    forall|i: int| 0 <= i < tiers.len() ==> (#[trigger] tiers[i]).1 >= 0
}

/// Prices never fall from one tier to the next.
pub open spec fn tiers_ascend(tiers: Seq<(i32, i32)>) -> bool {
    forall|i: int, j: int|
        0 <= i < j < tiers.len() ==> (#[trigger] tiers[i]).0 <= (#[trigger] tiers[j]).0
}

proof fn lemma_offers_are_open(orders: Seq<GEOrder>, n: int)
    requires
        0 <= n <= orders.len(),
    ensures
        forall|i: int|
            0 <= i < open_offers(orders, n).len() ==> (#[trigger] open_offers(orders, n)[i]).1 > 0,
    decreases n,
{
    if n > 0 {
        lemma_offers_are_open(orders, n - 1);
        let before = open_offers(orders, n - 1);
        assert forall|i: int| 0 <= i < open_offers(orders, n).len() implies (#[trigger] open_offers(
            orders,
            n,
        )[i]).1 > 0 by {
            if i < before.len() {
                assert(before[i].1 > 0);
            }
        }
    }
}

/// A fresh book lists every order that has anything left, cheapest first.
pub proof fn law_book_is_sorted(orders: Seq<GEOrder>)
    ensures
        ({
            let offers = open_offers(orders, orders.len() as int);
            let tiers = cheapest_first(offers);
            &&& tiers.len() == offers.len()
            &&& tiers_ascend(tiers)
            &&& tiers_sound(tiers)
            &&& forall|i: int| 0 <= i < offers.len() ==> tiers.contains(#[trigger] offers[i])
        }),
{
    let offers = open_offers(orders, orders.len() as int);
    lemma_offers_are_open(orders, orders.len() as int);
    let keys = cheapness(offers);
    let n = offers.len() as int;
    lemma_keys_are_ordered(keys);
    law_ranking(by_key(keys), n);
    let order = ranked(by_key(keys), n);
    let tiers = cheapest_first(offers);
    assert forall|i: int, j: int| 0 <= i < j < tiers.len() implies (#[trigger] tiers[i]).0 <= (
    #[trigger] tiers[j]).0 by {
        assert(!(by_key(keys)(order[i], order[j])));
    }
    assert forall|i: int| 0 <= i < tiers.len() implies (#[trigger] tiers[i]).1 >= 0 by {
        assert(0 <= order[i] < n);
    }
    assert forall|i: int| 0 <= i < offers.len() implies tiers.contains(#[trigger] offers[i]) by {
        assert(order.contains(i));
        let k = order.index_of(i);
        assert(tiers[k] == offers[i]);
    }
}

proof fn lemma_claim_prefix(tiers: Seq<(i32, i32)>, qty: int, n: int)
    requires
        0 <= n <= tiers.len(),
        0 <= qty,
        tiers_sound(tiers),
    ensures
        claim_from(tiers, qty, n).0 == min_int(qty, available(tiers, n)),
        0 <= available(tiers, n),
        available(tiers_left(tiers, qty), n) == available(tiers, n) - claim_from(tiers, qty, n).0,
    decreases n,
{
    if n > 0 {
        lemma_claim_prefix(tiers, qty, n - 1);
        assert(tiers[n - 1].1 >= 0);
        let left = tiers_left(tiers, qty);
        assert(left[n - 1].1 == tiers[n - 1].1 - taken(
            tiers[n - 1].1 as int,
            qty - claim_from(tiers, qty, n - 1).0,
        ));
    }
}

/// A claim gets what is asked for, as far as the book holds it; what it gets is what the book
/// loses, and no tier falls below nothing.
pub proof fn law_claim_takes_what_there_is(tiers: Seq<(i32, i32)>, qty: int)
    requires
        0 <= qty,
        tiers_sound(tiers),
    ensures
        claimed(tiers, qty).0 == min_int(qty, available(tiers, tiers.len() as int)),
        available(tiers_left(tiers, qty), tiers.len() as int) == available(
            tiers,
            tiers.len() as int,
        ) - claimed(tiers, qty).0,
        tiers_sound(tiers_left(tiers, qty)),
{
    lemma_claim_prefix(tiers, qty, tiers.len() as int);
}

/// What the first `n` takes cost.
pub open spec fn cost_of(tiers: Seq<(i32, i32)>, takes: Seq<int>, n: int) -> int
    decreases n,
{
    if n <= 0 {
        0
    } else {
        cost_of(tiers, takes, n - 1) + takes[n - 1] * tiers[n - 1].0
    }
}

/// The first `n` takes together.
pub open spec fn sum_of(takes: Seq<int>, n: int) -> int
    decreases n,
{
    if n <= 0 {
        0
    } else {
        sum_of(takes, n - 1) + takes[n - 1]
    }
}

proof fn lemma_greedy_leads(tiers: Seq<(i32, i32)>, qty: int, takes: Seq<int>, n: int)
    requires
        0 <= n <= tiers.len(),
        0 <= qty,
        tiers_sound(tiers),
        takes.len() == tiers.len(),
        forall|i: int| 0 <= i < takes.len() ==> 0 <= #[trigger] takes[i] <= tiers[i].1,
        sum_of(takes, tiers.len() as int) == claimed(tiers, qty).0,
    ensures
        sum_of(takes, n) <= claim_from(tiers, qty, n).0,
        sum_of(takes, n) <= sum_of(takes, tiers.len() as int),
    decreases tiers.len() - n,
{
    let len = tiers.len() as int;
    lemma_claim_prefix(tiers, qty, n);
    lemma_claim_prefix(tiers, qty, len);
    lemma_sum_below(tiers, takes, n);
    if n < len {
        lemma_greedy_leads(tiers, qty, takes, n + 1);
    }
}

proof fn lemma_sum_below(tiers: Seq<(i32, i32)>, takes: Seq<int>, n: int)
    requires
        0 <= n <= tiers.len(),
        takes.len() == tiers.len(),
        forall|i: int| 0 <= i < takes.len() ==> 0 <= #[trigger] takes[i] <= tiers[i].1,
    ensures
        sum_of(takes, n) <= available(tiers, n),
    decreases n,
{
    if n > 0 {
        lemma_sum_below(tiers, takes, n - 1);
    }
}

proof fn lemma_greedy_is_cheaper(tiers: Seq<(i32, i32)>, qty: int, takes: Seq<int>, n: int)
    requires
        1 <= n <= tiers.len(),
        0 <= qty,
        tiers_sound(tiers),
        tiers_ascend(tiers),
        takes.len() == tiers.len(),
        forall|i: int| 0 <= i < takes.len() ==> 0 <= #[trigger] takes[i] <= tiers[i].1,
        sum_of(takes, tiers.len() as int) == claimed(tiers, qty).0,
    ensures
        claim_from(tiers, qty, n).1 - cost_of(tiers, takes, n) <= (claim_from(tiers, qty, n).0
            - sum_of(takes, n)) * tiers[n - 1].0,
    decreases n,
{
    let price = tiers[n - 1].0 as int;
    let (got0, cost0) = claim_from(tiers, qty, n - 1);
    let take = taken(tiers[n - 1].1 as int, qty - got0);
    let t = takes[n - 1];
    let sum0 = sum_of(takes, n - 1);
    let spent0 = cost_of(tiers, takes, n - 1);
    if n == 1 {
        assert(take * price - t * price == (take - t) * price) by (nonlinear_arith);
    } else {
        lemma_greedy_is_cheaper(tiers, qty, takes, n - 1);
        lemma_greedy_leads(tiers, qty, takes, n - 1);
        let below = tiers[n - 2].0 as int;
        assert(below <= price);
        let lead = got0 - sum0;
        assert(lead * below <= lead * price) by (nonlinear_arith)
            requires
                lead >= 0,
                below <= price,
        ;
        assert(lead * price + take * price - t * price == (lead + take - t) * price)
            by (nonlinear_arith);
    }
}

/// Of all ways to take as many units from a sorted book, a claim is the cheapest.
pub proof fn law_claim_is_cheapest(tiers: Seq<(i32, i32)>, qty: int, takes: Seq<int>)
    requires
        0 <= qty,
        tiers_sound(tiers),
        tiers_ascend(tiers),
        takes.len() == tiers.len(),
        forall|i: int| 0 <= i < takes.len() ==> 0 <= #[trigger] takes[i] <= tiers[i].1,
        sum_of(takes, tiers.len() as int) == claimed(tiers, qty).0,
    ensures
        claimed(tiers, qty).1 <= cost_of(tiers, takes, tiers.len() as int),
{
    let n = tiers.len() as int;
    if n > 0 {
        lemma_greedy_is_cheaper(tiers, qty, takes, n);
        let p = tiers[n - 1].0 as int;
        assert(0 * p == 0) by (nonlinear_arith);
    }
}

// ── Acquisition ──────────────────────────────────────────────────────────────

/// Neither the bank nor any tier holds less than nothing.
pub open spec fn ledger_sound(l: LedgerView) -> bool {
    &&& forall|c: Seq<char>| #[trigger] l.bank.contains_key(c) ==> l.bank[c] >= 0
    &&& forall|c: Seq<char>| #[trigger] l.books.contains_key(c) ==> tiers_sound(l.books[c].tiers)
}

/// `after` can be reached from `before` by taking stock: the bank has no more of anything, the same
/// items are sold, and every unit that a book has lost has been claimed.
pub open spec fn drawn_down(before: LedgerView, after: LedgerView) -> bool {
    &&& forall|c: Seq<char>| #[trigger] stock(after.bank, c) <= stock(before.bank, c)
    &&& forall|c: Seq<char>| #[trigger]
        before.books.contains_key(c) <==> after.books.contains_key(c)
    &&& forall|c: Seq<char>| #[trigger]
        after.books.contains_key(c) ==> {
            let (b, a) = (before.books[c], after.books[c]);
            &&& a.claimed_qty >= b.claimed_qty
            &&& a.claimed_qty + available(a.tiers, a.tiers.len() as int) == b.claimed_qty + available(
                b.tiers,
                b.tiers.len() as int,
            )
        }
}

/// What a list of books has been claimed for, in gold.
pub open spec fn gold_claimed(
    books: Map<Seq<char>, BookView>,
    codes: Seq<Seq<char>>,
    n: int,
) -> int
    decreases n,
{
    if n <= 0 {
        0
    } else {
        gold_claimed(books, codes, n - 1) + books[codes[n - 1]].claimed_cost
    }
}

/// `codes` lists every item sold, each once.
pub open spec fn lists_books(codes: Seq<Seq<char>>, l: LedgerView) -> bool {
    &&& codes.no_duplicates()
    &&& forall|c: Seq<char>| codes.contains(c) <==> #[trigger] l.books.contains_key(c)
}

proof fn lemma_gold_update(
    books: Map<Seq<char>, BookView>,
    codes: Seq<Seq<char>>,
    n: int,
    code: Seq<char>,
    book: BookView,
)
    requires
        0 <= n <= codes.len(),
        codes.no_duplicates(),
    ensures
        gold_claimed(books.insert(code, book), codes, n) == gold_claimed(books, codes, n)
            + if codes.take(n).contains(code) {
            book.claimed_cost - books[code].claimed_cost
        } else {
            0
        },
    decreases n,
{
    if n > 0 {
        lemma_gold_update(books, codes, n - 1, code, book);
        let last = codes[n - 1];
        assert(codes.take(n)[n - 1] == last);
        if codes.take(n - 1).contains(code) {
            let i = codes.take(n - 1).index_of(code);
            assert(codes[i] == code);
            assert(codes.take(n)[i] == code);
            assert(last != code);
        }
        if codes.take(n).contains(code) && code != last {
            let i = choose|i: int| 0 <= i < n && codes.take(n)[i] == code;
            assert(codes.take(n - 1)[i] == code);
        }
    }
}

/// What holds of one way to have something: it keeps the ledger sound, only takes stock, and costs
/// exactly the gold that the books have been claimed for.
spec fn way_is_honest(l: LedgerView, way: Outcome) -> bool {
    way matches Some((cost, after)) ==> {
        &&& ledger_sound(after)
        &&& drawn_down(l, after)
        &&& forall|codes: Seq<Seq<char>>| #[trigger]
            lists_books(codes, l) ==> gold_claimed(after.books, codes, codes.len() as int)
                == gold_claimed(l.books, codes, codes.len() as int) + cost
    }
}

proof fn lemma_honest_through(l: LedgerView, mid: LedgerView, after: LedgerView, c1: int, c2: int)
    requires
        way_is_honest(l, Some((c1, mid))),
        way_is_honest(mid, Some((c2, after))),
    ensures
        way_is_honest(l, Some((c1 + c2, after))),
{
    assert forall|c: Seq<char>| #[trigger] stock(after.bank, c) <= stock(l.bank, c) by {
        assert(stock(mid.bank, c) <= stock(l.bank, c));
    }
    assert forall|c: Seq<char>| #[trigger]
        l.books.contains_key(c) <==> after.books.contains_key(c) by {
        assert(l.books.contains_key(c) <==> mid.books.contains_key(c));
    }
    assert forall|c: Seq<char>| #[trigger] after.books.contains_key(c) implies ({
        let (b, a) = (l.books[c], after.books[c]);
        &&& a.claimed_qty >= b.claimed_qty
        &&& a.claimed_qty + available(a.tiers, a.tiers.len() as int) == b.claimed_qty + available(
            b.tiers,
            b.tiers.len() as int,
        )
    }) by {
        assert(mid.books.contains_key(c));
    }
    assert forall|codes: Seq<Seq<char>>| #[trigger] lists_books(codes, l) implies gold_claimed(
        after.books,
        codes,
        codes.len() as int,
    ) == gold_claimed(l.books, codes, codes.len() as int) + (c1 + c2) by {
        assert forall|c: Seq<char>| codes.contains(c) <==> #[trigger] mid.books.contains_key(c) by {
            assert(l.books.contains_key(c) <==> mid.books.contains_key(c));
        }
        assert(lists_books(codes, mid));
    }
}

proof fn lemma_drawing_is_honest(l: LedgerView, code: Seq<char>, qty: int)
    requires
        ledger_sound(l),
        qty > 0,
    ensures
        way_is_honest(l, Some((0, drawn(l, code, qty).1))),
        0 <= drawn(l, code, qty).0 <= qty,
{
    let d = drawn(l, code, qty).1;
    assert(stock(l.bank, code) >= 0);
    assert forall|c: Seq<char>| #[trigger] stock(d.bank, c) <= stock(l.bank, c) by {}
}

proof fn lemma_buying_is_honest(code: Seq<char>, qty: int, l: LedgerView)
    requires
        ledger_sound(l),
        qty > 0,
    ensures
        way_is_honest(l, by_buying(code, qty, l)),
{
    let (rest, d) = drawn(l, code, qty);
    lemma_drawing_is_honest(l, code, qty);
    if fits_i32(rest) && rest != 0 && sells(d, code, rest) {
        let tiers = d.books[code].tiers;
        law_claim_takes_what_there_is(tiers, rest);
        let after = ledger_after(d, code, rest);
        let cost = claimed(tiers, rest).1;
        assert(tiers_left(tiers, rest).len() == tiers.len());
        assert forall|codes: Seq<Seq<char>>| #[trigger] lists_books(codes, d) implies gold_claimed(
            after.books,
            codes,
            codes.len() as int,
        ) == gold_claimed(d.books, codes, codes.len() as int) + cost by {
            assert(d.books.contains_key(code));
            assert(codes.contains(code));
            assert(codes.take(codes.len() as int) =~= codes);
            lemma_gold_update(
                d.books,
                codes,
                codes.len() as int,
                code,
                book_after(d.books[code], rest),
            );
        }
        assert forall|c: Seq<char>| #[trigger] stock(after.bank, c) <= stock(d.bank, c) by {}
        assert(way_is_honest(d, Some((cost, after))));
        lemma_honest_through(l, d, after, 0, cost);
    }
}

proof fn lemma_crafting_is_honest(
    depth: nat,
    code: Seq<char>,
    qty: int,
    items: Seq<Item>,
    who: Character,
    l: LedgerView,
)
    requires
        ledger_sound(l),
        qty > 0,
    ensures
        way_is_honest(l, by_crafting(depth, code, qty, items, who, l)),
    decreases depth, 0nat, 0nat,
{
    let (rest, d) = drawn(l, code, qty);
    lemma_drawing_is_honest(l, code, qty);
    if fits_i32(rest) && rest != 0 && depth > 0 {
        if let Some(craft) = recipe_of(items, code) {
            if can_follow(who, craft) {
                let times = crafts_for(craft, rest);
                lemma_all_honest((depth - 1) as nat, craft.items@, times, items, who, d);
                if let Some((cost, after)) = acquire_all(
                    (depth - 1) as nat,
                    craft.items@,
                    times,
                    items,
                    who,
                    d,
                ) {
                    lemma_honest_through(l, d, after, 0, cost);
                }
            }
        }
    }
}

proof fn lemma_acquiring_is_honest(
    depth: nat,
    code: Seq<char>,
    qty: int,
    items: Seq<Item>,
    who: Character,
    l: LedgerView,
)
    requires
        ledger_sound(l),
    ensures
        way_is_honest(l, acquire(depth, code, qty, items, who, l)),
    decreases depth, 1nat, 0nat,
{
    if qty > 0 {
        lemma_buying_is_honest(code, qty, l);
        lemma_crafting_is_honest(depth, code, qty, items, who, l);
    }
}

proof fn lemma_all_honest(
    depth: nat,
    ings: Seq<CraftIngredient>,
    times: int,
    items: Seq<Item>,
    who: Character,
    l: LedgerView,
)
    requires
        ledger_sound(l),
    ensures
        way_is_honest(l, acquire_all(depth, ings, times, items, who, l)),
    decreases depth, 2nat, ings.len(),
{
    if ings.len() > 0 {
        lemma_all_honest(depth, ings.drop_last(), times, items, who, l);
        if let Some((total, l1)) = acquire_all(depth, ings.drop_last(), times, items, who, l) {
            let ing = ings.last();
            lemma_acquiring_is_honest(depth, ing.code@, ing.quantity * times, items, who, l1);
            if let Some((cost, l2)) = acquire(
                depth,
                ing.code@,
                ing.quantity * times,
                items,
                who,
                l1,
            ) {
                lemma_honest_through(l, l1, l2, total, cost);
            }
        }
    }
}

/// Whatever way an item is had, nothing is sold twice: no stock falls below nothing, every unit a
/// book loses is tallied as claimed, and the cost is exactly the gold that the books have been
/// claimed for. `codes` lists the items sold, in any order.
pub proof fn law_acquisition_is_honest(
    depth: nat,
    code: Seq<char>,
    qty: int,
    items: Seq<Item>,
    who: Character,
    l: LedgerView,
    codes: Seq<Seq<char>>,
)
    requires
        ledger_sound(l),
        lists_books(codes, l),
    ensures
        acquire(depth, code, qty, items, who, l) matches Some((cost, after)) ==> {
            &&& ledger_sound(after)
            &&& drawn_down(l, after)
            &&& gold_claimed(after.books, codes, codes.len() as int) == gold_claimed(
                l.books,
                codes,
                codes.len() as int,
            ) + cost
        },
{
    lemma_acquiring_is_honest(depth, code, qty, items, who, l);
}

/// Acquiring never costs more than buying everything that the bank does not have.
pub proof fn law_acquisition_is_no_dearer_than_buying(
    depth: nat,
    code: Seq<char>,
    qty: int,
    items: Seq<Item>,
    who: Character,
    l: LedgerView,
)
    requires
        qty > 0,
    ensures
        by_buying(code, qty, l) matches Some((price, _)) ==> (acquire(
            depth,
            code,
            qty,
            items,
            who,
            l,
        ) matches Some((cost, _)) && cost <= price),
        by_crafting(depth, code, qty, items, who, l) matches Some((price, _)) ==> (acquire(
            depth,
            code,
            qty,
            items,
            who,
            l,
        ) matches Some((cost, _)) && cost <= price),
{
}

/// Recipes do not go in circles: every item that has one ranks above all of its ingredients.
pub open spec fn is_layered(items: Seq<Item>, layer: spec_fn(Seq<char>) -> nat) -> bool {
    forall|code: Seq<char>|
        #[trigger] recipe_of(items, code) matches Some(craft) ==> layer(code) >= 1 && forall|i: int|
            0 <= i < craft.items@.len() ==> layer((#[trigger] craft.items@[i]).code@) < layer(code)
}

/// Where recipes do not go in circles, following them deeper than the layer of an item makes no
/// difference to how it is had.
pub proof fn law_depth_is_enough(
    a: nat,
    b: nat,
    layer: spec_fn(Seq<char>) -> nat,
    code: Seq<char>,
    qty: int,
    items: Seq<Item>,
    who: Character,
    l: LedgerView,
)
    requires
        is_layered(items, layer),
        layer(code) <= a,
        layer(code) <= b,
    ensures
        acquire(a, code, qty, items, who, l) == acquire(b, code, qty, items, who, l),
    decreases layer(code), 0nat,
{
    if qty > 0 {
        let (rest, d) = drawn(l, code, qty);
        if let Some(craft) = recipe_of(items, code) {
            lemma_depth_for_all(
                (a - 1) as nat,
                (b - 1) as nat,
                layer,
                (layer(code) - 1) as nat,
                craft.items@,
                crafts_for(craft, rest),
                items,
                who,
                d,
            );
        }
    }
}

proof fn lemma_depth_for_all(
    a: nat,
    b: nat,
    layer: spec_fn(Seq<char>) -> nat,
    top: nat,
    ings: Seq<CraftIngredient>,
    times: int,
    items: Seq<Item>,
    who: Character,
    l: LedgerView,
)
    requires
        is_layered(items, layer),
        top <= a,
        top <= b,
        forall|i: int| 0 <= i < ings.len() ==> layer((#[trigger] ings[i]).code@) <= top,
    ensures
        acquire_all(a, ings, times, items, who, l) == acquire_all(b, ings, times, items, who, l),
    decreases top, 1nat, ings.len(),
{
    if ings.len() > 0 {
        let rest = ings.drop_last();
        assert forall|i: int| 0 <= i < rest.len() implies layer((#[trigger] rest[i]).code@) <= top by {
            assert(rest[i] == ings[i]);
        }
        lemma_depth_for_all(a, b, layer, top, rest, times, items, who, l);
        let ing = ings.last();
        if let Some((total, l1)) = acquire_all(a, rest, times, items, who, l) {
            law_depth_is_enough(a, b, layer, ing.code@, ing.quantity * times, items, who, l1);
        }
    }
}

// ── Upgrades ─────────────────────────────────────────────────────────────────

/// What the first `n` upgrades cost together.
pub open spec fn upgrade_gold(bought: Seq<UpgradeView>, n: int) -> int
    decreases n,
{
    if n <= 0 {
        0
    } else {
        upgrade_gold(bought, n - 1) + bought[n - 1].cost
    }
}

proof fn lemma_upgrade_gold_pushed(bought: Seq<UpgradeView>, more: UpgradeView, n: int)
    requires
        0 <= n <= bought.len(),
    ensures
        upgrade_gold(bought.push(more), n) == upgrade_gold(bought, n),
    decreases n,
{
    if n > 0 {
        lemma_upgrade_gold_pushed(bought, more, n - 1);
    }
}

proof fn lemma_upgrades_honest(
    ledger: LedgerView,
    budget: int,
    steps: Seq<StepView>,
    n: int,
    items: Seq<Item>,
    who: Character,
)
    requires
        0 <= n <= steps.len(),
        ledger_sound(ledger),
    ensures
        ({
            let b = buy_steps(ledger, budget, steps, n, items, who);
            way_is_honest(ledger, Some((budget - b.budget, b.ledger)))
        }),
    decreases n,
{
    if n > 0 {
        lemma_upgrades_honest(ledger, budget, steps, n - 1, items, who);
        let b = buy_steps(ledger, budget, steps, n - 1, items, who);
        let step = steps[n - 1];
        lemma_acquiring_is_honest(items.len(), step.code, 1, items, who, b.ledger);
        if let Some((cost, l)) = acquire(items.len(), step.code, 1, items, who, b.ledger) {
            lemma_honest_through(ledger, b.ledger, l, budget - b.budget, cost);
        }
    }
}

/// Upgrades are paid for out of the budget to the last coin, the budget is never overdrawn, no slot
/// is bought for twice, and the ledger stays sound.
pub proof fn law_upgrades_stay_within_budget(
    ledger: LedgerView,
    budget: int,
    steps: Seq<StepView>,
    n: int,
    items: Seq<Item>,
    who: Character,
)
    requires
        0 <= n <= steps.len(),
        0 <= budget,
        ledger_sound(ledger),
    ensures
        ({
            let b = buy_steps(ledger, budget, steps, n, items, who);
            &&& b.budget >= 0
            &&& b.budget == budget - upgrade_gold(b.bought, b.bought.len() as int)
            &&& ledger_sound(b.ledger)
            &&& forall|i: int, j: int|
                0 <= i < j < b.bought.len() ==> {
                    ||| (#[trigger] b.bought[i]).step.who != (#[trigger] b.bought[j]).step.who
                    ||| b.bought[i].step.slot != b.bought[j].step.slot
                }
        }),
    decreases n,
{
    if n > 0 {
        law_upgrades_stay_within_budget(ledger, budget, steps, n - 1, items, who);
        let b = buy_steps(ledger, budget, steps, n - 1, items, who);
        let step = steps[n - 1];
        lemma_acquiring_is_honest(items.len(), step.code, 1, items, who, b.ledger);
        if !is_resolved(b.bought, step) {
            if let Some((cost, l)) = acquire(items.len(), step.code, 1, items, who, b.ledger) {
                lemma_upgrade_gold_pushed(
                    b.bought,
                    UpgradeView { step, cost },
                    b.bought.len() as int,
                );
            }
        }
    }
}

// ── Wishlist ─────────────────────────────────────────────────────────────────

proof fn lemma_first_tier_claim(tiers: Seq<(i32, i32)>, qty: int, f: int, n: int)
    requires
        0 <= f < tiers.len(),
        0 <= n <= tiers.len(),
        0 < qty <= tiers[f].1,
        forall|i: int| 0 <= i < f ==> (#[trigger] tiers[i]).1 <= 0,
    ensures
        claim_from(tiers, qty, n) == if n <= f {
            (0int, 0int)
        } else {
            (qty, qty * tiers[f].0)
        },
    decreases n,
{
    if n > 0 {
        lemma_first_tier_claim(tiers, qty, f, n - 1);
        let p = tiers[n - 1].0 as int;
        assert(0 * p == 0) by (nonlinear_arith);
    }
}

proof fn lemma_first_tier_at(tiers: Seq<(i32, i32)>, from: int) -> (f: int)
    requires
        0 <= from <= tiers.len(),
        first_tier(tiers, from) > 0,
    ensures
        from <= f < tiers.len(),
        first_tier(tiers, from) == tiers[f].1,
        forall|i: int| from <= i < f ==> (#[trigger] tiers[i]).1 <= 0,
    decreases tiers.len() - from,
{
    if tiers[from].1 > 0 {
        from
    } else {
        lemma_first_tier_at(tiers, from + 1)
    }
}

/// Within what there is at one price, `k` times the units cost `k` times the gold.
proof fn lemma_flat_price(l: LedgerView, code: Seq<char>, q: int, k: int)
    requires
        ledger_sound(l),
        q > 0,
        k >= 1,
        k * q <= flat_units(l, code),
    ensures
        by_buying(code, k * q, l) matches Some((cost, _)) ==> (by_buying(code, q, l) matches Some(
            (one, _),
        ) ==> cost == k * one),
{
    assert(k * q >= q) by (nonlinear_arith)
        requires
            q > 0,
            k >= 1,
    ;
    let have = stock(l.bank, code);
    assert(have >= 0);
    if have > 0 {
        assert(k * 0 == 0);
    } else {
        let tiers = l.books[code].tiers;
        let f = lemma_first_tier_at(tiers, 0);
        lemma_first_tier_claim(tiers, q, f, tiers.len() as int);
        lemma_first_tier_claim(tiers, k * q, f, tiers.len() as int);
        let p = tiers[f].0 as int;
        assert((k * q) * p == k * (q * p)) by (nonlinear_arith);
        assert(drawn(l, code, q).1.books == l.books);
        assert(drawn(l, code, k * q).1.books == l.books);
    }
}

/// Two ledgers hold the same of every code but those of the first `n` ingredients.
spec fn same_but(a: LedgerView, b: LedgerView, ings: Seq<CraftIngredient>, n: int) -> bool {
    forall|c: Seq<char>|
        (forall|i: int| 0 <= i < n ==> (#[trigger] ings[i]).code@ != c) ==> {
            &&& #[trigger] stock(a.bank, c) == stock(b.bank, c)
            &&& a.books.contains_key(c) == b.books.contains_key(c)
            &&& a.books.contains_key(c) ==> a.books[c] == b.books[c]
        }
}

proof fn lemma_buying_touches_one(code: Seq<char>, qty: int, l: LedgerView, c: Seq<char>)
    requires
        c != code,
        by_buying(code, qty, l) is Some,
    ensures
        ({
            let after = by_buying(code, qty, l)->Some_0.1;
            &&& stock(after.bank, c) == stock(l.bank, c)
            &&& after.books.contains_key(c) == l.books.contains_key(c)
            &&& after.books.contains_key(c) ==> after.books[c] == l.books[c]
        }),
{
}

proof fn lemma_price_depends_on_own_stock(code: Seq<char>, qty: int, a: LedgerView, b: LedgerView)
    requires
        stock(a.bank, code) == stock(b.bank, code),
        a.books.contains_key(code) == b.books.contains_key(code),
        a.books.contains_key(code) ==> a.books[code] == b.books[code],
    ensures
        by_buying(code, qty, a) is Some <==> by_buying(code, qty, b) is Some,
        by_buying(code, qty, a) is Some ==> by_buying(code, qty, a)->Some_0.0 == by_buying(
            code,
            qty,
            b,
        )->Some_0.0,
{
}

proof fn lemma_shallow_is_buying(
    code: Seq<char>,
    qty: int,
    items: Seq<Item>,
    who: Character,
    l: LedgerView,
)
    requires
        qty > 0,
    ensures
        acquire(0, code, qty, items, who, l) == by_buying(code, qty, l),
{
}

/// The price of the first `n` ingredients of `k` crafts is `k` times that of one craft, as long as
/// `k` crafts fit at the current prices.
proof fn lemma_batch_price(
    l: LedgerView,
    ings: Seq<CraftIngredient>,
    k: int,
    n: int,
    items: Seq<Item>,
    who: Character,
)
    requires
        0 <= n <= ings.len(),
        ledger_sound(l),
        is_plain_recipe(ings),
        k >= 1,
        forall|i: int|
            0 <= i < ings.len() && (#[trigger] ings[i]).quantity > 0 ==> k * ings[i].quantity
                <= flat_units(l, ings[i].code@),
        acquire_all(0, ings.take(n), k, items, who, l) is Some,
        acquire_all(0, ings.take(n), 1, items, who, l) is Some,
    ensures
        acquire_all(0, ings.take(n), k, items, who, l)->Some_0.0 == k * acquire_all(
            0,
            ings.take(n),
            1,
            items,
            who,
            l,
        )->Some_0.0,
        same_but(acquire_all(0, ings.take(n), k, items, who, l)->Some_0.1, l, ings, n),
        same_but(acquire_all(0, ings.take(n), 1, items, who, l)->Some_0.1, l, ings, n),
    decreases n,
{
    if n == 0 {
        assert(k * 0 == 0);
    } else {
        let ing = ings[n - 1];
        let q = ing.quantity as int;
        assert(ings.take(n).drop_last() =~= ings.take(n - 1));
        assert(ings.take(n).last() == ing);
        lemma_batch_price(l, ings, k, n - 1, items, who);
        let (tk, lk) = acquire_all(0, ings.take(n - 1), k, items, who, l)->Some_0;
        let (t1, l1) = acquire_all(0, ings.take(n - 1), 1, items, who, l)->Some_0;
        assert forall|i: int| 0 <= i < n - 1 implies (#[trigger] ings[i]).code@ != ing.code@ by {
            assert(ings[n - 1].code@ == ing.code@);
        }
        assert(stock(lk.bank, ing.code@) == stock(l.bank, ing.code@));
        assert(stock(l1.bank, ing.code@) == stock(l.bank, ing.code@));
        assert(q >= 0);
        assert(q * 1 == q);
        assert(q * k == k * q) by (nonlinear_arith);
        if q > 0 {
            assert(k * q >= q) by (nonlinear_arith)
                requires
                    q > 0,
                    k >= 1,
            ;
            lemma_shallow_is_buying(ing.code@, q * k, items, who, lk);
            lemma_shallow_is_buying(ing.code@, q, items, who, l1);
            lemma_price_depends_on_own_stock(ing.code@, k * q, lk, l);
            lemma_price_depends_on_own_stock(ing.code@, q, l1, l);
            lemma_flat_price(l, ing.code@, q, k);
            let ck = by_buying(ing.code@, k * q, lk)->Some_0.0;
            let c1 = by_buying(ing.code@, q, l1)->Some_0.0;
            assert(k * (t1 + c1) == k * t1 + k * c1) by (nonlinear_arith);
            let ak = by_buying(ing.code@, k * q, lk)->Some_0.1;
            let a1 = by_buying(ing.code@, q, l1)->Some_0.1;
            assert forall|c: Seq<char>|
                (forall|i: int| 0 <= i < n ==> (#[trigger] ings[i]).code@ != c) implies ({
                &&& #[trigger] stock(ak.bank, c) == stock(l.bank, c)
                &&& ak.books.contains_key(c) == l.books.contains_key(c)
                &&& ak.books.contains_key(c) ==> ak.books[c] == l.books[c]
            }) by {
                assert(ings[n - 1].code@ != c);
                assert(forall|i: int| 0 <= i < n - 1 ==> (#[trigger] ings[i]).code@ != c);
                assert(stock(lk.bank, c) == stock(l.bank, c));
                lemma_buying_touches_one(ing.code@, k * q, lk, c);
            }
            assert forall|c: Seq<char>|
                (forall|i: int| 0 <= i < n ==> (#[trigger] ings[i]).code@ != c) implies ({
                &&& #[trigger] stock(a1.bank, c) == stock(l.bank, c)
                &&& a1.books.contains_key(c) == l.books.contains_key(c)
                &&& a1.books.contains_key(c) ==> a1.books[c] == l.books[c]
            }) by {
                assert(ings[n - 1].code@ != c);
                assert(forall|i: int| 0 <= i < n - 1 ==> (#[trigger] ings[i]).code@ != c);
                assert(stock(l1.bank, c) == stock(l.bank, c));
                lemma_buying_touches_one(ing.code@, q, l1, c);
            }
            assert(same_but(ak, l, ings, n));
            assert(same_but(a1, l, ings, n));
            assert(acquire_all(0, ings.take(n), k, items, who, l) == Some((tk + ck, ak)));
            assert(acquire_all(0, ings.take(n), 1, items, who, l) == Some((t1 + c1, a1)));
        } else {
            assert(q * k == 0) by (nonlinear_arith)
                requires
                    q == 0,
            ;
            assert(k * (t1 + 0) == k * t1 + 0);
            assert(same_but(lk, l, ings, n));
            assert(same_but(l1, l, ings, n));
            assert(acquire_all(0, ings.take(n), k, items, who, l) == Some((tk, lk)));
            assert(acquire_all(0, ings.take(n), 1, items, who, l) == Some((t1, l1)));
        }
    }
}

proof fn lemma_capacity_bounds(l: LedgerView, ings: Seq<CraftIngredient>, n: int, i: int)
    requires
        0 <= i < n <= ings.len(),
        ings[i].quantity > 0,
    ensures
        flat_crafts(l, ings, n) matches Some(b) && b <= flat_units(l, ings[i].code@)
            / ings[i].quantity as int,
    decreases n,
{
    if i < n - 1 {
        lemma_capacity_bounds(l, ings, n - 1, i);
    }
}

/// A batch within the capacity at the current price costs exactly as many times what one craft
/// costs as it has crafts, where the recipe lists no ingredient twice.
pub proof fn law_batch_price_is_flat(
    l: LedgerView,
    item: Item,
    k: int,
    items: Seq<Item>,
    who: Character,
)
    requires
        item.craft is Some,
        ledger_sound(l),
        is_plain_recipe(recipe(item).items@),
        1 <= k <= batch_capacity(l, recipe(item)),
    ensures
        acquire_all(0, recipe(item).items@, k, items, who, l) matches Some((cost, _)) ==> (
        acquire_all(0, recipe(item).items@, 1, items, who, l) matches Some((one, _)) ==> cost == k
            * one),
{
    let ings = recipe(item).items@;
    let len = ings.len() as int;
    assert(ings.take(len) =~= ings);
    if k > 1 {
        if acquire_all(0, ings, k, items, who, l) is Some && acquire_all(
            0,
            ings,
            1,
            items,
            who,
            l,
        ) is Some {
            assert forall|i: int| 0 <= i < len && (#[trigger] ings[i]).quantity > 0 implies k
                * ings[i].quantity <= flat_units(l, ings[i].code@) by {
                lemma_capacity_bounds(l, ings, len, i);
                let u = flat_units(l, ings[i].code@);
                let q = ings[i].quantity as int;
                assert(k * q <= u) by (nonlinear_arith)
                    requires
                        k <= u / q,
                        q > 0,
                ;
            }
            lemma_batch_price(l, ings, k, len, items, who);
        }
    } else if let Some((one, _)) = acquire_all(0, ings, 1, items, who, l) {
        assert(k * one == one) by (nonlinear_arith)
            requires
                k == 1,
        ;
    }
}

/// What the first `n` wishlist purchases cost together.
pub open spec fn wish_gold(bought: Seq<WishView>, n: int) -> int
    decreases n,
{
    if n <= 0 {
        0
    } else {
        wish_gold(bought, n - 1) + bought[n - 1].cost
    }
}

proof fn lemma_purchase_found(bought: Seq<WishView>, code: Seq<char>, from: int)
    requires
        0 <= from,
    ensures
        purchase_of(bought, code, from) matches Some(i) ==> from <= i < bought.len(),
    decreases bought.len() - from,
{
    if from < bought.len() && bought[from].code != code {
        lemma_purchase_found(bought, code, from + 1);
    }
}

proof fn lemma_wish_gold_differs(a: Seq<WishView>, b: Seq<WishView>, i: int, n: int)
    requires
        0 <= n <= a.len(),
        a.len() <= b.len(),
        0 <= i,
        forall|j: int| 0 <= j < a.len() && j != i ==> (#[trigger] a[j]).cost == b[j].cost,
    ensures
        wish_gold(b, n) == wish_gold(a, n) + if i < n {
            b[i].cost - a[i].cost
        } else {
            0
        },
    decreases n,
{
    if n > 0 {
        lemma_wish_gold_differs(a, b, i, n - 1);
    }
}

proof fn lemma_tallied_gold(bought: Seq<WishView>, more: WishView)
    ensures
        wish_gold(tallied(bought, more), tallied(bought, more).len() as int) == wish_gold(
            bought,
            bought.len() as int,
        ) + more.cost,
{
    lemma_purchase_found(bought, more.code, 0);
    let after = tallied(bought, more);
    match purchase_of(bought, more.code, 0) {
        Some(i) => {
            lemma_wish_gold_differs(bought, after, i, bought.len() as int);
        },
        None => {
            lemma_wish_gold_differs(bought, after, bought.len() as int, bought.len() as int);
        },
    }
}

/// An option can be had within the budget, for a skill that still lacks XP.
spec fn is_open_option(w: Wishing, p: Pick, items: Seq<Item>, xp: Seq<i32>, who: Character) -> bool {
    &&& 0 <= p.skill < 4
    &&& 0 <= p.item < items.len()
    &&& w.gaps[p.skill] > 0
    &&& option_of(p.skill, p.item, w.ledger, w.budget, items, xp, who) == Some(p)
}

proof fn lemma_best_in_skill_is_open(
    w: Wishing,
    start: Option<Pick>,
    k: int,
    n: int,
    items: Seq<Item>,
    xp: Seq<i32>,
    who: Character,
)
    requires
        0 <= k < 4,
        0 <= n <= items.len(),
        w.gaps[k] > 0,
        start matches Some(p) ==> is_open_option(w, p, items, xp, who),
    ensures
        best_in_skill(start, k, n, w.ledger, w.budget, items, xp, who) matches Some(p)
            ==> is_open_option(w, p, items, xp, who),
    decreases n,
{
    if n > 0 {
        lemma_best_in_skill_is_open(w, start, k, n - 1, items, xp, who);
    }
}

proof fn lemma_best_is_open(w: Wishing, k: int, items: Seq<Item>, xp: Seq<i32>, who: Character)
    requires
        0 <= k <= 4,
    ensures
        best_option(w, k, items, xp, who) matches Some(p) ==> is_open_option(w, p, items, xp, who),
    decreases k,
{
    if k > 0 {
        lemma_best_is_open(w, k - 1, items, xp, who);
        if w.gaps[k - 1] > 0 {
            lemma_best_in_skill_is_open(
                w,
                best_option(w, k - 1, items, xp, who),
                k - 1,
                items.len() as int,
                items,
                xp,
                who,
            );
        }
    }
}

/// A round of wishlist purchases spends no more than the budget, all of it on the purchase it
/// tallies, and buys only what the shared gap of one skill still lacks: with one craft fewer the
/// gap would have stayed open. Other skills' gaps do not change.
pub proof fn law_round_closes_a_gap_once(
    w: Wishing,
    items: Seq<Item>,
    xp: Seq<i32>,
    who: Character,
)
    requires
        w.gaps.len() == 4,
        xp.len() == items.len(),
        ledger_sound(w.ledger),
    ensures
        wish_round(w, items, xp, who) matches Some(next) ==> {
            let p = best_option(w, 4, items, xp, who)->Some_0;
            let n = round_buys(w, p, items, who).0;
            &&& ledger_sound(next.ledger)
            &&& next.budget >= 0
            &&& next.gaps.len() == 4
            &&& wish_gold(next.bought, next.bought.len() as int) - wish_gold(
                w.bought,
                w.bought.len() as int,
            ) == w.budget - next.budget
            &&& n >= 1
            &&& p.xp > 0
            &&& next.gaps[p.skill] == w.gaps[p.skill] - p.xp * n
            &&& w.gaps[p.skill] - p.xp * (n - 1) > 0
            &&& forall|k: int| 0 <= k < 4 && k != p.skill ==> next.gaps[k] == w.gaps[k]
        },
{
    if w.budget > 0 {
        lemma_best_is_open(w, 4, items, xp, who);
        if let Some(p) = best_option(w, 4, items, xp, who) {
            let ings = recipe(items[p.item]).items@;
            let (n, cost, l) = round_buys(w, p, items, who);
            let size = batch_size(w, p, items);
            lemma_all_honest(0, ings, size, items, who, w.ledger);
            lemma_all_honest(0, ings, 1, items, who, w.ledger);
            let gap = w.gaps[p.skill];
            let x = p.xp;
            let cap = ceil_div(gap, x);
            assert(n <= max_int(cap, 1));
            assert(x * (n - 1) < gap) by (nonlinear_arith)
                requires
                    1 <= n <= max_int(cap, 1),
                    cap == (gap + x - 1) / x,
                    x >= 1,
                    gap >= 1,
            ;
            lemma_tallied_gold(
                w.bought,
                WishView {
                    code: items[p.item].code@,
                    skill: WISHLIST_SKILLS@[p.skill]@,
                    crafts: n,
                    cost,
                    xp: p.xp * n,
                },
            );
        }
    }
}

proof fn lemma_round_honest(w: Wishing, items: Seq<Item>, xp: Seq<i32>, who: Character)
    requires
        w.gaps.len() == 4,
        xp.len() == items.len(),
        ledger_sound(w.ledger),
    ensures
        wish_round(w, items, xp, who) matches Some(next) ==> way_is_honest(
            w.ledger,
            Some((w.budget - next.budget, next.ledger)),
        ),
{
    lemma_best_is_open(w, 4, items, xp, who);
    if let Some(p) = best_option(w, 4, items, xp, who) {
        let ings = recipe(items[p.item]).items@;
        lemma_all_honest(
            0,
            ings,
            batch_size(w, p, items),
            items,
            who,
            w.ledger,
        );
        lemma_all_honest(0, ings, 1, items, who, w.ledger);
    }
}

proof fn lemma_rounds_honest(
    w: Wishing,
    rounds: nat,
    items: Seq<Item>,
    xp: Seq<i32>,
    who: Character,
)
    requires
        w.gaps.len() == 4,
        xp.len() == items.len(),
        ledger_sound(w.ledger),
    ensures
        ({
            let end = wish_rounds(w, rounds, items, xp, who);
            way_is_honest(w.ledger, Some((w.budget - end.budget, end.ledger)))
        }),
    decreases rounds,
{
    if rounds > 0 {
        lemma_round_honest(w, items, xp, who);
        lemma_best_is_open(w, 4, items, xp, who);
        if let Some(next) = wish_round(w, items, xp, who) {
            assert(next.gaps.len() == w.gaps.len());
            lemma_rounds_honest(next, (rounds - 1) as nat, items, xp, who);
            let end = wish_rounds(w, rounds, items, xp, who);
            lemma_honest_through(
                w.ledger,
                next.ledger,
                end.ledger,
                w.budget - next.budget,
                next.budget - end.budget,
            );
        }
    }
}

/// A whole plan accounts for every coin: what it spends is exactly what the sell orders have been
/// claimed for, nothing is sold twice, and no stock falls below nothing. `codes` lists the items
/// sold, in any order.
pub proof fn law_plan_accounts_for_all_gold(
    ledger: LedgerView,
    gold: int,
    steps: Seq<StepView>,
    gaps: Seq<int>,
    rounds: nat,
    items: Seq<Item>,
    xp: Seq<i32>,
    who: Character,
    codes: Seq<Seq<char>>,
)
    requires
        ledger_sound(ledger),
        lists_books(codes, ledger),
        gaps.len() == 4,
        xp.len() == items.len(),
    ensures
        ({
            let b = buy_steps(ledger, gold, steps, steps.len() as int, items, who);
            let start = Wishing {
                ledger: b.ledger,
                budget: b.budget,
                gaps,
                bought: Seq::empty(),
            };
            let end = wish_rounds(start, rounds, items, xp, who);
            &&& ledger_sound(end.ledger)
            &&& drawn_down(ledger, end.ledger)
            &&& gold_claimed(end.ledger.books, codes, codes.len() as int) == gold_claimed(
                ledger.books,
                codes,
                codes.len() as int,
            ) + (gold - end.budget)
        }),
{
    let b = buy_steps(ledger, gold, steps, steps.len() as int, items, who);
    let start = Wishing { ledger: b.ledger, budget: b.budget, gaps, bought: Seq::empty() };
    let end = wish_rounds(start, rounds, items, xp, who);
    lemma_upgrades_honest(ledger, gold, steps, steps.len() as int, items, who);
    lemma_rounds_honest(start, rounds, items, xp, who);
    lemma_honest_through(
        ledger,
        b.ledger,
        end.ledger,
        gold - b.budget,
        b.budget - end.budget,
    );
}

/// The wishlist plan never exceeds its budget, accounts for every coin, and leaves the ledger
/// sound.
pub proof fn law_wishes_stay_within_budget(
    w: Wishing,
    rounds: nat,
    items: Seq<Item>,
    xp: Seq<i32>,
    who: Character,
)
    requires
        w.gaps.len() == 4,
        xp.len() == items.len(),
        0 <= w.budget,
        ledger_sound(w.ledger),
    ensures
        ({
            let end = wish_rounds(w, rounds, items, xp, who);
            &&& end.budget >= 0
            &&& ledger_sound(end.ledger)
            &&& wish_gold(end.bought, end.bought.len() as int) - wish_gold(
                w.bought,
                w.bought.len() as int,
            ) == w.budget - end.budget
        }),
    decreases rounds,
{
    if rounds > 0 {
        law_round_closes_a_gap_once(w, items, xp, who);
        if let Some(next) = wish_round(w, items, xp, who) {
            law_wishes_stay_within_budget(next, (rounds - 1) as nat, items, xp, who);
        }
    }
}

/// Whether one of the first `n` ingredients is `c`.
pub open spec fn lists(ings: Seq<CraftIngredient>, n: int, c: Seq<char>) -> bool {
    exists|i: int| 0 <= i < n && (#[trigger] ings[i]).code@ == c
}

/// Whether some recipe takes `c`.
pub open spec fn is_an_ingredient(items: Seq<Item>, c: Seq<char>) -> bool {
    exists|j: int|
        0 <= j < items.len() && (#[trigger] items[j]).craft is Some && lists(
            recipe(items[j]).items@,
            recipe(items[j]).items@.len() as int,
            c,
        )
}

/// Neither the bank's stock of `c` nor its orders differ.
pub open spec fn untouched(a: LedgerView, b: LedgerView, c: Seq<char>) -> bool {
    &&& stock(a.bank, c) == stock(b.bank, c)
    &&& a.books.contains_key(c) == b.books.contains_key(c)
    &&& a.books.contains_key(c) ==> a.books[c] == b.books[c]
}

proof fn lemma_shallow_leaves_others(
    ings: Seq<CraftIngredient>,
    times: int,
    items: Seq<Item>,
    who: Character,
    l: LedgerView,
    c: Seq<char>,
)
    requires
        !lists(ings, ings.len() as int, c),
    ensures
        acquire_all(0, ings, times, items, who, l) matches Some(way) ==> untouched(way.1, l, c),
    decreases ings.len(),
{
    if ings.len() > 0 {
        let rest = ings.drop_last();
        let ing = ings.last();
        assert(ings[ings.len() - 1].code@ != c);
        assert(!lists(rest, rest.len() as int, c)) by {
            if lists(rest, rest.len() as int, c) {
                let i = choose|i: int| 0 <= i < rest.len() && (#[trigger] rest[i]).code@ == c;
                assert(ings[i].code@ == c);
            }
        }
        lemma_shallow_leaves_others(rest, times, items, who, l, c);
        if let Some((_, l1)) = acquire_all(0, rest, times, items, who, l) {
            let qty = ing.quantity * times;
            if qty > 0 {
                lemma_shallow_is_buying(ing.code@, qty, items, who, l1);
                if by_buying(ing.code@, qty, l1) is Some {
                    lemma_buying_touches_one(ing.code@, qty, l1, c);
                }
            }
        }
    }
}

/// Only ingredients are ever bought for the wishlist: whatever no recipe takes, a finished wishlist
/// item among it, is neither bought nor drawn from the bank, however cheap it is. Having it would
/// give no XP.
pub proof fn law_finished_items_are_never_bought(
    w: Wishing,
    rounds: nat,
    items: Seq<Item>,
    xp: Seq<i32>,
    who: Character,
    c: Seq<char>,
)
    requires
        xp.len() == items.len(),
        !is_an_ingredient(items, c),
    ensures
        untouched(wish_rounds(w, rounds, items, xp, who).ledger, w.ledger, c),
    decreases rounds,
{
    if rounds > 0 {
        lemma_best_is_open(w, 4, items, xp, who);
        if let Some(next) = wish_round(w, items, xp, who) {
            let p = best_option(w, 4, items, xp, who)->Some_0;
            let ings = recipe(items[p.item]).items@;
            assert(items[p.item].craft is Some);
            assert(!lists(ings, ings.len() as int, c));
            lemma_shallow_leaves_others(
                ings,
                batch_size(w, p, items),
                items,
                who,
                w.ledger,
                c,
            );
            lemma_shallow_leaves_others(ings, 1, items, who, w.ledger, c);
            law_finished_items_are_never_bought(next, (rounds - 1) as nat, items, xp, who, c);
        }
    }
}

} // verus!
