//! The cheapest way to come by an item: from the bank, by buying it, or by crafting it from
//! ingredients that are come by in the same way.

use vstd::prelude::*;

use super::market::{claimed, drawn, ledger_after, sells, Ledger, LedgerView};
use crate::arith::{ceil_div, fits_i32, max_int};
use crate::optimize::skills::{level_in, skill_level};
use crate::types::{find_item, recipe_of, Character, CraftInfo, CraftIngredient, Item};

verus! {

/// What something costs and the ledger that having it leaves.
pub type Outcome = Option<(int, LedgerView)>;

/// Having `qty` of `code` from the bank's free stock and by buying the rest.
pub open spec fn by_buying(code: Seq<char>, qty: int, l: LedgerView) -> Outcome {
    let (rest, d) = drawn(l, code, qty);
    if !fits_i32(rest) {
        None
    } else if rest == 0 {
        Some((0, d))
    } else if sells(d, code, rest) {
        Some((claimed(d.books[code].tiers, rest).1, ledger_after(d, code, rest)))
    } else {
        None
    }
}

/// Whether `who` can follow a recipe: it names a skill, and `who` has the level it asks for.
pub open spec fn can_follow(who: Character, craft: CraftInfo) -> bool {
    craft.skill matches Some(skill) && (craft.level matches Some(req) ==> level_in(who, skill@)
        >= req)
}

/// How many crafts it takes to make `qty`.
pub open spec fn crafts_for(craft: CraftInfo, qty: int) -> int {
    ceil_div(qty, max_int(craft.quantity as int, 1))
}

/// Having `qty` of `code` from the bank's free stock and by crafting the rest, at most `depth`
/// recipes deep.
pub open spec fn by_crafting(
    depth: nat,
    code: Seq<char>,
    qty: int,
    items: Seq<Item>,
    who: Character,
    l: LedgerView,
) -> Outcome
    decreases depth, 0nat, 0nat,
{
    let (rest, d) = drawn(l, code, qty);
    if !fits_i32(rest) {
        None
    } else if rest == 0 {
        Some((0, d))
    } else if depth == 0 {
        None
    } else {
        match recipe_of(items, code) {
            Some(craft) => if can_follow(who, craft) {
                acquire_all(
                    (depth - 1) as nat,
                    craft.items@,
                    crafts_for(craft, rest),
                    items,
                    who,
                    d,
                )
            } else {
                None
            },
            None => None,
        }
    }
}

/// The cheaper of two ways; the first where they cost the same.
pub open spec fn cheaper(a: Outcome, b: Outcome) -> Outcome {
    match (a, b) {
        (Some(x), Some(y)) => if y.0 < x.0 {
            b
        } else {
            a
        },
        (Some(_), None) => a,
        _ => b,
    }
}

/// The cheapest way to have `qty` more of `code`: free stock first, then either buying or crafting
/// all of the rest, at most `depth` recipes deep. None where it cannot be had in full.
pub open spec fn acquire(
    depth: nat,
    code: Seq<char>,
    qty: int,
    items: Seq<Item>,
    who: Character,
    l: LedgerView,
) -> Outcome
    decreases depth, 1nat, 0nat,
{
    if qty <= 0 {
        Some((0, l))
    } else {
        cheaper(by_buying(code, qty, l), by_crafting(depth, code, qty, items, who, l))
    }
}

/// The cheapest way to have the ingredients of `times` crafts, one after the other.
pub open spec fn acquire_all(
    depth: nat,
    ingredients: Seq<CraftIngredient>,
    times: int,
    items: Seq<Item>,
    who: Character,
    l: LedgerView,
) -> Outcome
    decreases depth, 2nat, ingredients.len(),
{
    if ingredients.len() == 0 {
        Some((0, l))
    } else {
        let ing = ingredients.last();
        match acquire_all(depth, ingredients.drop_last(), times, items, who, l) {
            Some((total, l1)) => if fits_i32(ing.quantity * times) {
                match acquire(depth, ing.code@, ing.quantity * times, items, who, l1) {
                    Some((cost, l2)) => if fits_i32(total + cost) {
                        Some((total + cost, l2))
                    } else {
                        None
                    },
                    None => None,
                }
            } else {
                None
            },
            None => None,
        }
    }
}

/// A cost and a ledger, as mathematical values.
pub open spec fn outcome(r: Option<(i32, Ledger)>) -> Outcome {
    match r {
        Some((cost, l)) => Some((cost as int, l@)),
        None => None,
    }
}

/// Whether `who` can follow a recipe.
pub fn follows(who: &Character, craft: &CraftInfo) -> (r: bool)
    ensures
        r == can_follow(*who, *craft),
{
    match &craft.skill {
        Some(skill) => match craft.level {
            Some(req) => skill_level(who, skill) >= req,
            None => true,
        },
        None => false,
    }
}

/// How many crafts it takes to make `qty`.
pub fn crafts_needed(craft: &CraftInfo, qty: i32) -> (r: i32)
    requires
        qty > 0,
    ensures
        r == crafts_for(*craft, qty as int),
        1 <= r <= qty,
{
    let per: i64 = if craft.quantity >= 1 {
        craft.quantity as i64
    } else {
        1
    };
    let n: i64 = (qty as i64 + per - 1) / per;
    proof {
        assert(1 <= n <= qty) by (nonlinear_arith)
            requires
                n == (qty + per - 1) / per as int,
                per >= 1,
                qty >= 1,
        ;
    }
    n as i32
}

/// The cheapest way to have `qty` of `code`, as deep as recipes can go.
pub fn cheapest_way(code: &str, qty: i32, items: &[Item], who: &Character, ledger: &Ledger) -> (r:
    Option<(i32, Ledger)>)
    requires
        ledger.wf(),
    ensures
        r matches Some((_, l)) ==> l.wf(),
        outcome(r) == acquire(items@.len(), code@, qty as int, items@, *who, ledger@),
{
    acquire_within(items.len(), code, qty, items, who, ledger)
}

/// The cheapest way to have the ingredients of `times` crafts from the bank and by buying them,
/// none of them crafted.
pub fn ingredients_for(
    craft: &CraftInfo,
    times: i32,
    items: &[Item],
    who: &Character,
    ledger: &Ledger,
) -> (r: Option<(i32, Ledger)>)
    requires
        ledger.wf(),
    ensures
        r matches Some((_, l)) ==> l.wf(),
        outcome(r) == acquire_all(0, craft.items@, times as int, items@, *who, ledger@),
{
    acquire_ingredients(0, craft, times, items, who, ledger)
}

/// The cheapest way to have `qty` of `code`, at most `depth` recipes deep.
fn acquire_within(
    depth: usize,
    code: &str,
    qty: i32,
    items: &[Item],
    who: &Character,
    ledger: &Ledger,
) -> (r: Option<(i32, Ledger)>)
    requires
        ledger.wf(),
    ensures
        r matches Some((_, l)) ==> l.wf(),
        outcome(r) == acquire(depth as nat, code@, qty as int, items@, *who, ledger@),
    decreases depth, 1nat,
{
    if qty <= 0 {
        return Some((0, ledger.copied()));
    }
    let mut bought: Ledger = ledger.copied();
    let rest: i32 = match bought.draw(code, qty) {
        Some(rest) => rest,
        None => {
            return None;
        },
    };
    if rest == 0 {
        return Some((0, bought));
    }
    let crafted: Option<(i32, Ledger)> = if depth == 0 {
        None
    } else {
        craft_within(depth, code, rest, items, who, &bought)
    };
    let ghost d = bought@;
    let price: Option<i32> = bought.buy(code, rest);
    assert(rest != 0);
    match (price, crafted) {
        (Some(b), Some((c, l))) => if c < b {
            Some((c, l))
        } else {
            Some((b, bought))
        },
        (Some(b), None) => Some((b, bought)),
        (None, way) => way,
    }
}

/// The cheapest way to have what crafting `rest` of `code` takes.
fn craft_within(
    depth: usize,
    code: &str,
    rest: i32,
    items: &[Item],
    who: &Character,
    ledger: &Ledger,
) -> (r: Option<(i32, Ledger)>)
    requires
        depth > 0,
        rest > 0,
        ledger.wf(),
    ensures
        r matches Some((_, l)) ==> l.wf(),
        outcome(r) == (match recipe_of(items@, code@) {
            Some(craft) => if can_follow(*who, craft) {
                acquire_all(
                    (depth - 1) as nat,
                    craft.items@,
                    crafts_for(craft, rest as int),
                    items@,
                    *who,
                    ledger@,
                )
            } else {
                None
            },
            None => None,
        }),
    decreases depth, 0nat,
{
    let k: usize = match find_item(items, code) {
        Some(k) => k,
        None => {
            return None;
        },
    };
    let craft: &CraftInfo = match &items[k].craft {
        Some(craft) => craft,
        None => {
            return None;
        },
    };
    if !follows(who, craft) {
        return None;
    }
    let times: i32 = crafts_needed(craft, rest);
    acquire_ingredients(depth - 1, craft, times, items, who, ledger)
}

/// The cheapest way to have the ingredients of `times` crafts, at most `depth` recipes deep.
fn acquire_ingredients(
    depth: usize,
    craft: &CraftInfo,
    times: i32,
    items: &[Item],
    who: &Character,
    ledger: &Ledger,
) -> (r: Option<(i32, Ledger)>)
    requires
        ledger.wf(),
    ensures
        r matches Some((_, l)) ==> l.wf(),
        outcome(r) == acquire_all(depth as nat, craft.items@, times as int, items@, *who, ledger@),
    decreases depth, 2nat,
{
    let mut trial: Ledger = ledger.copied();
    let mut total: i32 = 0;
    let ghost ings = craft.items@;
    let mut i: usize = 0;
    while i < craft.items.len()
        invariant
            i <= craft.items@.len(),
            ings == craft.items@,
            trial.wf(),
            acquire_all(depth as nat, ings.take(i as int), times as int, items@, *who, ledger@)
                == Some((total as int, trial@)),
        decreases ings.len() - i,
    {
        let ing: &CraftIngredient = &craft.items[i];
        proof {
            assert(ings.take(i + 1).drop_last() =~= ings.take(i as int));
            assert(ings.take(i + 1).last() == ings[i as int]);
            let q = ing.quantity;
            assert(i64::MIN <= q * times <= i64::MAX) by (nonlinear_arith)
                requires
                    i32::MIN <= q <= i32::MAX,
                    i32::MIN <= times <= i32::MAX,
            ;
        }
        let wanted: i64 = ing.quantity as i64 * times as i64;
        let step: Option<(i32, Ledger)> = if i32::MIN as i64 <= wanted && wanted <= i32::MAX as i64 {
            acquire_within(depth, &ing.code, wanted as i32, items, who, &trial)
        } else {
            None
        };
        let step: Option<(i32, Ledger)> = match step {
            Some((cost, l)) => match total.checked_add(cost) {
                Some(sum) => Some((sum, l)),
                None => None,
            },
            None => None,
        };
        assert(outcome(step) == acquire_all(
            depth as nat,
            ings.take(i + 1),
            times as int,
            items@,
            *who,
            ledger@,
        ));
        match step {
            Some((sum, l)) => {
                total = sum;
                trial = l;
            },
            None => {
                proof {
                    lemma_failure_stays(depth as nat, ings, times as int, items@, *who, ledger@, i + 1);
                }
                return None;
            },
        }
        i += 1;
    }
    assert(ings.take(i as int) =~= ings);
    Some((total, trial))
}

/// Once one ingredient cannot be had, all of them together cannot.
proof fn lemma_failure_stays(
    depth: nat,
    ings: Seq<CraftIngredient>,
    times: int,
    items: Seq<Item>,
    who: Character,
    l: LedgerView,
    n: int,
)
    requires
        0 <= n <= ings.len(),
        acquire_all(depth, ings.take(n), times, items, who, l) is None,
    ensures
        acquire_all(depth, ings, times, items, who, l) is None,
    decreases ings.len() - n,
{
    if n == ings.len() {
        assert(ings.take(n) =~= ings);
    } else {
        assert(ings.take(n + 1).drop_last() =~= ings.take(n));
        lemma_failure_stays(depth, ings, times, items, who, l, n + 1);
    }
}

} // verus!
