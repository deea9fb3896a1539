//! What recycling a crafted item gives back.

use vstd::prelude::*;

use crate::arith::{max_i32, max_int, sat_i32};
use crate::table::Table;
use crate::text::same;
use crate::types::{CraftInfo, CraftIngredient, Item};

verus! {

/// The skills whose items are recycled for the wishlist.
pub open spec fn is_gear_skill(skill: Seq<char>) -> bool {
    skill == "weaponcrafting"@ || skill == "gearcrafting"@ || skill == "jewelrycrafting"@
}

/// Only weaponcrafting, gearcrafting and jewelrycrafting items count as recyclable for the
/// wishlist; alchemy items never do, whatever `item.recyclable` says.
pub fn is_recyclable_for_wishlist(item: &Item, skill: &str) -> (r: bool)
    ensures
        r == (item.recyclable && is_gear_skill(skill@)),
{
    item.recyclable && (same(skill, "weaponcrafting") || same(skill, "gearcrafting") || same(
        skill,
        "jewelrycrafting",
    ))
}

/// The total quantity of a recipe's ingredients.
pub open spec fn ingredient_total(items: Seq<CraftIngredient>) -> int
    decreases items.len(),
{
    if items.len() == 0 {
        0
    } else {
        ingredient_total(items.drop_last()) + items.last().quantity
    }
}

/// The total quantity of a recipe's ingredients; it stays at the edge of the 32-bit range where it
/// would leave it.
pub fn recipe_ingredient_count(craft: &CraftInfo) -> (r: i32)
    ensures
        r == sat_i32(ingredient_total(craft.items@)),
{
    let mut total: i128 = 0;
    let mut i: usize = 0;
    let n: usize = craft.items.len();
    let ghost ings = craft.items@;
    while i < n
        invariant
            i <= n,
            n == ings.len(),
            ings == craft.items@,
            total == ingredient_total(ings.take(i as int)),
            -0x8000_0000 * i <= total <= 0x8000_0000 * i,
        decreases ings.len() - i,
    {
        proof {
            assert(ings.take(i + 1).drop_last() =~= ings.take(i as int));
        }
        total = total + craft.items[i].quantity as i128;
        i += 1;
    }
    assert(ings.take(i as int) =~= ings);
    if total > i32::MAX as i128 {
        i32::MAX
    } else if total < i32::MIN as i128 {
        i32::MIN
    } else {
        total as i32
    }
}

/// How many materials one recycled item gives back, for a recipe of `n` materials in all: one for
/// every five begun, at least one.
pub open spec fn recycle_return(n: int) -> int {
    (max_int(n, 1) - 1) / 5 + 1
}

/// How many materials one recycled item gives back without enhancement.
pub fn recycle_return_quantity(craft: &CraftInfo) -> (r: i32)
    ensures
        r == recycle_return(sat_i32(ingredient_total(craft.items@))),
{
    let n: i32 = max_i32(recipe_ingredient_count(craft), 1);
    (n - 1) / 5 + 1
}

/// A recipe of `n` materials gives back at least one of them and never more than it took, and
/// every five materials more give back one more.
pub proof fn law_recycling_never_multiplies(n: int)
    requires
        n >= 1,
    ensures
        1 <= recycle_return(n) <= n,
        recycle_return(n + 5) == recycle_return(n) + 1,
        5 * (recycle_return(n) - 1) < n <= 5 * recycle_return(n),
{
}

/// The shares of an item's recycling return, by ingredient: the last mention of a code counts.
pub open spec fn return_shares(items: Seq<CraftIngredient>, returned: int, total: int) -> Map<
    Seq<char>,
    (i64, i64),
>
    decreases items.len(),
{
    if items.len() == 0 {
        Map::empty()
    } else {
        return_shares(items.drop_last(), returned, total).insert(
            items.last().code@,
            ((returned * items.last().quantity) as i64, total as i64),
        )
    }
}

/// The expected quantity of each ingredient that recycling one crafted item returns, as a
/// fraction: the returned total spread over the ingredients by their share of the recipe.
pub fn recycle_returns_per_ingredient(craft: &CraftInfo) -> (r: Table<(i64, i64)>)
    ensures
        r.wf(),
        r@ == return_shares(
            craft.items@,
            recycle_return(sat_i32(ingredient_total(craft.items@))),
            max_int(sat_i32(ingredient_total(craft.items@)), 1),
        ),
{
    let total: i32 = max_i32(recipe_ingredient_count(craft), 1);
    let returned: i32 = recycle_return_quantity(craft);
    let mut out: Table<(i64, i64)> = Table::new();
    let mut i: usize = 0;
    while i < craft.items.len()
        invariant
            i <= craft.items@.len(),
            out.wf(),
            out@ == return_shares(craft.items@.take(i as int), returned as int, total as int),
        decreases craft.items@.len() - i,
    {
        proof {
            assert(craft.items@.take(i + 1).drop_last() =~= craft.items@.take(i as int));
            let q = craft.items@[i as int].quantity;
            assert(i64::MIN <= returned * q <= i64::MAX) by (nonlinear_arith)
                requires
                    i32::MIN <= returned <= i32::MAX,
                    i32::MIN <= q <= i32::MAX,
            ;
        }
        let share: i64 = returned as i64 * craft.items[i].quantity as i64;
        out.insert(craft.items[i].code.clone(), (share, total as i64));
        i += 1;
    }
    assert(craft.items@.take(i as int) =~= craft.items@);
    out
}

} // verus!
