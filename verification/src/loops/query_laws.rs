//! What holds of the codes whose prices are asked for.

use vstd::prelude::*;

use super::crafting_plan::EntryView;
use super::price_queries::{
    goes_into, in_craft_tree, is_ingredient, ranking_needs, slots_need, upgrades_need, wishes_need,
};
use super::repositioning::is_wanted;
use crate::flags::StateView;
use crate::types::{item_named, Item};

verus! {

/// Whether the recipe of `a` names `b` among its ingredients.
pub open spec fn names(items: Seq<Item>, a: Seq<char>, b: Seq<char>) -> bool {
    item_named(items, a) matches Some(item) && (item.craft matches Some(craft) && exists|j: int|
        0 <= j < craft.items@.len() && (#[trigger] craft.items@[j]).code@ == b)
}

/// The ingredients of an item are those that its own recipe names.
pub proof fn law_ingredients_are_what_the_recipe_names(
    items: Seq<Item>,
    a: Seq<char>,
    b: Seq<char>,
)
    ensures
        is_ingredient(items, a, b) <==> names(items, a, b),
{
}

proof fn lemma_goes_further(items: Seq<Item>, a: Seq<char>, b: Seq<char>, c: Seq<char>, n: nat)
    requires
        goes_into(items, a, b, n),
        is_ingredient(items, b, c),
    ensures
        goes_into(items, a, c, n + 1),
    decreases n,
{
    if n == 0 {
        assert(goes_into(items, c, c, 0));
        assert(is_ingredient(items, a, c));
    } else {
        let m = choose|m: Seq<char>| #[trigger]
            is_ingredient(items, a, m) && goes_into(items, m, b, (n - 1) as nat);
        lemma_goes_further(items, m, b, c, (n - 1) as nat);
        assert(is_ingredient(items, a, m) && goes_into(items, m, c, n));
    }
}

proof fn lemma_stays_within(
    items: Seq<Item>,
    a: Seq<char>,
    b: Seq<char>,
    n: nat,
    codes: Set<Seq<char>>,
)
    requires
        goes_into(items, a, b, n),
        codes.contains(a),
        forall|x: Seq<char>, y: Seq<char>|
            codes.contains(x) && #[trigger] names(items, x, y) ==> codes.contains(y),
    ensures
        codes.contains(b),
    decreases n,
{
    if n > 0 {
        let m = choose|m: Seq<char>| #[trigger]
            is_ingredient(items, a, m) && goes_into(items, m, b, (n - 1) as nat);
        assert(names(items, a, m));
        lemma_stays_within(items, m, b, (n - 1) as nat, codes);
    }
}

/// The craft tree of an item holds the item itself and, with anything in it, all that its recipe
/// names.
pub proof fn law_craft_tree_follows_the_recipes(
    items: Seq<Item>,
    a: Seq<char>,
    b: Seq<char>,
    c: Seq<char>,
)
    ensures
        in_craft_tree(items, a, a),
        in_craft_tree(items, a, b) && names(items, b, c) ==> in_craft_tree(items, a, c),
{
    assert(goes_into(items, a, a, 0));
    if in_craft_tree(items, a, b) && names(items, b, c) {
        let n = choose|n: nat| goes_into(items, a, b, n);
        lemma_goes_further(items, a, b, c, n);
    }
}

/// The craft tree of an item holds nothing but that: it lies within every set of codes that holds
/// the item and, with each code, all that its recipe names.
pub proof fn law_craft_tree_holds_no_more(
    items: Seq<Item>,
    a: Seq<char>,
    b: Seq<char>,
    codes: Set<Seq<char>>,
)
    requires
        codes.contains(a),
        forall|x: Seq<char>, y: Seq<char>|
            codes.contains(x) && #[trigger] names(items, x, y) ==> codes.contains(y),
    ensures
        in_craft_tree(items, a, b) ==> codes.contains(b),
{
    if in_craft_tree(items, a, b) {
        let n = choose|n: nat| goes_into(items, a, b, n);
        lemma_stays_within(items, a, b, n, codes);
    }
}

/// Whether a code is ranked for a slot of a rated character.
pub open spec fn is_ranked(s: StateView, m: int, k: int, i: int, code: Seq<char>) -> bool {
    &&& 0 <= m < s.rated.len()
    &&& 0 <= k < s.ratings[s.rated[m]].len()
    &&& 0 <= i < s.ratings[s.rated[m]][k].ranked@.len()
    &&& s.ratings[s.rated[m]][k].ranked@[i].code@ == code
}

/// For upgrades, prices are asked of everything in the craft tree of every item that is ranked for
/// any slot of any rated character, and of nothing else.
pub proof fn law_upgrades_are_priced_with_all_that_goes_into_them(s: StateView, c: Seq<char>)
    ensures
        upgrades_need(s, s.rated.len() as int, c) <==> exists|m: int, k: int, i: int, code: Seq<char>|
            #[trigger] is_ranked(s, m, k, i, code) && in_craft_tree(s.data.items@, code, c),
{
    let items = s.data.items@;
    if upgrades_need(s, s.rated.len() as int, c) {
        let m = choose|m: int|
            0 <= m < s.rated.len() && slots_need(
                items,
                s.ratings[#[trigger] s.rated[m]],
                s.ratings[s.rated[m]].len() as int,
                c,
            );
        let slots = s.ratings[s.rated[m]];
        let k = choose|k: int|
            0 <= k < slots.len() && ranking_needs(
                items,
                (#[trigger] slots[k]).ranked@,
                slots[k].ranked@.len() as int,
                c,
            );
        let ranked = slots[k].ranked@;
        let i = choose|i: int|
            0 <= i < ranked.len() && in_craft_tree(items, (#[trigger] ranked[i]).code@, c);
        assert(is_ranked(s, m, k, i, ranked[i].code@));
    }
    if exists|m: int, k: int, i: int, code: Seq<char>| #[trigger]
        is_ranked(s, m, k, i, code) && in_craft_tree(items, code, c) {
        let (m, k, i, code) = choose|m: int, k: int, i: int, code: Seq<char>| #[trigger]
            is_ranked(s, m, k, i, code) && in_craft_tree(items, code, c);
        let slots = s.ratings[s.rated[m]];
        let ranked = slots[k].ranked@;
        assert(in_craft_tree(items, ranked[i].code@, c));
        assert(ranking_needs(items, ranked, ranked.len() as int, c));
        assert(slots_need(items, slots, slots.len() as int, c));
    }
}

/// For the wishlist, prices are asked of what the wishlisted recipes name directly.
pub proof fn law_wishes_are_priced_by_their_ingredients(
    items: Seq<Item>,
    wishes: Seq<EntryView>,
    c: Seq<char>,
)
    ensures
        wishes_need(items, wishes, wishes.len() as int, c) <==> exists|i: int|
            0 <= i < wishes.len() && names(items, (#[trigger] wishes[i]).code, c),
{
    if wishes_need(items, wishes, wishes.len() as int, c) {
        let i = choose|i: int|
            0 <= i < wishes.len() && is_ingredient(items, (#[trigger] wishes[i]).code, c);
        assert(names(items, wishes[i].code, c));
    }
    if exists|i: int| 0 <= i < wishes.len() && names(items, (#[trigger] wishes[i]).code, c) {
        let i = choose|i: int| 0 <= i < wishes.len() && names(items, (#[trigger] wishes[i]).code, c);
        assert(is_ingredient(items, wishes[i].code, c));
    }
}

/// A fighter that farms for the wishlist is after what the wishlisted recipes name directly.
pub proof fn law_wanted_drops_are_ingredients(items: Seq<Item>, wishes: Seq<String>, c: Seq<char>)
    ensures
        is_wanted(items, wishes, wishes.len() as int, c) <==> exists|i: int|
            0 <= i < wishes.len() && names(items, (#[trigger] wishes[i])@, c),
{
    if is_wanted(items, wishes, wishes.len() as int, c) {
        let i = choose|i: int|
            0 <= i < wishes.len() && is_ingredient(items, (#[trigger] wishes[i])@, c);
        assert(names(items, wishes[i]@, c));
    }
    if exists|i: int| 0 <= i < wishes.len() && names(items, (#[trigger] wishes[i])@, c) {
        let i = choose|i: int| 0 <= i < wishes.len() && names(items, (#[trigger] wishes[i])@, c);
        assert(is_ingredient(items, wishes[i]@, c));
    }
}

} // verus!
