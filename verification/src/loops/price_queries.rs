//! Which items a purchase plan may need prices for.

use vstd::prelude::*;

use super::crafting_plan::{build_wishlist, code_set, entry_views, insert_code, wishlist, CraftPlanEntry, EntryView};
use crate::api::GameData;
use crate::flags::{ratings_in, GameState, StateView};
use crate::optimize::slot_rating::{RankedItem, SlotRating};
use crate::table::Table;
use crate::text::{contains_code, has_code};
use crate::types::{find_item, recipe_of, Character, CraftInfo, CraftIngredient, Item};

verus! {

/// Whether the recipe of `a` takes `b`.
pub open spec fn is_ingredient(items: Seq<Item>, a: Seq<char>, b: Seq<char>) -> bool {
    recipe_of(items, a) matches Some(craft) && is_listed(
        craft.items@,
        craft.items@.len() as int,
        b,
    )
}

/// Whether `b` goes into `a`, `n` recipes down.
pub open spec fn goes_into(items: Seq<Item>, a: Seq<char>, b: Seq<char>, n: nat) -> bool
    decreases n,
{
    if n == 0 {
        a == b
    } else {
        exists|m: Seq<char>| #[trigger]
            is_ingredient(items, a, m) && goes_into(items, m, b, (n - 1) as nat)
    }
}

/// Whether `b` is `a` itself or goes into it, however many recipes down.
pub open spec fn in_craft_tree(items: Seq<Item>, a: Seq<char>, b: Seq<char>) -> bool {
    exists|n: nat| goes_into(items, a, b, n)
}

/// Whatever goes into a listed item is listed.
pub open spec fn is_complete(items: Seq<Item>, seen: Seq<String>) -> bool {
    forall|a: Seq<char>, b: Seq<char>|
        has_code(seen, a) && #[trigger] is_ingredient(items, a, b) ==> has_code(seen, b)
}

/// How many of the first `n` items are not listed.
pub open spec fn unseen(items: Seq<Item>, seen: Seq<String>, n: int) -> nat
    decreases n,
{
    if n <= 0 {
        0
    } else {
        unseen(items, seen, n - 1) + if has_code(seen, items[n - 1].code@) {
            0nat
        } else {
            1nat
        }
    }
}

proof fn lemma_unseen_shrinks(items: Seq<Item>, a: Seq<String>, b: Seq<String>, n: int)
    requires
        0 <= n <= items.len(),
        forall|c: Seq<char>| has_code(a, c) ==> has_code(b, c),
    ensures
        unseen(items, b, n) <= unseen(items, a, n),
        forall|j: int|
            0 <= j < n && !has_code(a, (#[trigger] items[j]).code@) && has_code(b, items[j].code@)
                ==> unseen(items, b, n) < unseen(items, a, n),
    decreases n,
{
    if n > 0 {
        lemma_unseen_shrinks(items, a, b, n - 1);
    }
}

proof fn lemma_tree_step(items: Seq<Item>, a: Seq<char>, m: Seq<char>, b: Seq<char>)
    requires
        is_ingredient(items, a, m),
        in_craft_tree(items, m, b),
    ensures
        in_craft_tree(items, a, b),
{
    let n = choose|n: nat| goes_into(items, m, b, n);
    assert(goes_into(items, a, b, n + 1));
}

proof fn lemma_complete_reaches(
    items: Seq<Item>,
    seen: Seq<String>,
    a: Seq<char>,
    b: Seq<char>,
    n: nat,
)
    requires
        is_complete(items, seen),
        has_code(seen, a),
        goes_into(items, a, b, n),
    ensures
        has_code(seen, b),
    decreases n,
{
    if n > 0 {
        let m = choose|m: Seq<char>| #[trigger]
            is_ingredient(items, a, m) && goes_into(items, m, b, (n - 1) as nat);
        lemma_complete_reaches(items, seen, m, b, (n - 1) as nat);
    }
}

/// Lists `code` and everything that goes into it, however many recipes down. What is listed
/// already is not followed again.
pub fn collect_craft_tree_codes(code: &str, data: &GameData, seen: &mut Vec<String>)
    ensures
        forall|c: Seq<char>| has_code(old(seen)@, c) ==> has_code(final(seen)@, c),
        has_code(final(seen)@, code@),
        forall|c: Seq<char>|
            has_code(final(seen)@, c) && !has_code(old(seen)@, c) ==> in_craft_tree(
                data.items@,
                code@,
                c,
            ),
        forall|c: Seq<char>, d: Seq<char>|
            has_code(final(seen)@, c) && !has_code(old(seen)@, c) && #[trigger] is_ingredient(
                data.items@,
                c,
                d,
            ) ==> has_code(final(seen)@, d),
    decreases unseen(data.items@, old(seen)@, data.items@.len() as int),
{
    if contains_code(seen, code) {
        return ;
    }
    let ghost before = seen@;
    insert_code(seen, code);
    let ghost n = data.items@.len() as int;
    proof {
        assert(code_set(seen@) == code_set(before).insert(code@));
        assert forall|c: Seq<char>| has_code(seen@, c) == (has_code(before, c) || c == code@) by {
            assert(code_set(seen@).contains(c) == code_set(before).insert(code@).contains(c));
        }
        assert(goes_into(data.items@, code@, code@, 0));
        assert(in_craft_tree(data.items@, code@, code@));
    }
    let k: usize = match find_item(&data.items, code) {
        Some(k) => k,
        None => {
            return ;
        },
    };
    let craft: &CraftInfo = match &data.items[k].craft {
        Some(craft) => craft,
        None => {
            return ;
        },
    };
    proof {
        lemma_unseen_shrinks(data.items@, before, seen@, n);
        assert(data.items@[k as int].code@ == code@);
    }
    let mut i: usize = 0;
    while i < craft.items.len()
        invariant
            i <= craft.items@.len(),
            before == old(seen)@,
            n == data.items@.len(),
            !has_code(before, code@),
            recipe_of(data.items@, code@) == Some(*craft),
            has_code(seen@, code@),
            forall|c: Seq<char>| has_code(before, c) ==> has_code(seen@, c),
            unseen(data.items@, seen@, n) < unseen(data.items@, before, n),
            forall|c: Seq<char>|
                has_code(seen@, c) && !has_code(before, c) ==> in_craft_tree(
                    data.items@,
                    code@,
                    c,
                ),
            forall|c: Seq<char>, d: Seq<char>|
                c != code@ && has_code(seen@, c) && !has_code(before, c)
                    && #[trigger] is_ingredient(data.items@, c, d) ==> has_code(seen@, d),
            forall|j: int| 0 <= j < i ==> has_code(seen@, (#[trigger] craft.items@[j]).code@),
        decreases craft.items@.len() - i,
    {
        let ghost mid = seen@;
        let ing: &CraftIngredient = &craft.items[i];
        collect_craft_tree_codes(&ing.code, data, seen);
        proof {
            assert(is_ingredient(data.items@, code@, ing.code@));
            lemma_unseen_shrinks(data.items@, mid, seen@, n);
            assert forall|c: Seq<char>| has_code(seen@, c) && !has_code(before, c) implies in_craft_tree(
                data.items@,
                code@,
                c,
            ) by {
                if !has_code(mid, c) {
                    lemma_tree_step(data.items@, code@, ing.code@, c);
                }
            }
        }
        i += 1;
    }
}

/// Whether one of the first `n` entries of a ranking has `c` in its craft tree.
pub open spec fn ranking_needs(
    items: Seq<Item>,
    ranked: Seq<RankedItem>,
    n: int,
    c: Seq<char>,
) -> bool {
    exists|i: int| 0 <= i < n && in_craft_tree(items, (#[trigger] ranked[i]).code@, c)
}

/// Whether an upgrade for one of the first `n` slots has `c` in its craft tree.
pub open spec fn slots_need(items: Seq<Item>, slots: Seq<SlotRating>, n: int, c: Seq<char>) -> bool {
    exists|k: int|
        0 <= k < n && ranking_needs(
            items,
            (#[trigger] slots[k]).ranked@,
            slots[k].ranked@.len() as int,
            c,
        )
}

/// Whether an upgrade for one of the first `n` rated characters has `c` in its craft tree.
pub open spec fn upgrades_need(s: StateView, n: int, c: Seq<char>) -> bool {
    exists|m: int|
        0 <= m < n && slots_need(
            s.data.items@,
            s.ratings[#[trigger] s.rated[m]],
            s.ratings[s.rated[m]].len() as int,
            c,
        )
}

/// Whether one of the first `n` wishlisted recipes takes `c`.
pub open spec fn wishes_need(items: Seq<Item>, wishes: Seq<EntryView>, n: int, c: Seq<char>) -> bool {
    exists|i: int| 0 <= i < n && is_ingredient(items, (#[trigger] wishes[i]).code, c)
}

proof fn lemma_tree_added(
    items: Seq<Item>,
    before: Seq<String>,
    after: Seq<String>,
    code: Seq<char>,
)
    requires
        is_complete(items, before),
        forall|c: Seq<char>| has_code(before, c) ==> has_code(after, c),
        has_code(after, code),
        forall|c: Seq<char>|
            has_code(after, c) && !has_code(before, c) ==> in_craft_tree(items, code, c),
        forall|c: Seq<char>, d: Seq<char>|
            has_code(after, c) && !has_code(before, c) && #[trigger] is_ingredient(items, c, d)
                ==> has_code(after, d),
    ensures
        is_complete(items, after),
        forall|c: Seq<char>|
            #[trigger] has_code(after, c) == (has_code(before, c) || in_craft_tree(items, code, c)),
{
    assert forall|a: Seq<char>, b: Seq<char>|
        has_code(after, a) && #[trigger] is_ingredient(items, a, b) implies has_code(after, b) by {
        if has_code(before, a) {
            assert(has_code(before, b));
        }
    }
    assert forall|c: Seq<char>| in_craft_tree(items, code, c) implies has_code(after, c) by {
        let n = choose|n: nat| goes_into(items, code, c, n);
        lemma_complete_reaches(items, after, code, c, n);
    }
}

fn collect_ranking(ranked: &[RankedItem], data: &GameData, codes: &mut Vec<String>)
    requires
        is_complete(data.items@, old(codes)@),
    ensures
        is_complete(data.items@, final(codes)@),
        forall|c: Seq<char>|
            #[trigger] has_code(final(codes)@, c) == (has_code(old(codes)@, c) || ranking_needs(
                data.items@,
                ranked@,
                ranked@.len() as int,
                c,
            )),
{
    let ghost before = codes@;
    let mut i: usize = 0;
    while i < ranked.len()
        invariant
            i <= ranked@.len(),
            is_complete(data.items@, codes@),
            forall|c: Seq<char>|
                #[trigger] has_code(codes@, c) == (has_code(before, c) || ranking_needs(
                    data.items@,
                    ranked@,
                    i as int,
                    c,
                )),
        decreases ranked@.len() - i,
    {
        let ghost mid = codes@;
        collect_craft_tree_codes(&ranked[i].code, data, codes);
        proof {
            lemma_tree_added(data.items@, mid, codes@, ranked@[i as int].code@);
            assert forall|c: Seq<char>|
                #[trigger] has_code(codes@, c) == (has_code(before, c) || ranking_needs(
                    data.items@,
                    ranked@,
                    i + 1,
                    c,
                )) by {
                if in_craft_tree(data.items@, ranked@[i as int].code@, c) {
                    assert(ranking_needs(data.items@, ranked@, i + 1, c));
                }
                if ranking_needs(data.items@, ranked@, i as int, c) {
                    let j = choose|j: int|
                        0 <= j < i && in_craft_tree(data.items@, (#[trigger] ranked@[j]).code@, c);
                    assert(in_craft_tree(data.items@, ranked@[j].code@, c));
                }
                if ranking_needs(data.items@, ranked@, i + 1, c) {
                    let j = choose|j: int|
                        0 <= j < i + 1 && in_craft_tree(
                            data.items@,
                            (#[trigger] ranked@[j]).code@,
                            c,
                        );
                    if j < i {
                        assert(ranking_needs(data.items@, ranked@, i as int, c));
                    }
                }
            }
        }
        i += 1;
    }
}

fn collect_slots(slots: &[SlotRating], data: &GameData, codes: &mut Vec<String>)
    requires
        is_complete(data.items@, old(codes)@),
    ensures
        is_complete(data.items@, final(codes)@),
        forall|c: Seq<char>|
            #[trigger] has_code(final(codes)@, c) == (has_code(old(codes)@, c) || slots_need(
                data.items@,
                slots@,
                slots@.len() as int,
                c,
            )),
{
    let ghost before = codes@;
    let mut i: usize = 0;
    while i < slots.len()
        invariant
            i <= slots@.len(),
            is_complete(data.items@, codes@),
            forall|c: Seq<char>|
                #[trigger] has_code(codes@, c) == (has_code(before, c) || slots_need(
                    data.items@,
                    slots@,
                    i as int,
                    c,
                )),
        decreases slots@.len() - i,
    {
        let ghost mid = codes@;
        collect_ranking(&slots[i].ranked, data, codes);
        proof {
            let len = slots@[i as int].ranked@.len() as int;
            assert forall|c: Seq<char>|
                #[trigger] has_code(codes@, c) == (has_code(before, c) || slots_need(
                    data.items@,
                    slots@,
                    i + 1,
                    c,
                )) by {
                assert(has_code(codes@, c) == (has_code(mid, c) || ranking_needs(
                    data.items@,
                    slots@[i as int].ranked@,
                    len,
                    c,
                )));
                if slots_need(data.items@, slots@, i as int, c) {
                    let j = choose|j: int|
                        0 <= j < i && ranking_needs(
                            data.items@,
                            (#[trigger] slots@[j]).ranked@,
                            slots@[j].ranked@.len() as int,
                            c,
                        );
                    assert(slots_need(data.items@, slots@, i + 1, c));
                }
                if slots_need(data.items@, slots@, i + 1, c) {
                    let j = choose|j: int|
                        0 <= j < i + 1 && ranking_needs(
                            data.items@,
                            (#[trigger] slots@[j]).ranked@,
                            slots@[j].ranked@.len() as int,
                            c,
                        );
                    if j < i {
                        assert(slots_need(data.items@, slots@, i as int, c));
                    }
                }
            }
        }
        i += 1;
    }
}

fn collect_upgrades(state: &GameState) -> (codes: Vec<String>)
    requires
        state.wf(),
    ensures
        forall|c: Seq<char>|
            #[trigger] has_code(codes@, c) == upgrades_need(state@, state@.rated.len() as int, c),
{
    let mut codes: Vec<String> = Vec::new();
    let data: &GameData = state.data();
    let ratings: &Table<Vec<SlotRating>> = state.all_item_ratings();
    let mut i: usize = 0;
    while i < ratings.len()
        invariant
            i <= ratings.keys().len(),
            *data == state@.data,
            ratings.wf(),
            ratings.keys() == state@.rated,
            ratings_in(ratings@) == state@.ratings,
            is_complete(data.items@, codes@),
            forall|c: Seq<char>| #[trigger] has_code(codes@, c) == upgrades_need(state@, i as int, c),
        decreases ratings.keys().len() - i,
    {
        let ghost mid = codes@;
        let entry = ratings.at(i);
        assert(ratings_in(ratings@)[entry.0@] == entry.1@);
        collect_slots(entry.1, data, &mut codes);
        proof {
            let s = state@;
            assert forall|c: Seq<char>| #[trigger] has_code(codes@, c) == upgrades_need(s, i + 1, c) by {
                assert(s.rated[i as int] == entry.0@);
                assert(has_code(codes@, c) == (has_code(mid, c) || slots_need(
                    s.data.items@,
                    s.ratings[s.rated[i as int]],
                    s.ratings[s.rated[i as int]].len() as int,
                    c,
                )));
                if upgrades_need(s, i as int, c) {
                    let j = choose|j: int|
                        0 <= j < i && slots_need(
                            s.data.items@,
                            s.ratings[#[trigger] s.rated[j]],
                            s.ratings[s.rated[j]].len() as int,
                            c,
                        );
                    assert(upgrades_need(s, i + 1, c));
                }
                if upgrades_need(s, i + 1, c) {
                    let j = choose|j: int|
                        0 <= j < i + 1 && slots_need(
                            s.data.items@,
                            s.ratings[#[trigger] s.rated[j]],
                            s.ratings[s.rated[j]].len() as int,
                            c,
                        );
                    if j < i {
                        assert(upgrades_need(s, i as int, c));
                    }
                }
            }
        }
        i += 1;
    }
    codes
}

/// Every item that a purchase plan may need a price for: the craft tree of every ranked upgrade of
/// every character, and the direct ingredients of every wishlisted recipe.
pub fn collect_ge_query_codes(state: &GameState, character: &Character, craft_xp: &[i32]) -> (codes:
    Vec<String>)
    requires
        state.wf(),
        craft_xp@.len() == state@.data.items@.len(),
    ensures
        ({
            let wishes = wishlist(*character, state@.data.items@, craft_xp@, 4);
            forall|c: Seq<char>|
                #[trigger] has_code(codes@, c) == (upgrades_need(state@, state@.rated.len() as int, c)
                    || wishes_need(state@.data.items@, wishes, wishes.len() as int, c))
        }),
{
    let mut codes: Vec<String> = collect_upgrades(state);
    let ghost before = codes@;
    let wishes: Vec<CraftPlanEntry> = build_wishlist(state, character, craft_xp);
    let ghost views = entry_views(wishes@);
    let items: &Vec<Item> = &state.data().items;
    let mut i: usize = 0;
    while i < wishes.len()
        invariant
            i <= wishes@.len(),
            views == entry_views(wishes@),
            forall|c: Seq<char>|
                #[trigger] has_code(codes@, c) == (has_code(before, c) || wishes_need(
                    items@,
                    views,
                    i as int,
                    c,
                )),
        decreases wishes@.len() - i,
    {
        let ghost mid = codes@;
        assert(views[i as int] == wishes@[i as int]@);
        push_ingredients(&wishes[i].code, items, &mut codes);
        proof {
            assert forall|c: Seq<char>|
                #[trigger] has_code(codes@, c) == (has_code(before, c) || wishes_need(items@, views, i + 1, c)) by {
                assert(has_code(codes@, c) == (has_code(mid, c) || is_ingredient(
                    items@,
                    views[i as int].code,
                    c,
                )));
                if is_ingredient(items@, views[i as int].code, c) {
                    assert(wishes_need(items@, views, i + 1, c));
                }
                if wishes_need(items@, views, i as int, c) {
                    let j = choose|j: int|
                        0 <= j < i && is_ingredient(items@, (#[trigger] views[j]).code, c);
                    assert(is_ingredient(items@, views[j].code, c));
                    assert(wishes_need(items@, views, i + 1, c));
                }
                if wishes_need(items@, views, i + 1, c) {
                    let j = choose|j: int|
                        0 <= j < i + 1 && is_ingredient(items@, (#[trigger] views[j]).code, c);
                    if j < i {
                        assert(wishes_need(items@, views, i as int, c));
                    }
                }
            }
        }
        i += 1;
    }
    codes
}

/// Whether one of the first `n` ingredients is `c`.
pub open spec fn is_listed(ingredients: Seq<CraftIngredient>, n: int, c: Seq<char>) -> bool {
    exists|m: int| 0 <= m < n && (#[trigger] ingredients[m]).code@ == c
}

/// Lists the direct ingredients of `code`.
pub fn push_ingredients(code: &str, items: &[Item], codes: &mut Vec<String>)
    ensures
        forall|c: Seq<char>|
            #[trigger] has_code(final(codes)@, c) == (has_code(old(codes)@, c) || is_ingredient(
                items@,
                code@,
                c,
            )),
{
    let ghost before = codes@;
    let k: usize = match find_item(items, code) {
        Some(k) => k,
        None => {
            return ;
        },
    };
    let craft: &CraftInfo = match &items[k].craft {
        Some(craft) => craft,
        None => {
            return ;
        },
    };
    let mut j: usize = 0;
    while j < craft.items.len()
        invariant
            j <= craft.items@.len(),
            recipe_of(items@, code@) == Some(*craft),
            forall|c: Seq<char>|
                #[trigger] has_code(codes@, c) == (has_code(before, c) || is_listed(craft.items@, j as int, c)),
        decreases craft.items@.len() - j,
    {
        let ghost mid = codes@;
        insert_code(codes, &craft.items[j].code);
        proof {
            let here = craft.items@[j as int].code@;
            assert forall|c: Seq<char>|
                #[trigger] has_code(codes@, c) == (has_code(before, c) || is_listed(craft.items@, j + 1, c)) by {
                assert(code_set(codes@).contains(c) == code_set(mid).insert(here).contains(c));
                assert(has_code(codes@, c) == (has_code(mid, c) || c == here));
                if c == here {
                    assert(craft.items@[j as int].code@ == c);
                    assert(is_listed(craft.items@, j + 1, c));
                }
                if is_listed(craft.items@, j as int, c) {
                    let m = choose|m: int| 0 <= m < j && (#[trigger] craft.items@[m]).code@ == c;
                    assert(craft.items@[m].code@ == c);
                    assert(is_listed(craft.items@, j + 1, c));
                }
                if is_listed(craft.items@, j + 1, c) && c != here {
                    let m = choose|m: int| 0 <= m < j + 1 && (#[trigger] craft.items@[m]).code@ == c;
                    assert(is_listed(craft.items@, j as int, c));
                }
            }
        }
        j += 1;
    }
}

} // verus!
