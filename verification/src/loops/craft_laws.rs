//! What holds of crafting plans: who gets scarce materials, what is wished for, and how much of it
//! is made at once.

use vstd::prelude::*;

use super::acquisition::can_follow;
use super::crafting_exec::{
    empty_trip, loaded, most_in_trip, needed, new_slots, takes_only, trip_capacity, trip_fits,
    trip_step, trip_steps, law_trip_keeps_to_the_budget, Trip,
};
use super::crafting_plan::{
    allocate, codes_by_kind, crafts_in_supply, crafts_to_close, filled, least, less_now, levels_xp,
    lowest_gear_level, skill_gap, spent_on, tier_gap, wishes_of, wishlist, with_later, EntryView,
    PlanTier, WISHLIST_SKILLS,
};
use super::market::stock;
use super::supply::{banked, is_plain_recipe, is_stocked, supplies};
use super::upgrade_steps::StepView;
use super::wish_laws::wish_skill;
use super::wishlist_plan::{
    affordable_now, is_last_of, need_list, settle_item, settle_step, share_list, Settling,
};
use crate::arith::{fits_i32, max_int, quot, sat_i32};
use crate::formulas::crafting::level_up_xp;
use crate::optimize::skill_laws::law_progress_is_the_skills_own;
use crate::optimize::skills::{level_in, xp_progress};
use crate::types::{
    is_first_item, item_index, recipe_of, BankItem, Character, CraftIngredient, Item,
};

verus! {

/// The gap to the next tier is what is left of the current level and all of every level from there
/// to the next multiple of five.
pub proof fn law_gap_counts_every_level_on_the_way(level: int, xp: int, max_xp: int)
    requires
        level >= 0,
    ensures
        ({
            let left = if max_xp > xp {
                max_xp - xp
            } else {
                0
            };
            let gap = tier_gap(level, xp, max_xp);
            &&& level % 5 == 4 ==> gap == left
            &&& level % 5 == 3 ==> gap == left + level_up_xp(level + 1)
            &&& level % 5 == 2 ==> gap == left + level_up_xp(level + 1) + level_up_xp(level + 2)
            &&& level % 5 == 1 ==> gap == left + level_up_xp(level + 1) + level_up_xp(level + 2)
                + level_up_xp(level + 3)
            &&& level % 5 == 0 ==> gap == left + level_up_xp(level + 1) + level_up_xp(level + 2)
                + level_up_xp(level + 3) + level_up_xp(level + 4)
        }),
{
    reveal_with_fuel(levels_xp, 6);
}

/// A recipe that would help a skill along: the skill makes the item, the character has the level
/// that the recipe asks for, and a craft gives XP.
pub open spec fn would_help(item: Item, xp: int, skill: Seq<char>, who: Character) -> bool {
    &&& xp > 0
    &&& item.craft is Some
    &&& item.craft->0.skill is Some
    &&& item.craft->0.skill->0@ == skill
    &&& item.craft->0.level matches Some(req) ==> level_in(who, skill) >= req
}

/// An entry wishes for as many crafts of an item as close the gap, and no more.
pub open spec fn wishes_for(
    e: EntryView,
    k: int,
    j: int,
    items: Seq<Item>,
    xp: Seq<i32>,
    who: Character,
) -> bool {
    let gap = skill_gap(who, wish_skill(k));
    &&& 0 <= k < 4
    &&& 0 <= j < items.len()
    &&& gap > 0
    &&& would_help(items[j], xp[j] as int, wish_skill(k), who)
    &&& e.code == items[j].code@
    &&& e.skill == wish_skill(k)
    &&& e.tier == PlanTier::Wishlist
    &&& e.quantity == i32::MAX || e.quantity * xp[j] >= gap
    &&& (e.quantity - 1) * xp[j] < gap
}

proof fn lemma_wish_names()
    ensures
        forall|k: int| 0 <= k < 4 ==> (#[trigger] WISHLIST_SKILLS@[k])@ == wish_skill(k),
{
    assert(WISHLIST_SKILLS@[0]@ == "weaponcrafting"@);
    assert(WISHLIST_SKILLS@[1]@ == "gearcrafting"@);
    assert(WISHLIST_SKILLS@[2]@ == "jewelrycrafting"@);
    assert(WISHLIST_SKILLS@[3]@ == "alchemy"@);
}

proof fn lemma_levels_agree(who: Character, k: int)
    requires
        0 <= k < 4,
    ensures
        xp_progress(who, wish_skill(k)).0 == level_in(who, wish_skill(k)),
{
    law_progress_is_the_skills_own(who);
}

proof fn lemma_closes(gap: int, xp: int)
    requires
        gap > 0,
        xp > 0,
    ensures
        ({
            let n = crafts_to_close(gap, xp);
            (n == i32::MAX || n * xp >= gap) && (n - 1) * xp < gap
        }),
{
    let all = (gap + xp - 1) / xp;
    let n = crafts_to_close(gap, xp);
    assert(all * xp >= gap && (all - 1) * xp < gap) by (nonlinear_arith)
        requires
            all == (gap + xp - 1) / xp,
            xp > 0,
            gap > 0,
    ;
    assert((n - 1) * xp <= (all - 1) * xp) by (nonlinear_arith)
        requires
            n <= all,
            xp > 0,
    ;
}

proof fn lemma_wishes_of(
    who: Character,
    k: int,
    items: Seq<Item>,
    xp: Seq<i32>,
    n: int,
    i: int,
)
    requires
        0 <= k < 4,
        0 <= n <= items.len(),
        skill_gap(who, wish_skill(k)) > 0,
        0 <= i < wishes_of(
            wish_skill(k),
            level_in(who, wish_skill(k)),
            skill_gap(who, wish_skill(k)),
            items,
            xp,
            n,
        ).len(),
    ensures
        exists|j: int| #[trigger]
            wishes_for(
                wishes_of(
                    wish_skill(k),
                    level_in(who, wish_skill(k)),
                    skill_gap(who, wish_skill(k)),
                    items,
                    xp,
                    n,
                )[i],
                k,
                j,
                items,
                xp,
                who,
            ),
    decreases n,
{
    let skill = wish_skill(k);
    let level = level_in(who, skill);
    let gap = skill_gap(who, skill);
    if n > 0 {
        let before = wishes_of(skill, level, gap, items, xp, n - 1);
        let all = wishes_of(skill, level, gap, items, xp, n);
        if i < before.len() {
            lemma_wishes_of(who, k, items, xp, n - 1, i);
            assert(all[i] == before[i]);
        } else {
            lemma_closes(gap, xp[n - 1] as int);
            assert(wishes_for(all[i], k, n - 1, items, xp, who));
        }
    }
}

/// Every wish is for a recipe that helps one of the four skills that still lack XP to their next
/// tier, as many crafts of it as close the gap.
pub proof fn law_wishes_help_a_skill_that_lacks_xp(
    who: Character,
    items: Seq<Item>,
    xp: Seq<i32>,
    n: int,
    i: int,
)
    requires
        0 <= n <= 4,
        0 <= i < wishlist(who, items, xp, n).len(),
    ensures
        exists|k: int, j: int| #[trigger]
            wishes_for(wishlist(who, items, xp, n)[i], k, j, items, xp, who),
    decreases n,
{
    if n > 0 {
        let before = wishlist(who, items, xp, n - 1);
        let all = wishlist(who, items, xp, n);
        if i < before.len() {
            law_wishes_help_a_skill_that_lacks_xp(who, items, xp, n - 1, i);
            assert(all[i] == before[i]);
        } else {
            lemma_wish_names();
            let skill = wish_skill(n - 1);
            assert(WISHLIST_SKILLS@[n - 1]@ == skill);
            lemma_levels_agree(who, n - 1);
            let len = items.len() as int;
            let more = wishes_of(
                skill,
                level_in(who, skill),
                skill_gap(who, skill),
                items,
                xp,
                len,
            );
            lemma_wishes_of(who, n - 1, items, xp, len, i - before.len());
            assert(all[i] == more[i - before.len()]);
        }
    }
}

/// Every recipe that helps one of the four skills that still lack XP is wished for.
pub proof fn law_every_recipe_that_helps_is_wished_for(
    who: Character,
    items: Seq<Item>,
    xp: Seq<i32>,
    k: int,
    j: int,
)
    requires
        0 <= k < 4,
        0 <= j < items.len(),
        skill_gap(who, wish_skill(k)) > 0,
        would_help(items[j], xp[j] as int, wish_skill(k), who),
    ensures
        exists|i: int|
            0 <= i < wishlist(who, items, xp, 4).len() && wishes_for(
                #[trigger] wishlist(who, items, xp, 4)[i],
                k,
                j,
                items,
                xp,
                who,
            ),
{
    lemma_wish_names();
    lemma_levels_agree(who, k);
    assert(WISHLIST_SKILLS@[k]@ == wish_skill(k));
    super::wishlist_plan::law_every_path_is_wished_for(who, items, xp, k, j);
    let gap = skill_gap(who, wish_skill(k));
    lemma_closes(gap, xp[j] as int);
    let e = EntryView {
        code: items[j].code@,
        skill: wish_skill(k),
        quantity: crafts_to_close(gap, xp[j] as int),
        tier: PlanTier::Wishlist,
    };
    let i = wishlist(who, items, xp, 4).index_of(e);
    assert(wishes_for(wishlist(who, items, xp, 4)[i], k, j, items, xp, who));
}

/// The gap of each skill that has a wishlist is read off its own level and XP.
pub proof fn law_wishlist_gap_is_the_skills_own(who: Character)
    ensures
        skill_gap(who, "weaponcrafting"@) == tier_gap(
            who.weaponcrafting_level as int,
            who.weaponcrafting_xp as int,
            who.weaponcrafting_max_xp as int,
        ),
        skill_gap(who, "gearcrafting"@) == tier_gap(
            who.gearcrafting_level as int,
            who.gearcrafting_xp as int,
            who.gearcrafting_max_xp as int,
        ),
        skill_gap(who, "jewelrycrafting"@) == tier_gap(
            who.jewelrycrafting_level as int,
            who.jewelrycrafting_xp as int,
            who.jewelrycrafting_max_xp as int,
        ),
        skill_gap(who, "alchemy"@) == tier_gap(
            who.alchemy_level as int,
            who.alchemy_xp as int,
            who.alchemy_max_xp as int,
        ),
{
    law_progress_is_the_skills_own(who);
}

proof fn lemma_least(shares: Seq<i32>, n: int)
    requires
        0 <= n <= shares.len(),
    ensures
        n == 0 ==> least(shares, n) == 0,
        forall|i: int| 0 <= i < n ==> least(shares, n) <= #[trigger] shares[i],
        n > 0 ==> exists|i: int| 0 <= i < n && least(shares, n) == #[trigger] shares[i],
    decreases n,
{
    if n > 1 {
        lemma_least(shares, n - 1);
        if least(shares, n) != shares[n - 1] {
            let i = choose|i: int|
                0 <= i < n - 1 && least(shares, n - 1) == #[trigger] shares[i];
            assert(least(shares, n) == shares[i]);
        } else {
            assert(least(shares, n) == shares[n - 1]);
        }
    } else if n == 1 {
        assert(least(shares, 1) == shares[0]);
    }
}

/// The scarcest of several shares is the least of them; of none it is nothing.
pub proof fn law_scarcest_share_decides(shares: Seq<i32>)
    ensures
        shares.len() == 0 ==> least(shares, shares.len() as int) == 0,
        forall|i: int|
            0 <= i < shares.len() ==> least(shares, shares.len() as int) <= #[trigger] shares[i],
        shares.len() > 0 ==> exists|i: int|
            0 <= i < shares.len() && least(shares, shares.len() as int) == #[trigger] shares[i],
{
    lemma_least(shares, shares.len() as int);
}

proof fn lemma_share_list(
    g: spec_fn(int, int, int) -> Option<i32>,
    i: int,
    ings: Seq<CraftIngredient>,
    supply: Map<Seq<char>, i32>,
    n: int,
)
    requires
        0 <= n <= ings.len(),
        is_plain_recipe(ings),
    ensures
        forall|k: int|
            0 <= k < n ==> (g(i, k, stock(supply, (#[trigger] ings[k]).code@)) matches Some(s)
                ==> share_list(g, i, ings, supply, n).contains(s)),
        forall|a: int|
            0 <= a < share_list(g, i, ings, supply, n).len() ==> exists|k: int|
                0 <= k < n && g(i, k, stock(supply, (#[trigger] ings[k]).code@)) == Some(
                    #[trigger] share_list(g, i, ings, supply, n)[a],
                ),
    decreases n,
{
    let all = share_list(g, i, ings, supply, n);
    if n > 0 {
        lemma_share_list(g, i, ings, supply, n - 1);
        let before = share_list(g, i, ings, supply, n - 1);
        assert(is_last_of(ings, n - 1)) by {
            assert forall|j: int| n - 1 < j < ings.len() implies (#[trigger] ings[j]).code@
                != ings[n - 1].code@ by {}
        }
        assert forall|k: int| 0 <= k < n implies (g(
            i,
            k,
            stock(supply, (#[trigger] ings[k]).code@),
        ) matches Some(s) ==> all.contains(s)) by {
            if k < n - 1 {
                if let Some(s) = g(i, k, stock(supply, ings[k].code@)) {
                    assert(before.contains(s));
                    let a = before.index_of(s);
                    assert(all[a] == s);
                }
            } else if let Some(s) = g(i, k, stock(supply, ings[k].code@)) {
                assert(all[before.len() as int] == s);
            }
        }
        assert forall|a: int| 0 <= a < all.len() implies exists|k: int|
            0 <= k < n && g(i, k, stock(supply, (#[trigger] ings[k]).code@)) == Some(
                #[trigger] all[a],
            ) by {
            if a < before.len() {
                assert(all[a] == before[a]);
                let k = choose|k: int|
                    0 <= k < n - 1 && g(i, k, stock(supply, (#[trigger] ings[k]).code@)) == Some(
                        before[a],
                    );
                assert(g(i, k, stock(supply, ings[k].code@)) == Some(all[a]));
            } else {
                assert(g(i, n - 1, stock(supply, ings[n - 1].code@)) == Some(all[a]));
            }
        }
    }
}

/// Of a wish as many crafts are made now as were wished for, or as the scarcest ingredient allows
/// if that is fewer, and none where no ingredient says how many.
pub proof fn law_wish_is_made_as_far_as_supplies_go(
    s: Settling,
    e: EntryView,
    g: spec_fn(int, int, int) -> Option<i32>,
    i: int,
    ings: Seq<CraftIngredient>,
)
    requires
        is_plain_recipe(ings),
        e.quantity >= 0,
    ensures
        ({
            let now = affordable_now(s, e, g, i, ings);
            &&& 0 <= now <= e.quantity
            &&& now > 0 ==> forall|k: int|
                0 <= k < ings.len() ==> (g(
                    i,
                    k,
                    stock(s.supply, (#[trigger] ings[k]).code@),
                ) matches Some(share) ==> now <= share)
            &&& now < e.quantity && (exists|k: int|
                0 <= k < ings.len() && g(i, k, stock(s.supply, (#[trigger] ings[k]).code@)) is Some)
                ==> exists|k: int|
                0 <= k < ings.len() && (g(
                    i,
                    k,
                    stock(s.supply, (#[trigger] ings[k]).code@),
                ) matches Some(share) && share <= now)
            &&& (forall|k: int|
                0 <= k < ings.len() ==> g(i, k, stock(s.supply, (#[trigger] ings[k]).code@))
                    is None) ==> now == 0
        }),
{
    let n = ings.len() as int;
    let shares = share_list(g, i, ings, s.supply, n);
    let now = affordable_now(s, e, g, i, ings);
    lemma_share_list(g, i, ings, s.supply, n);
    lemma_least(shares, shares.len() as int);
    let low = least(shares, shares.len() as int);
    if now > 0 {
        assert forall|k: int| 0 <= k < ings.len() implies (g(
            i,
            k,
            stock(s.supply, (#[trigger] ings[k]).code@),
        ) matches Some(share) ==> now <= share) by {
            if let Some(share) = g(i, k, stock(s.supply, ings[k].code@)) {
                assert(shares.contains(share));
                let a = shares.index_of(share);
                assert(low <= shares[a]);
            }
        }
    }
    if now < e.quantity && shares.len() > 0 {
        let a = choose|a: int| 0 <= a < shares.len() && low == #[trigger] shares[a];
        let k = choose|k: int|
            0 <= k < n && g(i, k, stock(s.supply, (#[trigger] ings[k]).code@)) == Some(shares[a]);
        assert(g(i, k, stock(s.supply, ings[k].code@)) == Some(shares[a]));
    }
    if exists|k: int|
        0 <= k < ings.len() && g(i, k, stock(s.supply, (#[trigger] ings[k]).code@)) is Some {
        let k = choose|k: int|
            0 <= k < ings.len() && g(i, k, stock(s.supply, (#[trigger] ings[k]).code@)) is Some;
        assert(shares.contains(g(i, k, stock(s.supply, ings[k].code@))->0));
    }
    if forall|k: int|
        0 <= k < ings.len() ==> g(i, k, stock(s.supply, (#[trigger] ings[k]).code@)) is None {
        if shares.len() > 0 {
            let k = choose|k: int|
                0 <= k < n && g(i, k, stock(s.supply, (#[trigger] ings[k]).code@)) == Some(
                    shares[0],
                );
            assert(g(i, k, stock(s.supply, ings[k].code@)) is None);
        }
    }
}

proof fn lemma_needs(
    h: spec_fn(int, int, int) -> i32,
    i: int,
    ings: Seq<CraftIngredient>,
    now: int,
    later: int,
    n: int,
)
    requires
        0 <= n <= ings.len(),
        is_plain_recipe(ings),
    ensures
        need_list(h, i, ings, now, later, n).len() == n,
        forall|k: int|
            0 <= k < n ==> #[trigger] need_list(h, i, ings, now, later, n)[k] == (
                ings[k].code@,
                h(i, k, now),
                h(i, k, later),
            ),
    decreases n,
{
    if n > 0 {
        lemma_needs(h, i, ings, now, later, n - 1);
        assert(is_last_of(ings, n - 1)) by {
            assert forall|j: int| n - 1 < j < ings.len() implies (#[trigger] ings[j]).code@
                != ings[n - 1].code@ by {}
        }
        let before = need_list(h, i, ings, now, later, n - 1);
        let all = need_list(h, i, ings, now, later, n);
        assert forall|k: int| 0 <= k < n implies #[trigger] all[k] == (
            ings[k].code@,
            h(i, k, now),
            h(i, k, later),
        ) by {
            if k < n - 1 {
                assert(all[k] == before[k]);
            }
        }
    }
}

/// Each code stands once in a list of needs.
spec fn needs_are_plain(needs: Seq<(Seq<char>, i32, i32)>) -> bool {
    forall|i: int, j: int|
        0 <= i < j < needs.len() ==> (#[trigger] needs[i]).0 != (#[trigger] needs[j]).0
}

proof fn lemma_less_now(
    supply: Map<Seq<char>, i32>,
    needs: Seq<(Seq<char>, i32, i32)>,
    n: int,
    c: Seq<char>,
)
    requires
        0 <= n <= needs.len(),
        needs_are_plain(needs),
    ensures
        forall|k: int|
            0 <= k < n && (#[trigger] needs[k]).0 == c ==> stock(less_now(supply, needs, n), c)
                == sat_i32(stock(supply, c) - needs[k].1),
        (forall|k: int| 0 <= k < n ==> (#[trigger] needs[k]).0 != c) ==> stock(
            less_now(supply, needs, n),
            c,
        ) == stock(supply, c),
        forall|k: int|
            0 <= k < n && (#[trigger] needs[k]).0 == c ==> stock(with_later(supply, needs, n), c)
                == sat_i32(stock(supply, c) + needs[k].2),
        (forall|k: int| 0 <= k < n ==> (#[trigger] needs[k]).0 != c) ==> stock(
            with_later(supply, needs, n),
            c,
        ) == stock(supply, c),
    decreases n,
{
    if n > 0 {
        lemma_less_now(supply, needs, n - 1, c);
        if needs[n - 1].0 == c {
            assert forall|k: int| 0 <= k < n - 1 implies (#[trigger] needs[k]).0 != c by {
                assert(needs[n - 1].0 == c);
            }
        }
    }
}

/// A wish takes from the supply what the crafts made now need of each ingredient, reserves what the
/// rest will need, and touches nothing else.
pub proof fn law_wish_takes_now_and_reserves_for_later(
    s: Settling,
    e: EntryView,
    g: spec_fn(int, int, int) -> Option<i32>,
    h: spec_fn(int, int, int) -> i32,
    i: int,
    ings: Seq<CraftIngredient>,
    c: Seq<char>,
)
    requires
        is_plain_recipe(ings),
        e.quantity >= 0,
    ensures
        ({
            let after = settle_item(s, e, g, h, i, ings);
            let now = affordable_now(s, e, g, i, ings);
            &&& forall|k: int|
                0 <= k < ings.len() && (#[trigger] ings[k]).code@ == c ==> {
                    &&& now > 0 ==> stock(after.supply, c) == sat_i32(
                        stock(s.supply, c) - h(i, k, now),
                    )
                    &&& now < e.quantity ==> stock(after.reserved, c) == sat_i32(
                        stock(s.reserved, c) + h(i, k, e.quantity - now),
                    )
                }
            &&& now == 0 ==> after.supply == s.supply && after.planned == s.planned
            &&& now == e.quantity ==> after.reserved == s.reserved
            &&& (forall|k: int| 0 <= k < ings.len() ==> (#[trigger] ings[k]).code@ != c) ==> stock(
                after.supply,
                c,
            ) == stock(s.supply, c) && stock(after.reserved, c) == stock(s.reserved, c)
            &&& now > 0 ==> after.planned == s.planned.push(
                EntryView {
                    code: e.code,
                    skill: e.skill,
                    quantity: now,
                    tier: PlanTier::Wishlist,
                },
            )
        }),
{
    let n = ings.len() as int;
    let now = affordable_now(s, e, g, i, ings);
    let needs = need_list(h, i, ings, now, e.quantity - now, n);
    lemma_needs(h, i, ings, now, e.quantity - now, n);
    assert forall|a: int, b: int| 0 <= a < b < needs.len() implies (#[trigger] needs[a]).0 != (
    #[trigger] needs[b]).0 by {
        assert(ings[a].code@ != ings[b].code@);
    }
    lemma_less_now(s.supply, needs, n, c);
    lemma_less_now(s.reserved, needs, n, c);
    assert forall|k: int| 0 <= k < n && (#[trigger] ings[k]).code@ == c implies needs[k].0 == c by {
        assert(needs[k] == (ings[k].code@, h(i, k, now), h(i, k, e.quantity - now)));
    }
    if forall|k: int| 0 <= k < ings.len() ==> (#[trigger] ings[k]).code@ != c {
        assert forall|k: int| 0 <= k < n implies (#[trigger] needs[k]).0 != c by {
            assert(ings[k].code@ != c);
        }
    }
}

proof fn lemma_codes_by_kind(entries: Seq<EntryView>, alchemy: bool, n: int, c: Seq<char>)
    requires
        0 <= n <= entries.len(),
    ensures
        codes_by_kind(entries, alchemy, n).contains(c) <==> exists|i: int|
            0 <= i < n && (#[trigger] entries[i]).code == c && (entries[i].skill == "alchemy"@)
                == alchemy,
    decreases n,
{
    let all = codes_by_kind(entries, alchemy, n);
    if n > 0 {
        lemma_codes_by_kind(entries, alchemy, n - 1, c);
        let before = codes_by_kind(entries, alchemy, n - 1);
        if before.contains(c) {
            let k = before.index_of(c);
            assert(all[k] == c);
            let i = choose|i: int|
                0 <= i < n - 1 && (#[trigger] entries[i]).code == c && (entries[i].skill
                    == "alchemy"@) == alchemy;
            assert(entries[i].code == c);
        }
        if entries[n - 1].code == c && (entries[n - 1].skill == "alchemy"@) == alchemy {
            assert(all[before.len() as int] == c);
        }
        if all.contains(c) && !before.contains(c) {
            let k = all.index_of(c);
            assert(k == before.len());
            assert(entries[n - 1].code == c);
        }
    }
}

/// The wishlist of gear holds what is wished for under any skill but alchemy, and that of alchemy
/// the rest.
pub proof fn law_gear_and_alchemy_are_wished_for_apart(entries: Seq<EntryView>, c: Seq<char>)
    ensures
        codes_by_kind(entries, true, entries.len() as int).contains(c) <==> exists|i: int|
            0 <= i < entries.len() && (#[trigger] entries[i]).code == c && entries[i].skill
                == "alchemy"@,
        codes_by_kind(entries, false, entries.len() as int).contains(c) <==> exists|i: int|
            0 <= i < entries.len() && (#[trigger] entries[i]).code == c && entries[i].skill
                != "alchemy"@,
{
    lemma_codes_by_kind(entries, true, entries.len() as int, c);
    lemma_codes_by_kind(entries, false, entries.len() as int, c);
}

/// The crafter is measured by the lowest of its three gear skills: none of them is lower.
pub proof fn law_crafter_is_measured_by_its_lowest_gear_skill(who: Character)
    ensures
        lowest_gear_level(who) <= who.weaponcrafting_level,
        lowest_gear_level(who) <= who.gearcrafting_level,
        lowest_gear_level(who) <= who.jewelrycrafting_level,
        lowest_gear_level(who) == who.weaponcrafting_level || lowest_gear_level(who)
            == who.gearcrafting_level || lowest_gear_level(who) == who.jewelrycrafting_level,
{
}

/// An upgrade is planned exactly where its slot is open, the character can follow its recipe and
/// what is left of the supply has all of its ingredients. Its slot is closed then. Where it cannot
/// be made, its ingredients are reserved and its slot stays open.
pub proof fn law_upgrade_is_planned_or_waited_for(
    supply: Map<Seq<char>, i32>,
    steps: Seq<StepView>,
    i: int,
    items: Seq<Item>,
    who: Character,
)
    requires
        0 <= i < steps.len(),
        recipe_of(items, steps[i].code) is Some,
        recipe_of(items, steps[i].code)->0.skill is Some,
    ensures
        ({
            let a = allocate(supply, steps, i, items, who);
            let after = allocate(supply, steps, i + 1, items, who);
            let step = steps[i];
            let slot = (step.who, step.slot);
            let craft = recipe_of(items, step.code)->0;
            let able = (craft.level matches Some(req) ==> level_in(who, craft.skill->0@) >= req)
                && forall|k: int|
                0 <= k < craft.items@.len() ==> stock(a.supply, (#[trigger] craft.items@[k]).code@)
                    >= craft.items@[k].quantity;
            &&& a.resolved.contains(slot) ==> after.supply == a.supply && after.planned == a.planned
                && after.reserved == a.reserved && after.resolved == a.resolved
            &&& !a.resolved.contains(slot) && able ==> {
                &&& after.resolved == a.resolved.insert(slot)
                &&& after.reserved == a.reserved
                &&& exists|k: int|
                    0 <= k < after.planned.len() && (#[trigger] after.planned[k]).code == step.code
            }
            &&& !a.resolved.contains(slot) && !able ==> {
                &&& after.resolved == a.resolved
                &&& after.supply == a.supply
                &&& after.planned == a.planned
                &&& is_plain_recipe(craft.items@) ==> forall|k: int|
                    0 <= k < craft.items@.len() ==> stock(
                        after.reserved,
                        (#[trigger] craft.items@[k]).code@,
                    ) == sat_i32(
                        stock(a.reserved, craft.items@[k].code@) + craft.items@[k].quantity,
                    )
            }
            &&& after.codes.contains(step.code)
        }),
{
    let a = allocate(supply, steps, i, items, who);
    let after = allocate(supply, steps, i + 1, items, who);
    let step = steps[i];
    let craft = recipe_of(items, step.code)->0;
    let able = can_follow(who, craft) && supplies(a.supply, craft.items@);
    if !a.resolved.contains((step.who, step.slot)) {
        if able {
            lemma_counted_is_listed(
                a.planned,
                step.code,
                super::crafting_plan::skill_of(craft),
            );
            assert(after.resolved == a.resolved.insert((step.who, step.slot)));
            assert(after.reserved == a.reserved);
            assert(exists|k: int|
                0 <= k < after.planned.len() && (#[trigger] after.planned[k]).code == step.code);
        } else if is_plain_recipe(craft.items@) {
            lemma_saved(a.reserved, craft.items@, craft.items@.len() as int);
            assert(after.resolved == a.resolved);
        }
    }
    assert(after.codes == a.codes.insert(step.code));
}

proof fn lemma_counted_is_listed(plan: Seq<EntryView>, code: Seq<char>, skill: Seq<char>)
    ensures
        exists|k: int|
            0 <= k < super::crafting_plan::counted(plan, code, skill).len() && (
            #[trigger] super::crafting_plan::counted(plan, code, skill)[k]).code == code,
{
    let after = super::crafting_plan::counted(plan, code, skill);
    lemma_entry_found(plan, code, 0);
    match super::crafting_plan::entry_for(plan, code, 0) {
        Some(k) => {
            assert(after[k].code == code);
        },
        None => {
            assert(after[plan.len() as int].code == code);
        },
    }
}

proof fn lemma_entry_found(plan: Seq<EntryView>, code: Seq<char>, from: int)
    requires
        0 <= from,
    ensures
        super::crafting_plan::entry_for(plan, code, from) matches Some(i) ==> from <= i < plan.len()
            && plan[i].code == code,
    decreases plan.len() - from,
{
    if from < plan.len() && plan[from].code != code {
        lemma_entry_found(plan, code, from + 1);
    }
}

proof fn lemma_saved(reserved: Map<Seq<char>, i32>, ings: Seq<CraftIngredient>, n: int)
    requires
        0 <= n <= ings.len(),
        is_plain_recipe(ings),
    ensures
        forall|k: int|
            0 <= k < n ==> stock(
                super::supply::saved(reserved, ings, n),
                (#[trigger] ings[k]).code@,
            ) == sat_i32(stock(reserved, ings[k].code@) + ings[k].quantity),
        forall|k: int|
            n <= k < ings.len() ==> stock(
                super::supply::saved(reserved, ings, n),
                (#[trigger] ings[k]).code@,
            ) == stock(reserved, ings[k].code@),
    decreases n,
{
    if n > 0 {
        lemma_saved(reserved, ings, n - 1);
        assert forall|k: int| 0 <= k < n implies stock(
            super::supply::saved(reserved, ings, n),
            (#[trigger] ings[k]).code@,
        ) == sat_i32(stock(reserved, ings[k].code@) + ings[k].quantity) by {
            if k < n - 1 {
                assert(ings[k].code@ != ings[n - 1].code@);
            }
        }
        assert forall|k: int| n <= k < ings.len() implies stock(
            super::supply::saved(reserved, ings, n),
            (#[trigger] ings[k]).code@,
        ) == stock(reserved, ings[k].code@) by {
            assert(ings[n - 1].code@ != ings[k].code@);
        }
    }
}

proof fn lemma_crafts_in_supply(
    supply: Map<Seq<char>, i32>,
    ings: Seq<CraftIngredient>,
    n: int,
)
    requires
        0 < n <= ings.len(),
    ensures
        forall|k: int|
            0 <= k < n ==> crafts_in_supply(supply, ings, n) <= quot(
                stock(supply, (#[trigger] ings[k]).code@),
                max_int(ings[k].quantity as int, 1),
            ),
        exists|k: int|
            0 <= k < n && crafts_in_supply(supply, ings, n) == quot(
                stock(supply, (#[trigger] ings[k]).code@),
                max_int(ings[k].quantity as int, 1),
            ),
    decreases n,
{
    if n > 1 {
        lemma_crafts_in_supply(supply, ings, n - 1);
        let here = quot(
            stock(supply, ings[n - 1].code@),
            max_int(ings[n - 1].quantity as int, 1),
        );
        if crafts_in_supply(supply, ings, n) == here {
            assert(here == quot(
                stock(supply, ings[n - 1].code@),
                max_int(ings[n - 1].quantity as int, 1),
            ));
        } else {
            let k = choose|k: int|
                0 <= k < n - 1 && crafts_in_supply(supply, ings, n - 1) == quot(
                    stock(supply, (#[trigger] ings[k]).code@),
                    max_int(ings[k].quantity as int, 1),
                );
            assert(crafts_in_supply(supply, ings, n) == quot(
                stock(supply, ings[k].code@),
                max_int(ings[k].quantity as int, 1),
            ));
        }
    } else {
        assert(crafts_in_supply(supply, ings, 1) == quot(
            stock(supply, ings[0].code@),
            max_int(ings[0].quantity as int, 1),
        ));
    }
}

/// Filler is made as often as what is left allows: the supply has the ingredients of that many
/// crafts, and lacks some ingredient for one more.
pub proof fn law_filler_is_made_as_often_as_supplies_allow(
    supply: Map<Seq<char>, i32>,
    ings: Seq<CraftIngredient>,
)
    requires
        is_stocked(supply),
        ings.len() > 0,
        forall|k: int| 0 <= k < ings.len() ==> (#[trigger] ings[k]).quantity > 0,
    ensures
        ({
            let n = crafts_in_supply(supply, ings, ings.len() as int);
            &&& n >= 0
            &&& forall|k: int|
                0 <= k < ings.len() ==> n * (#[trigger] ings[k]).quantity <= stock(
                    supply,
                    ings[k].code@,
                )
            &&& exists|k: int|
                0 <= k < ings.len() && (n + 1) * (#[trigger] ings[k]).quantity > stock(
                    supply,
                    ings[k].code@,
                )
        }),
{
    let len = ings.len() as int;
    let n = crafts_in_supply(supply, ings, len);
    lemma_crafts_in_supply(supply, ings, len);
    assert forall|k: int| 0 <= k < len implies n * (#[trigger] ings[k]).quantity <= stock(
        supply,
        ings[k].code@,
    ) by {
        let q = ings[k].quantity as int;
        let have = stock(supply, ings[k].code@);
        assert(n * q <= have) by (nonlinear_arith)
            requires
                n <= have / q,
                q > 0,
                have >= 0,
        ;
    }
    let k = choose|k: int|
        0 <= k < len && n == quot(
            stock(supply, (#[trigger] ings[k]).code@),
            max_int(ings[k].quantity as int, 1),
        );
    let q = ings[k].quantity as int;
    let have = stock(supply, ings[k].code@);
    assert(n >= 0 && (n + 1) * q > have) by (nonlinear_arith)
        requires
            n == have / q,
            q > 0,
            have >= 0,
    ;
    assert((n + 1) * ings[k].quantity > stock(supply, ings[k].code@));
}

/// Filler uses up what it is made from: of every ingredient that many times what one craft takes,
/// and nothing else, as long as nothing leaves the 32-bit range.
pub proof fn law_filler_uses_up_what_it_takes(
    supply: Map<Seq<char>, i32>,
    ings: Seq<CraftIngredient>,
    times: int,
    n: int,
    c: Seq<char>,
)
    requires
        0 <= n <= ings.len(),
        is_plain_recipe(ings),
    ensures
        forall|k: int|
            0 <= k < n && (#[trigger] ings[k]).code@ == c ==> stock(
                spent_on(supply, ings, times, n),
                c,
            ) == sat_i32(stock(supply, c) - ings[k].quantity * times),
        (forall|k: int| 0 <= k < n ==> (#[trigger] ings[k]).code@ != c) ==> stock(
            spent_on(supply, ings, times, n),
            c,
        ) == stock(supply, c),
    decreases n,
{
    if n > 0 {
        law_filler_uses_up_what_it_takes(supply, ings, times, n - 1, c);
        if ings[n - 1].code@ == c {
            assert forall|k: int| 0 <= k < n - 1 implies (#[trigger] ings[k]).code@ != c by {
                assert(ings[n - 1].code@ == c);
            }
        }
    }
}

/// Fillers are given what is left in order: each that can be made at all is planned as often as
/// what the ones before it leave allows, and takes its ingredients; the others change nothing.
pub proof fn law_fillers_take_turns(
    planned: Seq<EntryView>,
    supply: Map<Seq<char>, i32>,
    candidates: Seq<EntryView>,
    i: int,
    items: Seq<Item>,
)
    requires
        0 <= i < candidates.len(),
    ensures
        ({
            let (p, s) = filled(planned, supply, candidates, i, items);
            let (p2, s2) = filled(planned, supply, candidates, i + 1, items);
            let entry = candidates[i];
            match recipe_of(items, entry.code) {
                Some(craft) => {
                    let n = crafts_in_supply(s, craft.items@, craft.items@.len() as int);
                    if n > 0 {
                        &&& p2 == p.push(
                            EntryView {
                                code: entry.code,
                                skill: entry.skill,
                                quantity: n,
                                tier: PlanTier::Filler,
                            },
                        )
                        &&& s2 == spent_on(s, craft.items@, n, craft.items@.len() as int)
                    } else {
                        p2 == p && s2 == s
                    }
                },
                None => p2 == p && s2 == s,
            }
        }),
{
}

proof fn lemma_most(
    t: Trip,
    code: Seq<char>,
    ings: Seq<CraftIngredient>,
    want: int,
    max_qty: int,
)
    ensures
        ({
            let n = most_in_trip(t, code, ings, want, max_qty);
            &&& 0 <= n
            &&& n > 0 ==> n <= want && trip_fits(t, code, ings, n, max_qty)
            &&& forall|m: int| n < m <= want ==> !#[trigger] trip_fits(t, code, ings, m, max_qty)
        }),
    decreases want,
{
    if want > 0 && !trip_fits(t, code, ings, want, max_qty) {
        lemma_most(t, code, ings, want - 1, max_qty);
    }
}

/// A trip takes as many crafts as fit: what it takes keeps to the twenty slots and to what can be
/// carried, with a slot for what is made, and no larger number up to what is wanted would.
pub proof fn law_trip_takes_as_many_as_fit(
    t: Trip,
    code: Seq<char>,
    ings: Seq<CraftIngredient>,
    want: int,
    max_qty: int,
)
    ensures
        ({
            let n = most_in_trip(t, code, ings, want, max_qty);
            let slots = t.slots.len() + new_slots(t, ings, ings.len() as int) + if t.slots.contains(
                code,
            ) {
                0int
            } else {
                1int
            };
            let items = |m: int| t.total + needed(ings, m, ings.len() as int);
            &&& 0 <= n
            &&& n > 0 ==> n <= want && slots <= 20 && items(n) <= max_qty
            &&& forall|m: int|
                n < m <= want && slots <= 20 ==> #[trigger] items(m) > max_qty
        }),
{
    lemma_most(t, code, ings, want, max_qty);
    let n = most_in_trip(t, code, ings, want, max_qty);
    let slots = t.slots.len() + new_slots(t, ings, ings.len() as int) + if t.slots.contains(code) {
        0int
    } else {
        1int
    };
    let items = |m: int| t.total + needed(ings, m, ings.len() as int);
    assert forall|m: int| n < m <= want && slots <= 20 implies #[trigger] items(m) > max_qty by {
        assert(!trip_fits(t, code, ings, m, max_qty));
    }
}

/// A trip considers its candidates in order. Of an upgrade or a wish it takes no more than is
/// planned of it, of filler no more than what is left allows; what has no recipe is passed over.
pub proof fn law_trip_takes_candidates_in_order(
    t: Trip,
    entry: EntryView,
    items: Seq<Item>,
    max_qty: int,
)
    ensures
        ({
            let after = trip_step(t, entry, items, max_qty);
            match recipe_of(items, entry.code) {
                Some(craft) => {
                    let ings = craft.items@;
                    let want = if entry.tier == PlanTier::Filler {
                        crafts_in_supply(t.bank, ings, ings.len() as int)
                    } else {
                        entry.quantity
                    };
                    let n = most_in_trip(t, entry.code, ings, want, max_qty);
                    &&& n <= 0 ==> after == t
                    &&& n > 0 ==> after.plan == t.plan.push((entry.code, entry.skill, n))
                    &&& n > 0 && entry.tier != PlanTier::Filler ==> after.bank == t.bank
                },
                None => after == t,
            }
        }),
{
    if let Some(craft) = recipe_of(items, entry.code) {
        let ings = craft.items@;
        let len = ings.len() as int;
        let filler = entry.tier == PlanTier::Filler;
        let want = if filler {
            crafts_in_supply(t.bank, ings, len)
        } else {
            entry.quantity
        };
        let n = most_in_trip(t, entry.code, ings, want, max_qty);
        let own = Trip {
            slots: super::crafting_plan::listed(t.slots, entry.code),
            ..t
        };
        lemma_loading_keeps(own, ings, n, filler, len);
    }
}

proof fn lemma_loading_keeps(
    t: Trip,
    ings: Seq<CraftIngredient>,
    qty: int,
    filler: bool,
    n: int,
)
    requires
        0 <= n <= ings.len(),
    ensures
        loaded(t, ings, qty, filler, n).plan == t.plan,
        !filler ==> loaded(t, ings, qty, filler, n).bank == t.bank,
    decreases n,
{
    if n > 0 {
        lemma_loading_keeps(t, ings, qty, filler, n - 1);
    }
}

/// A trip leaves at least one free space of all that can be carried, and takes up no more than
/// twenty slots.
pub proof fn law_trip_leaves_a_free_space(
    who: Character,
    bank: Map<Seq<char>, i32>,
    entries: Seq<EntryView>,
    items: Seq<Item>,
)
    requires
        who.inventory_max_items >= 1,
        forall|code: Seq<char>|
            #[trigger] recipe_of(items, code) matches Some(craft) ==> takes_only(craft.items@),
    ensures
        ({
            let t = trip_steps(
                empty_trip(bank),
                entries,
                items,
                trip_capacity(who),
                entries.len() as int,
            );
            &&& t.slots.len() <= 20
            &&& t.total + 1 <= who.inventory_max_items
        }),
{
    law_trip_keeps_to_the_budget(
        bank,
        entries,
        items,
        trip_capacity(who),
        entries.len() as int,
    );
}

/// All but one of the spaces of a bag may be used for a trip.
pub proof fn law_trip_may_use_all_spaces_but_one(who: Character)
    ensures
        who.inventory_max_items >= 1 ==> trip_capacity(who) + 1 == who.inventory_max_items,
        who.inventory_max_items < 1 ==> trip_capacity(who) == 0,
{
}

/// A wish that the skill's level is too low for, or that has no recipe, is passed over: nothing is
/// planned, taken or reserved for it. Any other is made as far as the supplies go.
pub proof fn law_wish_beyond_the_level_is_passed_over(
    s: Settling,
    e: EntryView,
    items: Seq<Item>,
    who: Character,
    g: spec_fn(int, int, int) -> Option<i32>,
    h: spec_fn(int, int, int) -> i32,
)
    ensures
        recipe_of(items, e.code) is None ==> settle_step(s, e, items, who, g, h) == s,
        recipe_of(items, e.code) matches Some(craft) ==> (craft.level matches Some(req) && level_in(
            who,
            e.skill,
        ) < req) ==> settle_step(s, e, items, who, g, h) == s,
        recipe_of(items, e.code) matches Some(craft) ==> !(craft.level matches Some(req) && level_in(
            who,
            e.skill,
        ) < req) ==> (exists|i: int|
            0 <= i < items.len() && (#[trigger] items[i]).code@ == e.code && items[i].craft == Some(
                craft,
            ) && settle_step(s, e, items, who, g, h) == settle_item(s, e, g, h, i, craft.items@)),
{
    if let Some(i) = item_index(items, e.code) {
        assert(is_first_item(items, e.code, i));
        assert(items[i].code@ == e.code);
    }
}

/// Whether `k` is the last mention of its code among the ingredients.
pub open spec fn mentioned_last(ings: Seq<CraftIngredient>, k: int) -> bool {
    0 <= k < ings.len() && !exists|j: int|
        k < j < ings.len() && (#[trigger] ings[j]).code@ == ings[k].code@
}

/// Whether a need is that of the last mention of an ingredient, among the first `n`.
pub open spec fn is_last_need(
    need: (Seq<char>, i32, i32),
    h: spec_fn(int, int, int) -> i32,
    i: int,
    ings: Seq<CraftIngredient>,
    now: int,
    later: int,
    n: int,
) -> bool {
    exists|k: int|
        k < n && #[trigger] mentioned_last(ings, k) && need == (
            ings[k].code@,
            h(i, k, now),
            h(i, k, later),
        )
}

/// Whether a share is that of the last mention of an ingredient, among the first `n`.
pub open spec fn is_last_share(
    share: i32,
    g: spec_fn(int, int, int) -> Option<i32>,
    i: int,
    ings: Seq<CraftIngredient>,
    supply: Map<Seq<char>, i32>,
    n: int,
) -> bool {
    exists|k: int|
        k < n && #[trigger] mentioned_last(ings, k) && g(i, k, stock(supply, ings[k].code@))
            == Some(share)
}

/// Where a recipe names an ingredient more than once, the last mention counts: it alone says how
/// much is taken now and how much later.
pub proof fn law_last_mention_counts(
    h: spec_fn(int, int, int) -> i32,
    i: int,
    ings: Seq<CraftIngredient>,
    now: int,
    later: int,
    n: int,
)
    requires
        0 <= n <= ings.len(),
    ensures
        ({
            let needs = need_list(h, i, ings, now, later, n);
            &&& forall|k: int|
                0 <= k < n && #[trigger] mentioned_last(ings, k) ==> needs.contains(
                    (ings[k].code@, h(i, k, now), h(i, k, later)),
                )
            &&& forall|a: int|
                0 <= a < needs.len() ==> is_last_need(
                    #[trigger] needs[a],
                    h,
                    i,
                    ings,
                    now,
                    later,
                    n,
                )
        }),
    decreases n,
{
    if n > 0 {
        law_last_mention_counts(h, i, ings, now, later, n - 1);
        let before = need_list(h, i, ings, now, later, n - 1);
        let needs = need_list(h, i, ings, now, later, n);
        assert(is_last_of(ings, n - 1) == mentioned_last(ings, n - 1));
        assert forall|k: int| 0 <= k < n && #[trigger] mentioned_last(
            ings,
            k,
        ) implies needs.contains((ings[k].code@, h(i, k, now), h(i, k, later))) by {
            let entry = (ings[k].code@, h(i, k, now), h(i, k, later));
            if k < n - 1 {
                let a = before.index_of(entry);
                assert(needs[a] == entry);
            } else {
                assert(needs[before.len() as int] == entry);
            }
        }
        assert forall|a: int| 0 <= a < needs.len() implies is_last_need(
            #[trigger] needs[a],
            h,
            i,
            ings,
            now,
            later,
            n,
        ) by {
            if a < before.len() {
                assert(needs[a] == before[a]);
                assert(is_last_need(before[a], h, i, ings, now, later, n - 1));
                let k = choose|k: int|
                    k < n - 1 && #[trigger] mentioned_last(ings, k) && before[a] == (
                        ings[k].code@,
                        h(i, k, now),
                        h(i, k, later),
                    );
                assert(k < n && mentioned_last(ings, k));
            } else {
                assert(mentioned_last(ings, n - 1));
            }
        }
    }
}

/// Only the last mention of an ingredient limits how many crafts can be made.
pub proof fn law_last_mention_limits(
    g: spec_fn(int, int, int) -> Option<i32>,
    i: int,
    ings: Seq<CraftIngredient>,
    supply: Map<Seq<char>, i32>,
    n: int,
)
    requires
        0 <= n <= ings.len(),
    ensures
        ({
            let shares = share_list(g, i, ings, supply, n);
            &&& forall|k: int|
                0 <= k < n && #[trigger] mentioned_last(ings, k) ==> (g(
                    i,
                    k,
                    stock(supply, ings[k].code@),
                ) matches Some(s) ==> shares.contains(s))
            &&& forall|a: int|
                0 <= a < shares.len() ==> is_last_share(#[trigger] shares[a], g, i, ings, supply, n)
        }),
    decreases n,
{
    if n > 0 {
        law_last_mention_limits(g, i, ings, supply, n - 1);
        let before = share_list(g, i, ings, supply, n - 1);
        let shares = share_list(g, i, ings, supply, n);
        assert(is_last_of(ings, n - 1) == mentioned_last(ings, n - 1));
        assert forall|k: int| 0 <= k < n && #[trigger] mentioned_last(ings, k) implies (g(
            i,
            k,
            stock(supply, ings[k].code@),
        ) matches Some(s) ==> shares.contains(s)) by {
            if let Some(s) = g(i, k, stock(supply, ings[k].code@)) {
                if k < n - 1 {
                    let a = before.index_of(s);
                    assert(shares[a] == s);
                } else {
                    assert(shares[before.len() as int] == s);
                }
            }
        }
        assert forall|a: int| 0 <= a < shares.len() implies is_last_share(
            #[trigger] shares[a],
            g,
            i,
            ings,
            supply,
            n,
        ) by {
            if a < before.len() {
                assert(shares[a] == before[a]);
                assert(is_last_share(before[a], g, i, ings, supply, n - 1));
                let k = choose|k: int|
                    k < n - 1 && #[trigger] mentioned_last(ings, k) && g(
                        i,
                        k,
                        stock(supply, ings[k].code@),
                    ) == Some(before[a]);
                assert(k < n && mentioned_last(ings, k));
            } else {
                assert(mentioned_last(ings, n - 1));
            }
        }
    }
}

/// The quantities of the first `n` stacks of a bank with a code, added up.
pub open spec fn bank_sum(bank: Seq<BankItem>, c: Seq<char>, n: int) -> int
    decreases n,
{
    if n <= 0 {
        0
    } else {
        bank_sum(bank, c, n - 1) + if bank[n - 1].code@ == c {
            bank[n - 1].quantity as int
        } else {
            0
        }
    }
}

/// What a bank has of an item is what all its stacks of it hold together.
pub proof fn law_bank_supply_adds_up(bank: Seq<BankItem>, c: Seq<char>, n: int)
    requires
        0 <= n <= bank.len(),
        forall|k: int| 0 <= k <= n ==> fits_i32(#[trigger] bank_sum(bank, c, k)),
    ensures
        stock(banked(bank, n), c) == bank_sum(bank, c, n),
    decreases n,
{
    if n > 0 {
        law_bank_supply_adds_up(bank, c, n - 1);
        assert(fits_i32(bank_sum(bank, c, n)));
    }
}

} // verus!
