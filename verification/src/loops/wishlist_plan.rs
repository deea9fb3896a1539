//! What can be made of the wishlist now, and the planning pass as a whole.
//!
//! How far a supply goes depends on what recycling is expected to give back, which is a matter of
//! rounding real numbers; that much is handed in.

use vstd::prelude::*;

use super::bank_ops::deposit_views;
use super::crafting_exec::{
    empty_trip, final_views, plan_crafting_trip, trip_capacity, trip_steps, CraftingTrip,
};
use super::crafting_plan::{
    allocate, allocate_upgrade_crafts, build_wishlist, code_set, crafts_to_close, entry_views,
    filled, filler_candidates, fillers, helps, is_level_enough,
    least, less_now, level_suffices, max_affordable, need_views, plan_fillers, settle_wishlist_entry, wishes_of,
    wishlist, with_later, skill_gap, Allocation, CraftPlanEntry, EntryView, NetNeed, PlanTier,
    WISHLIST_SKILLS,
};
use super::init::{is_entry, merge_priorities};
use super::market::{stock, stock_of};
use super::supply::{bank_supply, banked, merged};
use super::upgrade_steps::upgrade_order;
use crate::arith::{max_int, min_int};
use crate::flags::{GameState, StateView};
use crate::optimize::skills::{level_in, skill_level, xp_progress};
use crate::table::Table;
use crate::text::{has_code, same};
use crate::types::{find_item, item_index, BankItem, Character, CraftInfo, CraftIngredient, Item};

verus! {

/// Whether an ingredient is the last one of a recipe with its code, which is the one that counts.
pub open spec fn is_last_of(ings: Seq<CraftIngredient>, k: int) -> bool {
    forall|j: int| k < j < ings.len() ==> (#[trigger] ings[j]).code@ != ings[k].code@
}

fn counts(ings: &[CraftIngredient], k: usize) -> (r: bool)
    requires
        k < ings@.len(),
    ensures
        r == is_last_of(ings@, k as int),
{
    let len: usize = ings.len();
    let mut j: usize = k + 1;
    while j < len
        invariant
            len == ings@.len(),
            k < j <= len,
            forall|m: int| k < m < j ==> (#[trigger] ings@[m]).code@ != ings@[k as int].code@,
        decreases len - j,
    {
        if same(&ings[j].code, &ings[k].code) {
            return false;
        }
        j += 1;
    }
    true
}

/// Ingredient `k` of item `i` exists.
pub open spec fn is_ingredient(items: Seq<Item>, i: usize, k: usize) -> bool {
    i < items.len() && (items[i as int].craft matches Some(craft) && k < craft.items@.len())
}

/// It can be said of every ingredient how many crafts a supply of it is enough for.
pub open spec fn can_share<S: Fn(usize, usize, i32) -> Option<i32>>(
    share: S,
    items: Seq<Item>,
) -> bool {
    forall|i: usize, k: usize, have: i32|
        is_ingredient(items, i, k) ==> #[trigger] call_requires(share, (i, k, have))
}

/// `share` says what `g` does: how many crafts of an item a supply of one of its ingredients is
/// enough for; nothing where the ingredient is not used up.
pub open spec fn shares_by<S: Fn(usize, usize, i32) -> Option<i32>>(
    share: S,
    g: spec_fn(int, int, int) -> Option<i32>,
) -> bool {
    forall|i: usize, k: usize, have: i32, r: Option<i32>| #[trigger]
        call_ensures(share, (i, k, have), r) ==> r == g(i as int, k as int, have as int)
}

/// It can be said of every ingredient how much of it a number of crafts takes.
pub open spec fn can_need<N: Fn(usize, usize, i32) -> i32>(need: N, items: Seq<Item>) -> bool {
    forall|i: usize, k: usize, n: i32|
        is_ingredient(items, i, k) ==> #[trigger] call_requires(need, (i, k, n))
}

/// `need` says what `h` does: how much of one of its ingredients a number of crafts of an item
/// takes.
pub open spec fn needs_by<N: Fn(usize, usize, i32) -> i32>(
    need: N,
    h: spec_fn(int, int, int) -> i32,
) -> bool {
    forall|i: usize, k: usize, n: i32, r: i32| #[trigger]
        call_ensures(need, (i, k, n), r) ==> r == h(i as int, k as int, n as int)
}

/// How many crafts of item `i` the supply of each of its first `n` ingredients is enough for.
pub open spec fn share_list(
    g: spec_fn(int, int, int) -> Option<i32>,
    i: int,
    ings: Seq<CraftIngredient>,
    supply: Map<Seq<char>, i32>,
    n: int,
) -> Seq<i32>
    decreases n,
{
    if n <= 0 {
        Seq::empty()
    } else {
        let before = share_list(g, i, ings, supply, n - 1);
        match g(i, n - 1, stock(supply, ings[n - 1].code@)) {
            Some(s) => if is_last_of(ings, n - 1) {
                before.push(s)
            } else {
                before
            },
            None => before,
        }
    }
}

/// What `now` and `later` crafts of item `i` take of each of its first `n` ingredients.
pub open spec fn need_list(
    h: spec_fn(int, int, int) -> i32,
    i: int,
    ings: Seq<CraftIngredient>,
    now: int,
    later: int,
    n: int,
) -> Seq<(Seq<char>, i32, i32)>
    decreases n,
{
    if n <= 0 {
        Seq::empty()
    } else {
        let before = need_list(h, i, ings, now, later, n - 1);
        if is_last_of(ings, n - 1) {
            before.push((ings[n - 1].code@, h(i, n - 1, now), h(i, n - 1, later)))
        } else {
            before
        }
    }
}

/// How far the wishlist has been settled.
#[verifier::ext_equal]
pub struct Settling {
    pub planned: Seq<EntryView>,
    pub supply: Map<Seq<char>, i32>,
    pub reserved: Map<Seq<char>, i32>,
}

/// How many crafts of an entry for item `i` can be made now.
pub open spec fn affordable_now(
    s: Settling,
    e: EntryView,
    g: spec_fn(int, int, int) -> Option<i32>,
    i: int,
    ings: Seq<CraftIngredient>,
) -> int {
    let shares = share_list(g, i, ings, s.supply, ings.len() as int);
    max_int(0, min_int(least(shares, shares.len() as int), e.quantity))
}

/// The settling once an entry for item `i` has been considered: what can be made now is planned and
/// takes its materials, and the rest reserves its own.
pub open spec fn settle_item(
    s: Settling,
    e: EntryView,
    g: spec_fn(int, int, int) -> Option<i32>,
    h: spec_fn(int, int, int) -> i32,
    i: int,
    ings: Seq<CraftIngredient>,
) -> Settling {
    let now = affordable_now(s, e, g, i, ings);
    let needs = need_list(h, i, ings, now, e.quantity - now, ings.len() as int);
    Settling {
        planned: if now > 0 {
            s.planned.push(EntryView { quantity: now, tier: PlanTier::Wishlist, ..e })
        } else {
            s.planned
        },
        supply: if now > 0 {
            less_now(s.supply, needs, needs.len() as int)
        } else {
            s.supply
        },
        reserved: if now < e.quantity {
            with_later(s.reserved, needs, needs.len() as int)
        } else {
            s.reserved
        },
    }
}

/// The settling once an entry has been considered; one that the character cannot make is passed
/// over.
pub open spec fn settle_step(
    s: Settling,
    e: EntryView,
    items: Seq<Item>,
    who: Character,
    g: spec_fn(int, int, int) -> Option<i32>,
    h: spec_fn(int, int, int) -> i32,
) -> Settling {
    match item_index(items, e.code) {
        Some(i) => match items[i].craft {
            Some(craft) => if level_suffices(items[i], level_in(who, e.skill)) {
                settle_item(s, e, g, h, i, craft.items@)
            } else {
                s
            },
            None => s,
        },
        None => s,
    }
}

/// The settling after the first `n` entries.
pub open spec fn settle(
    s: Settling,
    entries: Seq<EntryView>,
    items: Seq<Item>,
    who: Character,
    g: spec_fn(int, int, int) -> Option<i32>,
    h: spec_fn(int, int, int) -> i32,
    n: int,
) -> Settling
    decreases n,
{
    if n <= 0 {
        s
    } else {
        settle_step(settle(s, entries, items, who, g, h, n - 1), entries[n - 1], items, who, g, h)
    }
}

fn shares_of<S: Fn(usize, usize, i32) -> Option<i32>>(
    items: &[Item],
    i: usize,
    craft: &CraftInfo,
    supply: &Table<i32>,
    share: &S,
) -> (r: Vec<i32>)
    requires
        i < items@.len(),
        items@[i as int].craft == Some(*craft),
        supply.wf(),
        can_share(*share, items@),
    ensures
        forall|g: spec_fn(int, int, int) -> Option<i32>|
            #[trigger] shares_by(*share, g) ==> r@ == share_list(
                g,
                i as int,
                craft.items@,
                supply@,
                craft.items@.len() as int,
            ),
{
    let mut out: Vec<i32> = Vec::new();
    let mut k: usize = 0;
    while k < craft.items.len()
        invariant
            i < items@.len(),
            items@[i as int].craft == Some(*craft),
            supply.wf(),
            can_share(*share, items@),
            k <= craft.items@.len(),
            forall|g: spec_fn(int, int, int) -> Option<i32>|
                #[trigger] shares_by(*share, g) ==> out@ == share_list(
                    g,
                    i as int,
                    craft.items@,
                    supply@,
                    k as int,
                ),
        decreases craft.items@.len() - k,
    {
        assert(is_ingredient(items@, i, k));
        let have: i32 = stock_of(supply, &craft.items[k].code);
        let s: Option<i32> = (*share)(i, k, have);
        if counts(&craft.items, k) {
            if let Some(n) = s {
                out.push(n);
            }
        }
        assert forall|g: spec_fn(int, int, int) -> Option<i32>| #[trigger]
            shares_by(*share, g) implies out@ == share_list(
            g,
            i as int,
            craft.items@,
            supply@,
            k + 1,
        ) by {
            assert(s == g(i as int, k as int, have as int));
        }
        k += 1;
    }
    out
}

fn needs_of<N: Fn(usize, usize, i32) -> i32>(
    items: &[Item],
    i: usize,
    craft: &CraftInfo,
    now: i32,
    later: i32,
    need: &N,
) -> (r: Vec<NetNeed>)
    requires
        i < items@.len(),
        items@[i as int].craft == Some(*craft),
        can_need(*need, items@),
    ensures
        forall|h: spec_fn(int, int, int) -> i32|
            #[trigger] needs_by(*need, h) ==> need_views(r@) == need_list(
                h,
                i as int,
                craft.items@,
                now as int,
                later as int,
                craft.items@.len() as int,
            ),
{
    let mut out: Vec<NetNeed> = Vec::new();
    assert(need_views(out@) =~= Seq::empty());
    let mut k: usize = 0;
    while k < craft.items.len()
        invariant
            i < items@.len(),
            items@[i as int].craft == Some(*craft),
            can_need(*need, items@),
            k <= craft.items@.len(),
            forall|h: spec_fn(int, int, int) -> i32|
                #[trigger] needs_by(*need, h) ==> need_views(out@) == need_list(
                    h,
                    i as int,
                    craft.items@,
                    now as int,
                    later as int,
                    k as int,
                ),
        decreases craft.items@.len() - k,
    {
        assert(is_ingredient(items@, i, k));
        let ghost had = out@;
        if counts(&craft.items, k) {
            let a: i32 = (*need)(i, k, now);
            let b: i32 = (*need)(i, k, later);
            out.push(NetNeed { code: craft.items[k].code.clone(), now: a, later: b });
            assert(need_views(out@) =~= need_views(had).push(
                (craft.items@[k as int].code@, a, b),
            ));
            assert forall|h: spec_fn(int, int, int) -> i32| #[trigger]
                needs_by(*need, h) implies need_views(out@) == need_list(
                h,
                i as int,
                craft.items@,
                now as int,
                later as int,
                k + 1,
            ) by {
                assert(a == h(i as int, k as int, now as int));
                assert(b == h(i as int, k as int, later as int));
            }
        }
        k += 1;
    }
    out
}

/// Parts the wishlist into what can be made now, as far as the supply goes, and what has to wait. An
/// entry may be made in part; the materials of the rest are reserved.
pub fn classify_wishlist_craftable<
    S: Fn(usize, usize, i32) -> Option<i32>,
    N: Fn(usize, usize, i32) -> i32,
>(
    items: &[Item],
    character: &Character,
    entries: &[CraftPlanEntry],
    remaining_supply: &mut Table<i32>,
    share: &S,
    need: &N,
) -> (r: (Vec<CraftPlanEntry>, Table<i32>))
    requires
        old(remaining_supply).wf(),
        can_share(*share, items@),
        can_need(*need, items@),
        forall|i: int| 0 <= i < entries@.len() ==> (#[trigger] entries@[i]).quantity >= 0,
    ensures
        final(remaining_supply).wf(),
        r.1.wf(),
        forall|g: spec_fn(int, int, int) -> Option<i32>, h: spec_fn(int, int, int) -> i32|
            #[trigger] shares_by(*share, g) && #[trigger] needs_by(*need, h) ==> {
                let s = settle(
                    Settling {
                        planned: Seq::empty(),
                        supply: old(remaining_supply)@,
                        reserved: Map::empty(),
                    },
                    entry_views(entries@),
                    items@,
                    *character,
                    g,
                    h,
                    entries@.len() as int,
                );
                &&& entry_views(r.0@) == s.planned
                &&& final(remaining_supply)@ == s.supply
                &&& r.1@ == s.reserved
            },
{
    let ghost start = Settling {
        planned: Seq::empty(),
        supply: remaining_supply@,
        reserved: Map::empty(),
    };
    let ghost views = entry_views(entries@);
    let mut planned: Vec<CraftPlanEntry> = Vec::new();
    let mut reserved: Table<i32> = Table::new();
    assert(entry_views(planned@) =~= Seq::empty());
    let mut n: usize = 0;
    while n < entries.len()
        invariant
            n <= entries@.len(),
            remaining_supply.wf(),
            reserved.wf(),
            views == entry_views(entries@),
            can_share(*share, items@),
            can_need(*need, items@),
            forall|i: int| 0 <= i < entries@.len() ==> (#[trigger] entries@[i]).quantity >= 0,
            forall|g: spec_fn(int, int, int) -> Option<i32>, h: spec_fn(int, int, int) -> i32|
                #[trigger] shares_by(*share, g) && #[trigger] needs_by(*need, h) ==> settle(
                    start,
                    views,
                    items@,
                    *character,
                    g,
                    h,
                    n as int,
                ) == (Settling {
                    planned: entry_views(planned@),
                    supply: remaining_supply@,
                    reserved: reserved@,
                }),
        decreases entries@.len() - n,
    {
        let entry: &CraftPlanEntry = &entries[n];
        assert(views[n as int] == entry@);
        if let Some(i) = find_item(items, &entry.code) {
            if let Some(craft) = &items[i].craft {
                if is_level_enough(&items[i], skill_level(character, &entry.skill)) {
                    let ghost s = Settling {
                        planned: entry_views(planned@),
                        supply: remaining_supply@,
                        reserved: reserved@,
                    };
                    let shares: Vec<i32> = shares_of(items, i, craft, remaining_supply, share);
                    assert(entries@[n as int].quantity >= 0);
                    let now: i32 = max_affordable(&shares, entry.quantity);
                    let needs: Vec<NetNeed> = needs_of(
                        items,
                        i,
                        craft,
                        now,
                        entry.quantity - now,
                        need,
                    );
                    assert(need_views(needs@).len() == needs@.len());
                    let made = settle_wishlist_entry(
                        entry,
                        now,
                        &needs,
                        remaining_supply,
                        &mut reserved,
                    );
                    let ghost had = planned@;
                    if let Some(e) = made {
                        planned.push(e);
                        assert(entry_views(planned@) =~= entry_views(had).push(e@));
                    }
                    assert forall|
                        g: spec_fn(int, int, int) -> Option<i32>,
                        h: spec_fn(int, int, int) -> i32,
                    | #[trigger] shares_by(*share, g) && #[trigger] needs_by(*need, h) implies settle(
                        start,
                        views,
                        items@,
                        *character,
                        g,
                        h,
                        n + 1,
                    ) == (Settling {
                        planned: entry_views(planned@),
                        supply: remaining_supply@,
                        reserved: reserved@,
                    }) by {
                        assert(settle(start, views, items@, *character, g, h, n as int) == s);
                        assert(now == affordable_now(s, entry@, g, i as int, craft.items@));
                    }
                }
            }
        }
        n += 1;
    }
    (planned, reserved)
}

proof fn lemma_wishes_are_whole(
    skill: Seq<char>,
    level: int,
    gap: int,
    items: Seq<Item>,
    xp: Seq<i32>,
    n: int,
)
    requires
        0 <= n <= items.len(),
        gap > 0,
    ensures
        forall|i: int|
            0 <= i < wishes_of(skill, level, gap, items, xp, n).len() ==> (#[trigger] wishes_of(
                skill,
                level,
                gap,
                items,
                xp,
                n,
            )[i]).quantity >= 0,
    decreases n,
{
    if n > 0 {
        lemma_wishes_are_whole(skill, level, gap, items, xp, n - 1);
        let p = xp[n - 1] as int;
        if p > 0 {
            assert((gap + p - 1) / p >= 0) by (nonlinear_arith)
                requires
                    gap > 0,
                    p > 0,
            ;
        }
        let before = wishes_of(skill, level, gap, items, xp, n - 1);
        let after = wishes_of(skill, level, gap, items, xp, n);
        assert forall|i: int| 0 <= i < after.len() implies (#[trigger] after[i]).quantity >= 0 by {
            if i < before.len() {
                assert(before[i].quantity >= 0);
            }
        }
    }
}

proof fn lemma_wishlist_is_whole(who: Character, items: Seq<Item>, xp: Seq<i32>, k: int)
    requires
        0 <= k <= 4,
    ensures
        forall|i: int|
            0 <= i < wishlist(who, items, xp, k).len() ==> (#[trigger] wishlist(
                who,
                items,
                xp,
                k,
            )[i]).quantity >= 0,
    decreases k,
{
    if k > 0 {
        lemma_wishlist_is_whole(who, items, xp, k - 1);
        let skill = WISHLIST_SKILLS@[k - 1]@;
        let before = wishlist(who, items, xp, k - 1);
        let after = wishlist(who, items, xp, k);
        if skill_gap(who, skill) > 0 {
            let level = xp_progress(who, skill).0;
            let gap = skill_gap(who, skill);
            lemma_wishes_are_whole(skill, level, gap, items, xp, items.len() as int);
            let more = wishes_of(skill, level, gap, items, xp, items.len() as int);
            assert forall|i: int| 0 <= i < after.len() implies (#[trigger] after[i]).quantity
                >= 0 by {
                if i < before.len() {
                    assert(before[i].quantity >= 0);
                } else {
                    assert(more[i - before.len()].quantity >= 0);
                }
            }
        }
    }
}

/// The allocation of materials to upgrades.
pub open spec fn upgrades_first(
    s: StateView,
    who: Character,
    supply: Map<Seq<char>, i32>,
) -> Allocation {
    let steps = upgrade_order(s, true);
    allocate(supply, steps, steps.len() as int, s.data.items@, who)
}

/// What the wishlist gets of what the upgrades leave.
pub open spec fn wishes_then(
    s: StateView,
    who: Character,
    xp: Seq<i32>,
    supply: Map<Seq<char>, i32>,
    g: spec_fn(int, int, int) -> Option<i32>,
    h: spec_fn(int, int, int) -> i32,
) -> Settling {
    let wishes = wishlist(who, s.data.items@, xp, 4);
    settle(
        Settling {
            planned: Seq::empty(),
            supply: upgrades_first(s, who, supply).supply,
            reserved: Map::empty(),
        },
        wishes,
        s.data.items@,
        who,
        g,
        h,
        wishes.len() as int,
    )
}

/// Runs a planning pass: upgrades claim materials first, the wishlist gets what is left, and what
/// either of them waits for is reserved for both. Returns what is to be made, and the codes that
/// filler must avoid: everything that was considered.
pub fn plan_crafting_priority<
    S: Fn(usize, usize, i32) -> Option<i32>,
    N: Fn(usize, usize, i32) -> i32,
>(
    state: &mut GameState,
    character: &Character,
    craft_xp: &[i32],
    remaining_supply: &mut Table<i32>,
    share: &S,
    need: &N,
) -> (r: (Vec<CraftPlanEntry>, Vec<String>))
    requires
        old(state).wf(),
        old(remaining_supply).wf(),
        craft_xp@.len() == old(state)@.data.items@.len(),
        can_share(*share, old(state)@.data.items@),
        can_need(*need, old(state)@.data.items@),
    ensures
        final(state).wf(),
        final(remaining_supply).wf(),
        final(state)@ == (StateView { reserved: final(state)@.reserved, ..old(state)@ }),
        forall|g: spec_fn(int, int, int) -> Option<i32>, h: spec_fn(int, int, int) -> i32|
            #[trigger] shares_by(*share, g) && #[trigger] needs_by(*need, h) ==> {
                let a = upgrades_first(old(state)@, *character, old(remaining_supply)@);
                let s = wishes_then(
                    old(state)@,
                    *character,
                    craft_xp@,
                    old(remaining_supply)@,
                    g,
                    h,
                );
                &&& entry_views(r.0@) == a.planned + s.planned
                &&& final(remaining_supply)@ == s.supply
                &&& final(state)@.reserved == merged(a.reserved, s.reserved)
            },
        forall|c: Seq<char>|
            #[trigger] has_code(r.1@, c) == (upgrades_first(
                old(state)@,
                *character,
                old(remaining_supply)@,
            ).codes.contains(c) || is_entry(
                wishlist(*character, old(state)@.data.items@, craft_xp@, 4),
                wishlist(*character, old(state)@.data.items@, craft_xp@, 4).len() as int,
                c,
            )),
{
    let ghost s0 = state@;
    let ghost supply0 = remaining_supply@;
    let (upgrades, upgrade_reserved, upgrade_codes) = allocate_upgrade_crafts(
        state,
        character,
        remaining_supply,
    );
    let ghost a = upgrades_first(s0, *character, supply0);
    let wishlist_entries: Vec<CraftPlanEntry> = build_wishlist(state, character, craft_xp);
    let ghost wishes = wishlist(*character, s0.data.items@, craft_xp@, 4);
    proof {
        lemma_wishlist_is_whole(*character, s0.data.items@, craft_xp@, 4);
        assert(entry_views(wishlist_entries@).len() == wishlist_entries@.len());
        assert forall|i: int| 0 <= i < wishlist_entries@.len() implies (
        #[trigger] wishlist_entries@[i]).quantity >= 0 by {
            assert(entry_views(wishlist_entries@)[i].quantity >= 0);
        }
    }
    let (made, wishlist_reserved) = classify_wishlist_craftable(
        &state.data().items,
        character,
        &wishlist_entries,
        remaining_supply,
        share,
        need,
    );
    assert(entry_views(upgrades@ + made@) =~= entry_views(upgrades@) + entry_views(made@));
    let (planned, exclude) = merge_priorities(
        state,
        upgrades,
        made,
        upgrade_reserved,
        &wishlist_reserved,
        upgrade_codes,
        &wishlist_entries,
    );
    assert forall|c: Seq<char>| #[trigger] has_code(exclude@, c) == (a.codes.contains(c)
        || is_entry(wishes, wishes.len() as int, c)) by {
        assert(code_set(upgrade_codes@).contains(c) == has_code(upgrade_codes@, c));
    }
    (planned, exclude)
}

/// Everything that a planning pass considers, which filler must avoid.
pub open spec fn considered(
    s: StateView,
    who: Character,
    xp: Seq<i32>,
    supply: Map<Seq<char>, i32>,
) -> Set<Seq<char>> {
    let wishes = wishlist(who, s.data.items@, xp, 4);
    Set::new(
        |c: Seq<char>|
            upgrades_first(s, who, supply).codes.contains(c) || is_entry(
                wishes,
                wishes.len() as int,
                c,
            ),
    )
}

/// What the bank holds, by code.
pub open spec fn all_banked(s: StateView) -> Map<Seq<char>, i32> {
    banked(s.bank, s.bank.len() as int)
}

/// What is sure to be made from what the bank holds: upgrades, then wishes.
pub open spec fn sure_crafts(
    s: StateView,
    who: Character,
    xp: Seq<i32>,
    g: spec_fn(int, int, int) -> Option<i32>,
    h: spec_fn(int, int, int) -> i32,
) -> Seq<EntryView> {
    upgrades_first(s, who, all_banked(s)).planned + wishes_then(
        s,
        who,
        xp,
        all_banked(s),
        g,
        h,
    ).planned
}

/// What may fill idle crafting time besides.
pub open spec fn idle_crafts(s: StateView, who: Character, xp: Seq<i32>) -> Seq<EntryView> {
    fillers(who, s.data.items@, xp, considered(s, who, xp, all_banked(s)), 3)
}

fn plan_from_bank<S: Fn(usize, usize, i32) -> Option<i32>, N: Fn(usize, usize, i32) -> i32>(
    state: &mut GameState,
    character: &Character,
    craft_xp: &[i32],
    share: &S,
    need: &N,
) -> (r: (Vec<CraftPlanEntry>, Vec<CraftPlanEntry>, Table<i32>))
    requires
        old(state).wf(),
        craft_xp@.len() == old(state)@.data.items@.len(),
        can_share(*share, old(state)@.data.items@),
        can_need(*need, old(state)@.data.items@),
    ensures
        final(state).wf(),
        r.2.wf(),
        final(state)@ == (StateView { reserved: final(state)@.reserved, ..old(state)@ }),
        entry_views(r.1@) == idle_crafts(old(state)@, *character, craft_xp@),
        forall|g: spec_fn(int, int, int) -> Option<i32>, h: spec_fn(int, int, int) -> i32|
            #[trigger] shares_by(*share, g) && #[trigger] needs_by(*need, h) ==> {
                let s0 = old(state)@;
                let w = wishes_then(s0, *character, craft_xp@, all_banked(s0), g, h);
                &&& entry_views(r.0@) == sure_crafts(s0, *character, craft_xp@, g, h)
                &&& r.2@ == w.supply
                &&& final(state)@.reserved == merged(
                    upgrades_first(s0, *character, all_banked(s0)).reserved,
                    w.reserved,
                )
            },
{
    let ghost s0 = state@;
    let bank: Vec<BankItem> = state.bank_snapshot();
    let mut supply: Table<i32> = bank_supply(&bank);
    let (planned, exclude) = plan_crafting_priority(
        state,
        character,
        craft_xp,
        &mut supply,
        share,
        need,
    );
    assert(code_set(exclude@) =~= considered(s0, *character, craft_xp@, all_banked(s0)));
    let idle: Vec<CraftPlanEntry> = filler_candidates(state, character, &exclude, craft_xp);
    (planned, idle, supply)
}

/// Plans the next crafting trip from what the bank holds: upgrades first, then wishes, then filler,
/// trimmed to what one trip can carry. Returns everything that was up for it, and the trip; what the
/// upgrades and wishes wait for is reserved.
pub fn plan_next_trip<S: Fn(usize, usize, i32) -> Option<i32>, N: Fn(usize, usize, i32) -> i32>(
    state: &mut GameState,
    character: &Character,
    craft_xp: &[i32],
    share: &S,
    need: &N,
) -> (r: (Vec<CraftPlanEntry>, CraftingTrip))
    requires
        old(state).wf(),
        craft_xp@.len() == old(state)@.data.items@.len(),
        can_share(*share, old(state)@.data.items@),
        can_need(*need, old(state)@.data.items@),
    ensures
        final(state).wf(),
        final(state)@ == (StateView { reserved: final(state)@.reserved, ..old(state)@ }),
        forall|g: spec_fn(int, int, int) -> Option<i32>, h: spec_fn(int, int, int) -> i32|
            #[trigger] shares_by(*share, g) && #[trigger] needs_by(*need, h) ==> {
                let s0 = old(state)@;
                let w = wishes_then(s0, *character, craft_xp@, all_banked(s0), g, h);
                let all = sure_crafts(s0, *character, craft_xp@, g, h) + idle_crafts(
                    s0,
                    *character,
                    craft_xp@,
                );
                let t = trip_steps(
                    empty_trip(w.supply),
                    all,
                    s0.data.items@,
                    trip_capacity(*character),
                    all.len() as int,
                );
                &&& entry_views(r.0@) == all
                &&& deposit_views(r.1.withdraw@) == t.withdraw
                &&& final_views(r.1.plan@) == t.plan
                &&& final(state)@.reserved == merged(
                    upgrades_first(s0, *character, all_banked(s0)).reserved,
                    w.reserved,
                )
            },
{
    let (planned, idle, supply) = plan_from_bank(state, character, craft_xp, share, need);
    let ghost sure = planned@;
    let ghost more = idle@;
    let mut candidates: Vec<CraftPlanEntry> = planned;
    let mut rest: Vec<CraftPlanEntry> = idle;
    candidates.append(&mut rest);
    assert(entry_views(candidates@) =~= entry_views(sure) + entry_views(more));
    assert(entry_views(candidates@).len() == candidates@.len());
    let trip: CraftingTrip = plan_crafting_trip(
        &candidates,
        &state.data().items,
        character,
        supply,
    );
    (candidates, trip)
}

/// What could be made from what the bank holds, were there no limit to what a trip carries:
/// upgrades, wishes, and filler from what they leave. What the upgrades and wishes wait for is
/// reserved.
pub fn preview_plan<S: Fn(usize, usize, i32) -> Option<i32>, N: Fn(usize, usize, i32) -> i32>(
    state: &mut GameState,
    character: &Character,
    craft_xp: &[i32],
    share: &S,
    need: &N,
) -> (r: Vec<CraftPlanEntry>)
    requires
        old(state).wf(),
        craft_xp@.len() == old(state)@.data.items@.len(),
        can_share(*share, old(state)@.data.items@),
        can_need(*need, old(state)@.data.items@),
    ensures
        final(state).wf(),
        final(state)@ == (StateView { reserved: final(state)@.reserved, ..old(state)@ }),
        forall|g: spec_fn(int, int, int) -> Option<i32>, h: spec_fn(int, int, int) -> i32|
            #[trigger] shares_by(*share, g) && #[trigger] needs_by(*need, h) ==> {
                let s0 = old(state)@;
                let w = wishes_then(s0, *character, craft_xp@, all_banked(s0), g, h);
                let idle = idle_crafts(s0, *character, craft_xp@);
                &&& entry_views(r@) == filled(
                    sure_crafts(s0, *character, craft_xp@, g, h),
                    w.supply,
                    idle,
                    idle.len() as int,
                    s0.data.items@,
                ).0
                &&& final(state)@.reserved == merged(
                    upgrades_first(s0, *character, all_banked(s0)).reserved,
                    w.reserved,
                )
            },
{
    let (planned, idle, supply) = plan_from_bank(state, character, craft_xp, share, need);
    let mut plan: Vec<CraftPlanEntry> = planned;
    let mut left: Table<i32> = supply;
    assert(entry_views(idle@).len() == idle@.len());
    plan_fillers(&mut plan, &idle, &state.data().items, &mut left);
    plan
}

/// `after` plans `now` crafts of an entry and no more: none takes no materials, and all reserve
/// none.
pub open spec fn is_settled_as(s: Settling, after: Settling, e: EntryView, now: int) -> bool {
    &&& 0 <= now <= e.quantity
    &&& after.planned == if now > 0 {
        s.planned.push(EntryView { quantity: now, tier: PlanTier::Wishlist, ..e })
    } else {
        s.planned
    }
    &&& now == 0 ==> after.supply == s.supply
    &&& now == e.quantity ==> after.reserved == s.reserved
}

/// Settling an entry never plans more of it than was asked for, takes materials only for what it
/// plans, and reserves some only where it plans less than was asked for.
pub proof fn law_wish_is_made_or_reserved(
    s: Settling,
    e: EntryView,
    items: Seq<Item>,
    who: Character,
    g: spec_fn(int, int, int) -> Option<i32>,
    h: spec_fn(int, int, int) -> i32,
)
    requires
        e.quantity >= 0,
    ensures
        ({
            let after = settle_step(s, e, items, who, g, h);
            after == s || exists|now: int| #[trigger] is_settled_as(s, after, e, now)
        }),
{
    if let Some(i) = item_index(items, e.code) {
        if let Some(craft) = items[i].craft {
            if level_suffices(items[i], level_in(who, e.skill)) {
                let now = affordable_now(s, e, g, i, craft.items@);
                let after = settle_item(s, e, g, h, i, craft.items@);
                assert(is_settled_as(s, after, e, now));
            }
        }
    }
}

proof fn lemma_wish_is_listed(
    skill: Seq<char>,
    level: int,
    gap: int,
    items: Seq<Item>,
    xp: Seq<i32>,
    n: int,
    j: int,
)
    requires
        0 <= j < n <= items.len(),
        helps(items[j], xp[j] as int, skill, level),
    ensures
        wishes_of(skill, level, gap, items, xp, n).contains(
            EntryView {
                code: items[j].code@,
                skill,
                quantity: crafts_to_close(gap, xp[j] as int),
                tier: PlanTier::Wishlist,
            },
        ),
    decreases n,
{
    let wish = EntryView {
        code: items[j].code@,
        skill,
        quantity: crafts_to_close(gap, xp[j] as int),
        tier: PlanTier::Wishlist,
    };
    let before = wishes_of(skill, level, gap, items, xp, n - 1);
    let after = wishes_of(skill, level, gap, items, xp, n);
    if j == n - 1 {
        assert(after[after.len() - 1] == wish);
    } else {
        lemma_wish_is_listed(skill, level, gap, items, xp, n - 1, j);
        let i = before.index_of(wish);
        assert(after[i] == wish);
    }
}

proof fn lemma_wishlist_grows(
    who: Character,
    items: Seq<Item>,
    xp: Seq<i32>,
    a: int,
    b: int,
    e: EntryView,
)
    requires
        0 <= a <= b <= 4,
        wishlist(who, items, xp, a).contains(e),
    ensures
        wishlist(who, items, xp, b).contains(e),
    decreases b,
{
    if a < b {
        lemma_wishlist_grows(who, items, xp, a, b - 1, e);
        let before = wishlist(who, items, xp, b - 1);
        let i = before.index_of(e);
        assert(wishlist(who, items, xp, b)[i] == e);
    }
}

/// Every recipe that could close the gap to a skill's next tier is wished for, with as many crafts
/// as would close it, whatever else would close it too.
pub proof fn law_every_path_is_wished_for(
    who: Character,
    items: Seq<Item>,
    xp: Seq<i32>,
    k: int,
    j: int,
)
    requires
        0 <= k < 4,
        0 <= j < items.len(),
        skill_gap(who, WISHLIST_SKILLS@[k]@) > 0,
        helps(
            items[j],
            xp[j] as int,
            WISHLIST_SKILLS@[k]@,
            xp_progress(who, WISHLIST_SKILLS@[k]@).0,
        ),
    ensures
        wishlist(who, items, xp, 4).contains(
            EntryView {
                code: items[j].code@,
                skill: WISHLIST_SKILLS@[k]@,
                quantity: crafts_to_close(skill_gap(who, WISHLIST_SKILLS@[k]@), xp[j] as int),
                tier: PlanTier::Wishlist,
            },
        ),
{
    let skill = WISHLIST_SKILLS@[k]@;
    let level = xp_progress(who, skill).0;
    let gap = skill_gap(who, skill);
    let e = EntryView {
        code: items[j].code@,
        skill,
        quantity: crafts_to_close(gap, xp[j] as int),
        tier: PlanTier::Wishlist,
    };
    lemma_wish_is_listed(skill, level, gap, items, xp, items.len() as int, j);
    let before = wishlist(who, items, xp, k);
    let more = wishes_of(skill, level, gap, items, xp, items.len() as int);
    let i = more.index_of(e);
    assert(wishlist(who, items, xp, k + 1)[before.len() + i] == e);
    lemma_wishlist_grows(who, items, xp, k + 1, 4, e);
}

/// The crafts wished for close the gap, and one craft fewer would not, as long as their number
/// fits.
pub proof fn law_wish_closes_the_gap(gap: int, xp: int)
    requires
        gap > 0,
        xp > 0,
        crafts_to_close(gap, xp) < i32::MAX,
    ensures
        crafts_to_close(gap, xp) * xp >= gap,
        (crafts_to_close(gap, xp) - 1) * xp < gap,
{
    let n = (gap + xp - 1) / xp;
    assert(n * xp >= gap && (n - 1) * xp < gap) by (nonlinear_arith)
        requires
            n == (gap + xp - 1) / xp,
            xp > 0,
            gap > 0,
    ;
}

} // verus!
