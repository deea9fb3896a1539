//! What is settled before the loops start, and how a planning pass is wound up.

use vstd::prelude::*;

use super::crafting_exec::CraftingTrip;
use super::crafting_plan::{
    code_set, code_views, codes_by_kind, entry_views, insert_code, lowest_gear_level,
    refresh_shared_crafting_state, wishlist, CraftPlanEntry, EntryView,
};
use super::supply::{merge, merged};
use crate::arith::{sat_i32, saturated};
use crate::flags::{GameState, StateView};
use crate::table::Table;
use crate::text::has_code;
use crate::types::Character;

verus! {

/// Seeds what the characters measure each other against, before any loop starts: the fighter's
/// combat level, and the crafter's lowest gear level and wishlist. Without it everyone would be
/// measured against level 1 until the two got round to saying otherwise.
pub fn seed_shared_state(
    state: &mut GameState,
    fighter: &Character,
    crafter: &Character,
    craft_xp: &[i32],
)
    requires
        old(state).wf(),
        craft_xp@.len() == old(state)@.data.items@.len(),
    ensures
        final(state).wf(),
        ({
            let wishes = wishlist(*crafter, old(state)@.data.items@, craft_xp@, 4);
            let n = wishes.len() as int;
            &&& final(state)@ == (StateView {
                fighter_combat_level: fighter.level,
                crafter_min_gear_level: lowest_gear_level(*crafter) as i32,
                wishlist_owner: Some(crafter.name@),
                wishlist_equipment: final(state)@.wishlist_equipment,
                wishlist_alchemy: final(state)@.wishlist_alchemy,
                ..old(state)@
            })
            &&& code_views(final(state)@.wishlist_equipment) == codes_by_kind(wishes, false, n)
            &&& code_views(final(state)@.wishlist_alchemy) == codes_by_kind(wishes, true, n)
        }),
{
    state.set_fighter_combat_level(fighter.level);
    refresh_shared_crafting_state(state, crafter, craft_xp);
}

/// The gold that can be spent: the character's and the bank's; it stays at the edge of the 32-bit
/// range where it would leave it.
pub fn available_gold(character: &Character, bank_gold: i32) -> (r: i32)
    ensures
        r == sat_i32(character.gold + bank_gold),
{
    saturated(character.gold as i64 + bank_gold as i64)
}

/// Winds up a planning pass: upgrades come before wishlist crafts, what either of them waits for is
/// reserved for both, and everything that was considered for either is kept from being filler.
/// Returns the plan and the codes that filler must avoid.
pub fn merge_priorities(
    state: &mut GameState,
    upgrades: Vec<CraftPlanEntry>,
    wishes: Vec<CraftPlanEntry>,
    upgrade_reserved: Table<i32>,
    wishlist_reserved: &Table<i32>,
    upgrade_codes: Vec<String>,
    wishlist_entries: &[CraftPlanEntry],
) -> (r: (Vec<CraftPlanEntry>, Vec<String>))
    requires
        old(state).wf(),
        upgrade_reserved.wf(),
        wishlist_reserved.wf(),
    ensures
        final(state).wf(),
        final(state)@ == (StateView {
            reserved: merged(upgrade_reserved@, wishlist_reserved@),
            ..old(state)@
        }),
        r.0@ == upgrades@ + wishes@,
        forall|c: Seq<char>|
            #[trigger] has_code(r.1@, c) == (has_code(upgrade_codes@, c) || is_entry(
                entry_views(wishlist_entries@),
                wishlist_entries@.len() as int,
                c,
            )),
{
    let mut reserved: Table<i32> = upgrade_reserved;
    merge(&mut reserved, wishlist_reserved);
    state.set_reserved_materials(reserved);
    let mut planned: Vec<CraftPlanEntry> = upgrades;
    let mut more: Vec<CraftPlanEntry> = wishes;
    planned.append(&mut more);
    let mut exclude: Vec<String> = upgrade_codes;
    let ghost before = exclude@;
    let ghost views = entry_views(wishlist_entries@);
    let mut i: usize = 0;
    while i < wishlist_entries.len()
        invariant
            i <= wishlist_entries@.len(),
            views == entry_views(wishlist_entries@),
            forall|c: Seq<char>|
                #[trigger] has_code(exclude@, c) == (has_code(before, c) || is_entry(
                    views,
                    i as int,
                    c,
                )),
        decreases wishlist_entries@.len() - i,
    {
        let ghost mid = exclude@;
        assert(views[i as int].code == wishlist_entries@[i as int].code@);
        insert_code(&mut exclude, &wishlist_entries[i].code);
        proof {
            let here = views[i as int].code;
            assert forall|c: Seq<char>|
                #[trigger] has_code(exclude@, c) == (has_code(before, c) || is_entry(
                    views,
                    i + 1,
                    c,
                )) by {
                assert(code_set(exclude@).contains(c) == code_set(mid).insert(here).contains(c));
                assert(has_code(exclude@, c) == (has_code(mid, c) || c == here));
                if c == here {
                    assert(views[i as int].code == c);
                    assert(is_entry(views, i + 1, c));
                }
                if is_entry(views, i as int, c) {
                    let j = choose|j: int| 0 <= j < i && (#[trigger] views[j]).code == c;
                    assert(views[j].code == c);
                    assert(is_entry(views, i + 1, c));
                }
                if is_entry(views, i + 1, c) && c != here {
                    let j = choose|j: int| 0 <= j < i + 1 && (#[trigger] views[j]).code == c;
                    assert(is_entry(views, i as int, c));
                }
            }
        }
        i += 1;
    }
    (planned, exclude)
}

/// Whether one of the first `n` entries is for `c`.
pub open spec fn is_entry(entries: Seq<EntryView>, n: int, c: Seq<char>) -> bool {
    exists|i: int| 0 <= i < n && (#[trigger] entries[i]).code == c
}

/// How a round of crafting goes on.
#[derive(Debug, Clone, Copy, PartialEq, Eq, Structural)]
pub enum CraftingVerdict {
    /// There is nothing left to craft.
    NothingLeft,
    /// There are not enough materials, or not enough room, for anything more.
    NotEnough,
    /// Make the trip.
    Go,
}

/// Whether to make a crafting trip: not without candidates, and not where it would withdraw
/// nothing.
pub fn crafting_verdict(candidates: &[CraftPlanEntry], trip: &CraftingTrip) -> (r: CraftingVerdict)
    ensures
        r == if candidates@.len() == 0 {
            CraftingVerdict::NothingLeft
        } else if trip.withdraw@.len() == 0 {
            CraftingVerdict::NotEnough
        } else {
            CraftingVerdict::Go
        },
{
    if candidates.len() == 0 {
        CraftingVerdict::NothingLeft
    } else if trip.withdraw.len() == 0 {
        CraftingVerdict::NotEnough
    } else {
        CraftingVerdict::Go
    }
}

} // verus!
