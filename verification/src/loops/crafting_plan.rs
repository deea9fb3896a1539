//! What to craft: gear upgrades first, then recipes that bring a skill to its next tier, then
//! whatever gives the most XP for its materials.

use vstd::prelude::*;

use super::acquisition::{can_follow, follows};
use super::market::{stock, stock_of};
use super::supply::{
    add_to, has_all, is_plain_recipe, is_stocked, law_spending_never_overdraws,
    law_spending_takes_what_is_asked, save, saved, spend, spent, supplies, taken_by, take_from,
    with_added,
};
use super::upgrade_steps::{step_views, upgrade_order, upgrade_steps, StepView, UpgradeStep};
use crate::arith::{ceil_div, lemma_quot_bound, max_i32, max_int, min_int, quot, sat_i32, saturated};
use crate::flags::{GameState, StateView};
use crate::formulas::crafting::{crafted_by, is_crafted_by, level_up_xp, xp_to_next_level};
use crate::formulas::recycling::{ingredient_total, recipe_ingredient_count};
use crate::optimize::skills::{level_in, skill_level, skill_xp_progress, xp_progress};
use crate::ranking::{
    by_fraction, by_key, is_ranking, law_ranking, lemma_fractions_are_ordered, places,
    rank_by_fraction, rank_by_key, ranked,
};
use crate::table::Table;
use crate::text::{contains_code, has_code, same};
use crate::types::{find_item, recipe_of, Character, CraftInfo, CraftIngredient, Item};

verus! {

/// The skills that make gear.
pub const CRAFTING_SKILLS: [&'static str; 3] = [
    "weaponcrafting",
    "gearcrafting",
    "jewelrycrafting",
];

/// The skills whose next tier the wishlist aims for.
pub const WISHLIST_SKILLS: [&'static str; 4] = [
    "weaponcrafting",
    "gearcrafting",
    "jewelrycrafting",
    "alchemy",
];

/// Which tier of priority a planned craft belongs to.
#[derive(Debug, Clone, Copy, PartialEq, Eq, Structural)]
pub enum PlanTier {
    Upgrade,
    Wishlist,
    Filler,
}

/// One planned craft: an item, the skill that makes it, and how many to make. A filler asks for
/// `i32::MAX`, that is for as many as there are materials for.
#[derive(Debug)]
pub struct CraftPlanEntry {
    pub code: String,
    pub skill: String,
    pub quantity: i32,
    pub tier: PlanTier,
}

/// A planned craft, as a mathematical value.
pub struct EntryView {
    pub code: Seq<char>,
    pub skill: Seq<char>,
    pub quantity: int,
    pub tier: PlanTier,
}

impl View for CraftPlanEntry {
    type V = EntryView;

    open spec fn view(&self) -> EntryView {
        EntryView {
            code: self.code@,
            skill: self.skill@,
            quantity: self.quantity as int,
            tier: self.tier,
        }
    }
}

/// Planned crafts, as mathematical values.
pub open spec fn entry_views(entries: Seq<CraftPlanEntry>) -> Seq<EntryView> {
    entries.map_values(|e: CraftPlanEntry| e@)
}

/// The first entry for `code`, from place `from` on.
pub open spec fn entry_for(entries: Seq<EntryView>, code: Seq<char>, from: int) -> Option<int>
    decreases entries.len() - from,
{
    if from < 0 || from >= entries.len() {
        None
    } else if entries[from].code == code {
        Some(from)
    } else {
        entry_for(entries, code, from + 1)
    }
}

/// The plan with one more upgrade of `code`.
pub open spec fn counted(entries: Seq<EntryView>, code: Seq<char>, skill: Seq<char>) -> Seq<
    EntryView,
> {
    match entry_for(entries, code, 0) {
        Some(i) => entries.update(
            i,
            EntryView { quantity: sat_i32(entries[i].quantity + 1), ..entries[i] },
        ),
        None => entries.push(EntryView { code, skill, quantity: 1, tier: PlanTier::Upgrade }),
    }
}

/// How far an allocation of materials to upgrades has come.
#[verifier::ext_equal]
pub struct Allocation {
    /// What is left to be allocated.
    pub supply: Map<Seq<char>, i32>,
    /// What will be crafted.
    pub planned: Seq<EntryView>,
    /// What upgrades that cannot be crafted yet wait for.
    pub reserved: Map<Seq<char>, i32>,
    /// Every item considered.
    pub codes: Set<Seq<char>>,
    /// Whose slots have been taken care of.
    pub resolved: Set<(Seq<char>, Seq<char>)>,
}

/// The skill a recipe names.
pub open spec fn skill_of(craft: CraftInfo) -> Seq<char> {
    match craft.skill {
        Some(skill) => skill@,
        None => Seq::empty(),
    }
}

/// One upgrade considered. If its slot is open and it can be crafted with what is left, it is
/// planned and the slot is closed; if it cannot, its direct ingredients are reserved and the slot
/// stays open to lower-rated alternatives.
pub open spec fn allocate_step(a: Allocation, step: StepView, items: Seq<Item>, who: Character) -> Allocation {
    let seen = Allocation { codes: a.codes.insert(step.code), ..a };
    if a.resolved.contains((step.who, step.slot)) {
        seen
    } else {
        match recipe_of(items, step.code) {
            None => seen,
            Some(craft) => if can_follow(who, craft) && supplies(a.supply, craft.items@) {
                Allocation {
                    supply: spent(a.supply, craft.items@, craft.items@.len() as int),
                    planned: counted(a.planned, step.code, skill_of(craft)),
                    resolved: a.resolved.insert((step.who, step.slot)),
                    ..seen
                }
            } else {
                Allocation {
                    reserved: saved(a.reserved, craft.items@, craft.items@.len() as int),
                    ..seen
                }
            },
        }
    }
}

/// The allocation after the first `n` upgrades.
pub open spec fn allocate(
    supply: Map<Seq<char>, i32>,
    steps: Seq<StepView>,
    n: int,
    items: Seq<Item>,
    who: Character,
) -> Allocation
    decreases n,
{
    if n <= 0 {
        Allocation {
            supply,
            planned: Seq::empty(),
            reserved: Map::empty(),
            codes: Set::empty(),
            resolved: Set::empty(),
        }
    } else {
        allocate_step(allocate(supply, steps, n - 1, items, who), steps[n - 1], items, who)
    }
}

/// The codes of a list, as a set.
pub open spec fn code_set(codes: Seq<String>) -> Set<Seq<char>> {
    Set::new(|c: Seq<char>| has_code(codes, c))
}

/// Whether a list of pairs holds a pair.
pub open spec fn has_pair(pairs: Seq<(String, String)>, pair: (Seq<char>, Seq<char>)) -> bool {
    exists|i: int|
        0 <= i < pairs.len() && (#[trigger] pairs[i]).0@ == pair.0 && pairs[i].1@ == pair.1
}

/// The pairs of a list, as a set.
pub open spec fn pair_set(pairs: Seq<(String, String)>) -> Set<(Seq<char>, Seq<char>)> {
    Set::new(|p: (Seq<char>, Seq<char>)| has_pair(pairs, p))
}

/// Adds a code to a list that holds no code twice.
pub fn insert_code(codes: &mut Vec<String>, code: &str)
    ensures
        code_set(final(codes)@) == code_set(old(codes)@).insert(code@),
        has_code(old(codes)@, code@) ==> final(codes)@ == old(codes)@,
        code_views(final(codes)@) == listed(code_views(old(codes)@), code@),
        !has_code(old(codes)@, code@) ==> final(codes)@.len() == old(codes)@.len() + 1
            && final(codes)@.take(old(codes)@.len() as int) == old(codes)@
            && final(codes)@.last()@ == code@,
{
    let ghost before = codes@;
    if !contains_code(codes, code) {
        codes.push(code.to_owned());
        assert(codes@.take(before.len() as int) =~= before);
        assert forall|c: Seq<char>| has_code(codes@, c) == (has_code(before, c) || c == code@) by {
            if has_code(before, c) {
                let i = choose|i: int| 0 <= i < before.len() && (#[trigger] before[i])@ == c;
                assert(codes@[i]@ == c);
            }
            if c == code@ {
                assert(codes@[before.len() as int]@ == c);
            }
        }
    }
    assert(code_set(codes@) =~= code_set(before).insert(code@));
    proof {
        lemma_has_code(before, code@);
    }
    assert(code_views(codes@) =~= listed(code_views(before), code@));
}

/// A list with `code` on it, behind the others where it is new.
pub open spec fn listed(codes: Seq<Seq<char>>, code: Seq<char>) -> Seq<Seq<char>> {
    if codes.contains(code) {
        codes
    } else {
        codes.push(code)
    }
}

/// Listing strings and listing their characters is the same.
pub proof fn lemma_has_code(codes: Seq<String>, code: Seq<char>)
    ensures
        has_code(codes, code) == code_views(codes).contains(code),
{
    if has_code(codes, code) {
        let i = choose|i: int| 0 <= i < codes.len() && (#[trigger] codes[i])@ == code;
        assert(code_views(codes)[i] == code);
    }
    if code_views(codes).contains(code) {
        let i = choose|i: int| 0 <= i < code_views(codes).len() && code_views(codes)[i] == code;
        assert(codes[i]@ == code);
    }
}

fn contains_pair(pairs: &[(String, String)], a: &str, b: &str) -> (r: bool)
    ensures
        r == has_pair(pairs@, (a@, b@)),
{
    let mut i: usize = 0;
    while i < pairs.len()
        invariant
            i <= pairs@.len(),
            forall|j: int| 0 <= j < i ==> !((#[trigger] pairs@[j]).0@ == a@ && pairs@[j].1@ == b@),
        decreases pairs@.len() - i,
    {
        if same(&pairs[i].0, a) && same(&pairs[i].1, b) {
            return true;
        }
        i += 1;
    }
    false
}

fn count_upgrade(planned: &mut Vec<CraftPlanEntry>, code: &str, skill: &str)
    ensures
        entry_views(final(planned)@) == counted(entry_views(old(planned)@), code@, skill@),
{
    let ghost before = entry_views(planned@);
    let mut i: usize = 0;
    while i < planned.len()
        invariant
            i <= planned@.len(),
            before == entry_views(planned@),
            before == entry_views(old(planned)@),
            entry_for(before, code@, 0) == entry_for(before, code@, i as int),
        decreases planned@.len() - i,
    {
        assert(before[i as int] == planned@[i as int]@);
        if same(&planned[i].code, code) {
            let more: i32 = saturated(planned[i].quantity as i64 + 1);
            let entry = CraftPlanEntry {
                code: planned[i].code.clone(),
                skill: planned[i].skill.clone(),
                quantity: more,
                tier: planned[i].tier,
            };
            planned.set(i, entry);
            assert(entry_views(planned@) =~= counted(before, code@, skill@));
            return ;
        }
        i += 1;
    }
    planned.push(
        CraftPlanEntry {
            code: code.to_owned(),
            skill: skill.to_owned(),
            quantity: 1,
            tier: PlanTier::Upgrade,
        },
    );
    assert(entry_views(planned@) =~= counted(before, code@, skill@));
}

/// Allocates materials to gear upgrades, in one order of priority over all characters and slots.
/// The first alternative for a slot that can be crafted right now, by skill level and by what is
/// left of `remaining_supply`, is planned and resolves the slot; every alternative that cannot be
/// crafted has its direct ingredients reserved. So the highest-rated upgrade, whoever it is for,
/// gets first claim on scarce materials.
///
/// Returns the planned crafts, the reserved ingredients and every code considered.
pub fn allocate_upgrade_crafts(
    state: &GameState,
    character: &Character,
    remaining_supply: &mut Table<i32>,
) -> (r: (Vec<CraftPlanEntry>, Table<i32>, Vec<String>))
    requires
        state.wf(),
        old(remaining_supply).wf(),
    ensures
        final(remaining_supply).wf(),
        r.1.wf(),
        ({
            let steps = upgrade_order(state@, true);
            let a = allocate(
                old(remaining_supply)@,
                steps,
                steps.len() as int,
                state@.data.items@,
                *character,
            );
            &&& final(remaining_supply)@ == a.supply
            &&& entry_views(r.0@) == a.planned
            &&& r.1@ == a.reserved
            &&& code_set(r.2@) == a.codes
        }),
{
    let ghost start = remaining_supply@;
    let steps: Vec<UpgradeStep> = upgrade_steps(state, true);
    let ghost views = step_views(steps@);
    let items: &Vec<Item> = &state.data().items;
    let mut planned: Vec<CraftPlanEntry> = Vec::new();
    let mut reserved: Table<i32> = Table::new();
    let mut codes: Vec<String> = Vec::new();
    let mut resolved: Vec<(String, String)> = Vec::new();
    assert(entry_views(planned@) =~= Seq::empty());
    assert(code_set(codes@) =~= Set::empty());
    assert(pair_set(resolved@) =~= Set::empty());
    let mut i: usize = 0;
    while i < steps.len()
        invariant
            i <= steps@.len(),
            views == step_views(steps@),
            remaining_supply.wf(),
            reserved.wf(),
            ({
                let a = allocate(start, views, i as int, items@, *character);
                &&& remaining_supply@ == a.supply
                &&& entry_views(planned@) == a.planned
                &&& reserved@ == a.reserved
                &&& code_set(codes@) == a.codes
                &&& pair_set(resolved@) == a.resolved
            }),
        decreases steps@.len() - i,
    {
        let step: &UpgradeStep = &steps[i];
        assert(views[i as int] == step@);
        let ghost a = allocate(start, views, i as int, items@, *character);
        insert_code(&mut codes, &step.code);
        let open: bool = !contains_pair(&resolved, &step.char_name, &step.slot);
        assert(a.resolved.contains((step@.who, step@.slot)) == !open);
        if open {
            if let Some(k) = find_item(items, &step.code) {
                if let Some(craft) = &items[k].craft {
                    if follows(character, craft) && has_all(remaining_supply, &craft.items) {
                        spend(remaining_supply, &craft.items);
                        if let Some(skill) = &craft.skill {
                            count_upgrade(&mut planned, &step.code, skill);
                        }
                        let ghost had = resolved@;
                        resolved.push((step.char_name.clone(), step.slot.clone()));
                        proof {
                            lemma_pair_added(had, resolved@);
                        }
                    } else {
                        save(&mut reserved, &craft.items);
                    }
                }
            }
        }
        i += 1;
    }
    (planned, reserved, codes)
}

proof fn lemma_pair_added(before: Seq<(String, String)>, after: Seq<(String, String)>)
    requires
        after.len() == before.len() + 1,
        after == before.push(after.last()),
    ensures
        pair_set(after) == pair_set(before).insert((after.last().0@, after.last().1@)),
{
    assert forall|p: (Seq<char>, Seq<char>)|
        has_pair(after, p) == (has_pair(before, p) || p == (after.last().0@, after.last().1@)) by {
        if has_pair(before, p) {
            let i = choose|i: int|
                0 <= i < before.len() && (#[trigger] before[i]).0@ == p.0 && before[i].1@ == p.1;
            assert(after[i].0@ == p.0 && after[i].1@ == p.1);
        }
        if p == (after.last().0@, after.last().1@) {
            assert(after[before.len() as int].0@ == p.0);
        }
        if has_pair(after, p) {
            let i = choose|i: int|
                0 <= i < after.len() && (#[trigger] after[i]).0@ == p.0 && after[i].1@ == p.1;
            if i < before.len() {
                assert(before[i].0@ == p.0 && before[i].1@ == p.1);
            }
        }
    }
    assert(pair_set(after) =~= pair_set(before).insert((after.last().0@, after.last().1@)));
}

/// The level at which the next tier starts: the next multiple of five above `level`.
pub open spec fn next_tier(level: int) -> int {
    if level % 5 == 0 {
        level + 5
    } else {
        (quot(level, 5) + 1) * 5
    }
}

/// The XP of the levels from `from` up to `to`.
pub open spec fn levels_xp(from: int, to: int) -> int
    decreases to - from,
{
    if from >= to {
        0
    } else {
        levels_xp(from, to - 1) + level_up_xp(to - 1)
    }
}

/// XP still needed to reach the next tier: what is left of the current level and all of the
/// levels between.
pub open spec fn tier_gap(level: int, xp: int, max_xp: int) -> int {
    max_int(max_xp - xp, 0) + levels_xp(level + 1, next_tier(level))
}

proof fn lemma_levels_xp(from: int, to: int)
    requires
        to - from <= 10,
    ensures
        0 <= levels_xp(from, to) <= 54200 * max_int(to - from, 0),
    decreases to - from,
{
    if from < to {
        lemma_levels_xp(from, to - 1);
        assert(0 <= level_up_xp(to - 1) <= 54200);
    }
}

/// XP still needed for a crafting skill to reach the next tier: the next multiple of five strictly
/// above `level`.
pub fn xp_to_next_tier(level: i32, xp: i32, max_xp: i32) -> (r: i64)
    ensures
        r == tier_gap(level as int, xp as int, max_xp as int),
        0 <= r < 0x2_0000_0000,
{
    let at: i64 = level as i64;
    let target: i64 = if at % 5 == 0 {
        at + 5
    } else {
        (at / 5 + 1) * 5
    };
    let left: i64 = max_xp as i64 - xp as i64;
    let mut remaining: i64 = if left >= 0 {
        left
    } else {
        0
    };
    let ghost base = remaining as int;
    let mut lvl: i64 = at + 1;
    while lvl < target
        invariant
            at + 1 <= lvl <= target || lvl == at + 1,
            target <= at + 10,
            i32::MIN <= at <= i32::MAX,
            0 <= base <= 0x1_0000_0000,
            remaining == base + levels_xp(at + 1, lvl as int),
            0 <= remaining <= base + 54200 * (lvl - at - 1),
        decreases target - lvl,
    {
        let step: i32 = if 1 <= lvl && lvl <= 49 {
            xp_to_next_level(lvl as i32)
        } else {
            0
        };
        assert(step == level_up_xp(lvl as int));
        assert(0 <= step <= 54200);
        remaining = remaining + step as i64;
        lvl += 1;
    }
    remaining
}

/// Whether a level is enough for an item's recipe.
pub open spec fn level_suffices(item: Item, level: int) -> bool {
    item.craft matches Some(craft) && (craft.level matches Some(req) ==> level >= req)
}

/// Whether a level is enough for an item's recipe.
pub fn is_level_enough(item: &Item, level: i32) -> (r: bool)
    ensures
        r == level_suffices(*item, level as int),
{
    match &item.craft {
        Some(craft) => match craft.level {
            Some(req) => level >= req,
            None => true,
        },
        None => false,
    }
}

/// How many crafts that give `xp` each close a gap.
pub open spec fn crafts_to_close(gap: int, xp: int) -> int {
    min_int(ceil_div(gap, xp), i32::MAX as int)
}

/// How many crafts that give `xp` each close a gap.
pub fn crafts_closing(gap: i64, xp: i32) -> (r: i32)
    requires
        0 < gap < 0x2_0000_0000,
        xp > 0,
    ensures
        r == crafts_to_close(gap as int, xp as int),
        r >= 1,
{
    let n: i64 = (gap + xp as i64 - 1) / xp as i64;
    proof {
        assert(1 <= n <= gap) by (nonlinear_arith)
            requires
                n == (gap + xp - 1) / xp as int,
                xp >= 1,
                gap >= 1,
        ;
    }
    if n > i32::MAX as i64 {
        i32::MAX
    } else {
        n as i32
    }
}

/// Whether one craft of `item`, which gives `xp`, would help `skill`.
pub open spec fn helps(item: Item, xp: int, skill: Seq<char>, level: int) -> bool {
    crafted_by(item, skill) && level_suffices(item, level) && xp > 0
}

/// What the first `n` items contribute to the wishlist of a skill that is at `level` and lacks
/// `gap` XP. `xp` gives what one craft of each item is worth.
pub open spec fn wishes_of(
    skill: Seq<char>,
    level: int,
    gap: int,
    items: Seq<Item>,
    xp: Seq<i32>,
    n: int,
) -> Seq<EntryView>
    decreases n,
{
    if n <= 0 {
        Seq::empty()
    } else {
        let before = wishes_of(skill, level, gap, items, xp, n - 1);
        if helps(items[n - 1], xp[n - 1] as int, skill, level) {
            before.push(
                EntryView {
                    code: items[n - 1].code@,
                    skill,
                    quantity: crafts_to_close(gap, xp[n - 1] as int),
                    tier: PlanTier::Wishlist,
                },
            )
        } else {
            before
        }
    }
}

/// XP that `who` lacks to the next tier of a skill.
pub open spec fn skill_gap(who: Character, skill: Seq<char>) -> int {
    let p = xp_progress(who, skill);
    tier_gap(p.0, p.1, p.2)
}

/// The wishlist of the first `k` skills that have one.
pub open spec fn wishlist(who: Character, items: Seq<Item>, xp: Seq<i32>, k: int) -> Seq<EntryView>
    decreases k,
{
    if k <= 0 {
        Seq::empty()
    } else {
        let skill = WISHLIST_SKILLS@[k - 1]@;
        let before = wishlist(who, items, xp, k - 1);
        if skill_gap(who, skill) > 0 {
            before + wishes_of(
                skill,
                xp_progress(who, skill).0,
                skill_gap(who, skill),
                items,
                xp,
                items.len() as int,
            )
        } else {
            before
        }
    }
}

fn push_wishes(
    out: &mut Vec<CraftPlanEntry>,
    skill: &str,
    level: i32,
    gap: i64,
    items: &[Item],
    craft_xp: &[i32],
)
    requires
        craft_xp@.len() == items@.len(),
        0 < gap < 0x2_0000_0000,
    ensures
        entry_views(final(out)@) == entry_views(old(out)@) + wishes_of(
            skill@,
            level as int,
            gap as int,
            items@,
            craft_xp@,
            items@.len() as int,
        ),
{
    let ghost before = entry_views(out@);
    let mut i: usize = 0;
    assert(before + Seq::<EntryView>::empty() =~= before);
    while i < items.len()
        invariant
            i <= items@.len(),
            craft_xp@.len() == items@.len(),
            0 < gap < 0x2_0000_0000,
            entry_views(out@) == before + wishes_of(
                skill@,
                level as int,
                gap as int,
                items@,
                craft_xp@,
                i as int,
            ),
        decreases items@.len() - i,
    {
        if craft_xp[i] > 0 && is_crafted_by(&items[i], skill) && is_level_enough(&items[i], level) {
            let ghost had = out@;
            out.push(
                CraftPlanEntry {
                    code: items[i].code.clone(),
                    skill: skill.to_owned(),
                    quantity: crafts_closing(gap, craft_xp[i]),
                    tier: PlanTier::Wishlist,
                },
            );
            assert(entry_views(out@) =~= entry_views(had).push(out@.last()@));
            assert(entry_views(out@) =~= before + wishes_of(
                skill@,
                level as int,
                gap as int,
                items@,
                craft_xp@,
                i + 1,
            ));
        }
        i += 1;
    }
}

/// The wishlist: for each of four skills, how many crafts of every recipe that the character can
/// follow would close the XP gap to the next tier. Every such recipe has its own entry, so two
/// that could each close the same gap both appear in full. `craft_xp` gives, for each item, what
/// one craft of it is worth to the character.
pub fn build_wishlist(state: &GameState, character: &Character, craft_xp: &[i32]) -> (r: Vec<
    CraftPlanEntry,
>)
    requires
        state.wf(),
        craft_xp@.len() == state@.data.items@.len(),
    ensures
        entry_views(r@) == wishlist(*character, state@.data.items@, craft_xp@, 4),
{
    let skills: [&'static str; 4] = WISHLIST_SKILLS;
    let items: &Vec<Item> = &state.data().items;
    let mut out: Vec<CraftPlanEntry> = Vec::new();
    let mut k: usize = 0;
    assert(entry_views(out@) =~= Seq::empty());
    while k < 4
        invariant
            k <= 4,
            skills == WISHLIST_SKILLS,
            skills@.len() == 4,
            craft_xp@.len() == items@.len(),
            entry_views(out@) == wishlist(*character, items@, craft_xp@, k as int),
        decreases 4 - k,
    {
        let skill: &'static str = skills[k];
        let progress: (i32, i32, i32) = skill_xp_progress(character, skill);
        let gap: i64 = xp_to_next_tier(progress.0, progress.1, progress.2);
        if gap > 0 {
            push_wishes(&mut out, skill, progress.0, gap, items, craft_xp);
        }
        k += 1;
    }
    out
}

/// The least of the first `n` numbers; 0 of none.
pub open spec fn least(shares: Seq<i32>, n: int) -> int
    decreases n,
{
    if n <= 0 {
        0
    } else if n == 1 {
        shares[0] as int
    } else {
        min_int(least(shares, n - 1), shares[n - 1] as int)
    }
}

/// How many crafts of a wishlist entry can be made now: what its scarcest ingredient allows, but
/// no more than the entry asks for. `shares` gives, for each ingredient that is used up at all,
/// how many crafts the supply of it is enough for.
pub fn max_affordable(shares: &[i32], quantity: i32) -> (r: i32)
    requires
        quantity >= 0,
    ensures
        r == max_int(0, min_int(least(shares@, shares@.len() as int), quantity as int)),
{
    let mut low: i32 = 0;
    let mut i: usize = 0;
    while i < shares.len()
        invariant
            i <= shares@.len(),
            low == least(shares@, i as int),
        decreases shares@.len() - i,
    {
        if i == 0 || shares[i] < low {
            low = shares[i];
        }
        i += 1;
    }
    if low < 0 {
        0
    } else if low > quantity {
        quantity
    } else {
        low
    }
}

/// What an entry takes of one ingredient, less what recycling gives back: for the crafts that can
/// be made now, and for those that have to wait.
#[derive(Debug)]
pub struct NetNeed {
    pub code: String,
    pub now: i32,
    pub later: i32,
}

/// Needs, as mathematical values: code, what is needed now, and what later.
pub open spec fn need_views(needs: Seq<NetNeed>) -> Seq<(Seq<char>, i32, i32)> {
    needs.map_values(|n: NetNeed| (n.code@, n.now, n.later))
}

/// A supply less what the first `n` needs take now.
pub open spec fn less_now(
    supply: Map<Seq<char>, i32>,
    needs: Seq<(Seq<char>, i32, i32)>,
    n: int,
) -> Map<Seq<char>, i32>
    decreases n,
{
    if n <= 0 {
        supply
    } else {
        with_added(less_now(supply, needs, n - 1), needs[n - 1].0, -(needs[n - 1].1 as int))
    }
}

/// A reservation with what the first `n` needs take later.
pub open spec fn with_later(
    reserved: Map<Seq<char>, i32>,
    needs: Seq<(Seq<char>, i32, i32)>,
    n: int,
) -> Map<Seq<char>, i32>
    decreases n,
{
    if n <= 0 {
        reserved
    } else {
        with_added(
            with_later(reserved, needs, n - 1),
            needs[n - 1].0,
            needs[n - 1].2 as int,
        )
    }
}

/// Commits one wishlist entry: plans the crafts that can be made now and takes what they need, and
/// reserves the ingredients of the rest.
pub fn settle_wishlist_entry(
    entry: &CraftPlanEntry,
    affordable: i32,
    needs: &[NetNeed],
    remaining_supply: &mut Table<i32>,
    reserved: &mut Table<i32>,
) -> (r: Option<CraftPlanEntry>)
    requires
        old(remaining_supply).wf(),
        old(reserved).wf(),
        0 <= affordable <= entry.quantity,
    ensures
        final(remaining_supply).wf(),
        final(reserved).wf(),
        r is Some <==> affordable > 0,
        r matches Some(e) ==> e@ == (EntryView {
            quantity: affordable as int,
            tier: PlanTier::Wishlist,
            ..entry@
        }),
        final(remaining_supply)@ == if affordable > 0 {
            less_now(old(remaining_supply)@, need_views(needs@), needs@.len() as int)
        } else {
            old(remaining_supply)@
        },
        final(reserved)@ == if affordable < entry.quantity {
            with_later(old(reserved)@, need_views(needs@), needs@.len() as int)
        } else {
            old(reserved)@
        },
{
    if affordable < entry.quantity {
        let ghost before = reserved@;
        let mut i: usize = 0;
        while i < needs.len()
            invariant
                i <= needs@.len(),
                reserved.wf(),
                reserved@ == with_later(before, need_views(needs@), i as int),
            decreases needs@.len() - i,
        {
            add_to(reserved, &needs[i].code, needs[i].later);
            i += 1;
        }
    }
    if affordable > 0 {
        let ghost before = remaining_supply@;
        let mut i: usize = 0;
        while i < needs.len()
            invariant
                i <= needs@.len(),
                remaining_supply.wf(),
                remaining_supply@ == less_now(before, need_views(needs@), i as int),
            decreases needs@.len() - i,
        {
            take_from(remaining_supply, &needs[i].code, needs[i].now as i64);
            i += 1;
        }
        Some(
            CraftPlanEntry {
                code: entry.code.clone(),
                skill: entry.skill.clone(),
                quantity: affordable,
                tier: PlanTier::Wishlist,
            },
        )
    } else {
        None
    }
}

/// The total quantity of a recipe's ingredients, at the edge of the 32-bit range where it leaves
/// it.
pub open spec fn materials(item: Item) -> int {
    match item.craft {
        Some(craft) => sat_i32(ingredient_total(craft.items@)),
        None => 0,
    }
}

/// The total quantity of a recipe's ingredients.
pub fn materials_of(item: &Item) -> (r: i32)
    ensures
        r == materials(*item),
{
    match &item.craft {
        Some(craft) => recipe_ingredient_count(craft),
        None => 0,
    }
}

/// Whether an item may fill idle crafting time under `skill`.
pub open spec fn is_filler(
    item: Item,
    xp: int,
    skill: Seq<char>,
    level: int,
    exclude: Set<Seq<char>>,
) -> bool {
    !exclude.contains(item.code@) && helps(item, xp, skill, level) && materials(item) > 0
}

/// Which of the first `n` items may fill idle crafting time under `skill`.
pub open spec fn filler_picks(
    skill: Seq<char>,
    level: int,
    items: Seq<Item>,
    xp: Seq<i32>,
    exclude: Set<Seq<char>>,
    n: int,
) -> Seq<int>
    decreases n,
{
    if n <= 0 {
        Seq::empty()
    } else {
        let before = filler_picks(skill, level, items, xp, exclude, n - 1);
        if is_filler(items[n - 1], xp[n - 1] as int, skill, level, exclude) {
            before.push(n - 1)
        } else {
            before
        }
    }
}

/// XP per ingredient of the picked items, as fractions.
pub open spec fn efficiency(picks: Seq<int>, items: Seq<Item>, xp: Seq<i32>) -> Seq<(i64, i64)> {
    picks.map_values(|i: int| (xp[i] as i64, materials(items[i]) as i64))
}

/// The fillers of one skill, most XP per ingredient first.
pub open spec fn fillers_of(
    skill: Seq<char>,
    level: int,
    items: Seq<Item>,
    xp: Seq<i32>,
    exclude: Set<Seq<char>>,
) -> Seq<EntryView> {
    let picks = filler_picks(skill, level, items, xp, exclude, items.len() as int);
    ranked(by_fraction(efficiency(picks, items, xp)), picks.len() as int).map_values(
        |j: int|
            EntryView {
                code: items[picks[j]].code@,
                skill,
                quantity: i32::MAX as int,
                tier: PlanTier::Filler,
            },
    )
}

/// How urgently the gear skills need work: the lower the level, the more.
pub open spec fn lag(who: Character) -> Seq<i64> {
    Seq::new(3, |i: int| (-level_in(who, CRAFTING_SKILLS@[i]@)) as i64)
}

/// The fillers of the first `k` gear skills, most lagging skill first.
pub open spec fn fillers(
    who: Character,
    items: Seq<Item>,
    xp: Seq<i32>,
    exclude: Set<Seq<char>>,
    k: int,
) -> Seq<EntryView>
    decreases k,
{
    if k <= 0 {
        Seq::empty()
    } else {
        let skill = CRAFTING_SKILLS@[ranked(by_key(lag(who)), 3)[k - 1]]@;
        fillers(who, items, xp, exclude, k - 1) + fillers_of(
            skill,
            level_in(who, skill),
            items,
            xp,
            exclude,
        )
    }
}

fn push_fillers(
    out: &mut Vec<CraftPlanEntry>,
    skill: &str,
    level: i32,
    items: &[Item],
    craft_xp: &[i32],
    exclude: &[String],
)
    requires
        craft_xp@.len() == items@.len(),
    ensures
        entry_views(final(out)@) == entry_views(old(out)@) + fillers_of(
            skill@,
            level as int,
            items@,
            craft_xp@,
            code_set(exclude@),
        ),
{
    let ghost before = entry_views(out@);
    let ghost gone = code_set(exclude@);
    let mut picks: Vec<usize> = Vec::new();
    let mut keys: Vec<(i64, i64)> = Vec::new();
    let mut i: usize = 0;
    assert(places(picks@) =~= Seq::empty());
    assert(keys@ =~= efficiency(places(picks@), items@, craft_xp@));
    while i < items.len()
        invariant
            i <= items@.len(),
            craft_xp@.len() == items@.len(),
            gone == code_set(exclude@),
            places(picks@) == filler_picks(
                skill@,
                level as int,
                items@,
                craft_xp@,
                gone,
                i as int,
            ),
            picks@.len() == keys@.len(),
            forall|j: int| 0 <= j < picks@.len() ==> (#[trigger] picks@[j]) < items@.len(),
            keys@ == efficiency(places(picks@), items@, craft_xp@),
            forall|j: int| 0 <= j < keys@.len() ==> (#[trigger] keys@[j]).1 > 0,
        decreases items@.len() - i,
    {
        if craft_xp[i] > 0 && !contains_code(exclude, &items[i].code) && is_crafted_by(
            &items[i],
            skill,
        ) && is_level_enough(&items[i], level) {
            let total: i32 = materials_of(&items[i]);
            if total > 0 {
                let ghost had = picks@;
                picks.push(i);
                keys.push((craft_xp[i] as i64, total as i64));
                assert(places(picks@) =~= places(had).push(i as int));
                assert(keys@ =~= efficiency(places(picks@), items@, craft_xp@));
            }
        }
        i += 1;
    }
    let order: Vec<usize> = rank_by_fraction(&keys);
    let ghost target = fillers_of(skill@, level as int, items@, craft_xp@, gone);
    let mut j: usize = 0;
    assert(before + target.take(0) =~= before);
    while j < order.len()
        invariant
            j <= order@.len(),
            order@.len() == picks@.len(),
            picks@.len() == keys@.len(),
            forall|m: int| 0 <= m < picks@.len() ==> (#[trigger] picks@[m]) < items@.len(),
            places(picks@) == filler_picks(
                skill@,
                level as int,
                items@,
                craft_xp@,
                gone,
                items@.len() as int,
            ),
            keys@ == efficiency(places(picks@), items@, craft_xp@),
            places(order@) == ranked(by_fraction(keys@), keys@.len() as int),
            is_ranking(places(order@), by_fraction(keys@), keys@.len() as int),
            target == fillers_of(skill@, level as int, items@, craft_xp@, gone),
            entry_views(out@) == before + target.take(j as int),
        decreases order@.len() - j,
    {
        assert(places(order@)[j as int] == order@[j as int]);
        let at: usize = order[j];
        assert(places(picks@)[at as int] == picks@[at as int]);
        let ghost had = out@;
        out.push(
            CraftPlanEntry {
                code: items[picks[at]].code.clone(),
                skill: skill.to_owned(),
                quantity: i32::MAX,
                tier: PlanTier::Filler,
            },
        );
        assert(entry_views(out@) =~= entry_views(had).push(out@.last()@));
        j += 1;
        assert(target[j - 1] == out@.last()@);
        assert(entry_views(out@) =~= before + target.take(j as int));
    }
    assert(target.take(j as int) =~= target);
}

/// Gear that the character could craft beyond what is planned already, the skill that lags behind
/// first, and within a skill by XP per ingredient.
pub fn filler_candidates(
    state: &GameState,
    character: &Character,
    exclude: &[String],
    craft_xp: &[i32],
) -> (r: Vec<CraftPlanEntry>)
    requires
        state.wf(),
        craft_xp@.len() == state@.data.items@.len(),
    ensures
        entry_views(r@) == fillers(
            *character,
            state@.data.items@,
            craft_xp@,
            code_set(exclude@),
            3,
        ),
{
    let skills: [&'static str; 3] = CRAFTING_SKILLS;
    let items: &Vec<Item> = &state.data().items;
    let mut keys: Vec<i64> = Vec::new();
    let mut i: usize = 0;
    while i < 3
        invariant
            i <= 3,
            skills == CRAFTING_SKILLS,
            skills@.len() == 3,
            keys@ == lag(*character).take(i as int),
        decreases 3 - i,
    {
        keys.push(-(skill_level(character, skills[i]) as i64));
        i += 1;
        assert(lag(*character).take(i as int) =~= lag(*character).take(i - 1).push(
            lag(*character)[i - 1],
        ));
    }
    assert(lag(*character).take(3) =~= lag(*character));
    let order: Vec<usize> = rank_by_key(&keys);
    let mut out: Vec<CraftPlanEntry> = Vec::new();
    let mut k: usize = 0;
    assert(entry_views(out@) =~= Seq::empty());
    while k < 3
        invariant
            k <= 3,
            skills == CRAFTING_SKILLS,
            skills@.len() == 3,
            craft_xp@.len() == items@.len(),
            order@.len() == 3,
            places(order@) == ranked(by_key(lag(*character)), 3),
            is_ranking(places(order@), by_key(lag(*character)), 3),
            entry_views(out@) == fillers(
                *character,
                items@,
                craft_xp@,
                code_set(exclude@),
                k as int,
            ),
        decreases 3 - k,
    {
        assert(places(order@)[k as int] == order@[k as int]);
        let skill: &'static str = skills[order[k]];
        push_fillers(
            &mut out,
            skill,
            skill_level(character, skill),
            items,
            craft_xp,
            exclude,
        );
        k += 1;
    }
    out
}

/// The codes of the first `n` entries that belong to alchemy, or of those that do not.
pub open spec fn codes_by_kind(entries: Seq<EntryView>, alchemy: bool, n: int) -> Seq<Seq<char>>
    decreases n,
{
    if n <= 0 {
        Seq::empty()
    } else if (entries[n - 1].skill == "alchemy"@) == alchemy {
        codes_by_kind(entries, alchemy, n - 1).push(entries[n - 1].code)
    } else {
        codes_by_kind(entries, alchemy, n - 1)
    }
}

/// A list of strings, as sequences of characters.
pub open spec fn code_views(codes: Seq<String>) -> Seq<Seq<char>> {
    codes.map_values(|c: String| c@)
}

fn codes_of(entries: &[CraftPlanEntry], alchemy: bool) -> (r: Vec<String>)
    ensures
        code_views(r@) == codes_by_kind(entry_views(entries@), alchemy, entries@.len() as int),
{
    let mut out: Vec<String> = Vec::new();
    let ghost views = entry_views(entries@);
    let mut i: usize = 0;
    assert(code_views(out@) =~= Seq::empty());
    while i < entries.len()
        invariant
            i <= entries@.len(),
            views == entry_views(entries@),
            code_views(out@) == codes_by_kind(views, alchemy, i as int),
        decreases entries@.len() - i,
    {
        assert(views[i as int] == entries@[i as int]@);
        if same(&entries[i].skill, "alchemy") == alchemy {
            let ghost had = out@;
            out.push(entries[i].code.clone());
            assert(code_views(out@) =~= code_views(had).push(entries@[i as int].code@));
        }
        i += 1;
    }
    out
}

/// The lowest of a character's three gear-crafting levels.
pub open spec fn lowest_gear_level(who: Character) -> int {
    min_int(
        min_int(who.weaponcrafting_level as int, who.gearcrafting_level as int),
        who.jewelrycrafting_level as int,
    )
}

/// Tells everyone how far the crafting character has come: its lowest gear-crafting level and its
/// wishlist, gear apart from alchemy.
pub fn refresh_shared_crafting_state(
    state: &mut GameState,
    character: &Character,
    craft_xp: &[i32],
)
    requires
        old(state).wf(),
        craft_xp@.len() == old(state)@.data.items@.len(),
    ensures
        final(state).wf(),
        ({
            let wishes = wishlist(*character, old(state)@.data.items@, craft_xp@, 4);
            let n = wishes.len() as int;
            &&& final(state)@ == (StateView {
                crafter_min_gear_level: lowest_gear_level(*character) as i32,
                wishlist_owner: Some(character.name@),
                wishlist_equipment: final(state)@.wishlist_equipment,
                wishlist_alchemy: final(state)@.wishlist_alchemy,
                ..old(state)@
            })
            &&& code_views(final(state)@.wishlist_equipment) == codes_by_kind(wishes, false, n)
            &&& code_views(final(state)@.wishlist_alchemy) == codes_by_kind(wishes, true, n)
        }),
{
    let wishes: Vec<CraftPlanEntry> = build_wishlist(state, character, craft_xp);
    let gear: Vec<String> = codes_of(&wishes, false);
    let alchemy: Vec<String> = codes_of(&wishes, true);
    let mut low: i32 = character.weaponcrafting_level;
    if character.gearcrafting_level < low {
        low = character.gearcrafting_level;
    }
    if character.jewelrycrafting_level < low {
        low = character.jewelrycrafting_level;
    }
    state.set_crafter_min_gear_level(low);
    state.set_wishlist(&character.name, gear, alchemy);
}

/// How many crafts the supply of the first `n` ingredients is enough for; 0 of none.
pub open spec fn crafts_in_supply(
    supply: Map<Seq<char>, i32>,
    ingredients: Seq<CraftIngredient>,
    n: int,
) -> int
    decreases n,
{
    let share = quot(
        stock(supply, ingredients[n - 1].code@),
        max_int(ingredients[n - 1].quantity as int, 1),
    );
    if n <= 0 {
        0
    } else if n == 1 {
        share
    } else {
        min_int(crafts_in_supply(supply, ingredients, n - 1), share)
    }
}

/// A supply less the first `n` ingredients of `times` crafts.
pub open spec fn spent_on(
    supply: Map<Seq<char>, i32>,
    ingredients: Seq<CraftIngredient>,
    times: int,
    n: int,
) -> Map<Seq<char>, i32>
    decreases n,
{
    if n <= 0 {
        supply
    } else {
        with_added(
            spent_on(supply, ingredients, times, n - 1),
            ingredients[n - 1].code@,
            -(ingredients[n - 1].quantity * times),
        )
    }
}

/// The plan and the supply once the first `n` fillers have been given what is left, each as much
/// as it can use.
pub open spec fn filled(
    planned: Seq<EntryView>,
    supply: Map<Seq<char>, i32>,
    candidates: Seq<EntryView>,
    n: int,
    items: Seq<Item>,
) -> (Seq<EntryView>, Map<Seq<char>, i32>)
    decreases n,
{
    if n <= 0 {
        (planned, supply)
    } else {
        let (p, s) = filled(planned, supply, candidates, n - 1, items);
        let entry = candidates[n - 1];
        match recipe_of(items, entry.code) {
            Some(craft) => {
                let len = craft.items@.len() as int;
                let times = crafts_in_supply(s, craft.items@, len);
                if times > 0 {
                    (
                        p.push(EntryView { quantity: times, tier: PlanTier::Filler, ..entry }),
                        spent_on(s, craft.items@, times, len),
                    )
                } else {
                    (p, s)
                }
            },
            None => (p, s),
        }
    }
}

pub fn crafts_from_supply(supply: &Table<i32>, ingredients: &[CraftIngredient]) -> (r: i32)
    requires
        supply.wf(),
    ensures
        r == crafts_in_supply(supply@, ingredients@, ingredients@.len() as int),
{
    let mut low: i32 = 0;
    let mut i: usize = 0;
    while i < ingredients.len()
        invariant
            i <= ingredients@.len(),
            supply.wf(),
            low == crafts_in_supply(supply@, ingredients@, i as int),
        decreases ingredients@.len() - i,
    {
        let have: i32 = stock_of(supply, &ingredients[i].code);
        let per: i32 = max_i32(ingredients[i].quantity, 1);
        proof {
            lemma_quot_bound(have as int, per as int);
        }
        let share: i32 = have / per;
        if i == 0 || share < low {
            low = share;
        }
        i += 1;
    }
    low
}

/// Plans fillers, each as often as what is left of the supply allows.
pub fn plan_fillers(
    planned: &mut Vec<CraftPlanEntry>,
    candidates: &[CraftPlanEntry],
    items: &[Item],
    remaining: &mut Table<i32>,
)
    requires
        old(remaining).wf(),
    ensures
        final(remaining).wf(),
        (entry_views(final(planned)@), final(remaining)@) == filled(
            entry_views(old(planned)@),
            old(remaining)@,
            entry_views(candidates@),
            candidates@.len() as int,
            items@,
        ),
{
    let ghost p0 = entry_views(planned@);
    let ghost s0 = remaining@;
    let ghost views = entry_views(candidates@);
    let mut i: usize = 0;
    while i < candidates.len()
        invariant
            i <= candidates@.len(),
            views == entry_views(candidates@),
            remaining.wf(),
            (entry_views(planned@), remaining@) == filled(p0, s0, views, i as int, items@),
        decreases candidates@.len() - i,
    {
        let entry: &CraftPlanEntry = &candidates[i];
        assert(views[i as int] == entry@);
        if let Some(k) = find_item(items, &entry.code) {
            if let Some(craft) = &items[k].craft {
                let times: i32 = crafts_from_supply(remaining, &craft.items);
                if times > 0 {
                    let ghost s = remaining@;
                    let mut j: usize = 0;
                    while j < craft.items.len()
                        invariant
                            j <= craft.items@.len(),
                            remaining.wf(),
                            remaining@ == spent_on(s, craft.items@, times as int, j as int),
                        decreases craft.items@.len() - j,
                    {
                        proof {
                            let q = craft.items@[j as int].quantity;
                            assert(-0x4000_0000_0000_0000 <= q * times <= 0x4000_0000_0000_0000)
                                by (nonlinear_arith)
                                requires
                                    i32::MIN <= q <= i32::MAX,
                                    i32::MIN <= times <= i32::MAX,
                            ;
                        }
                        take_from(
                            remaining,
                            &craft.items[j].code,
                            craft.items[j].quantity as i64 * times as i64,
                        );
                        j += 1;
                    }
                    let ghost had = planned@;
                    planned.push(
                        CraftPlanEntry {
                            code: entry.code.clone(),
                            skill: entry.skill.clone(),
                            quantity: times,
                            tier: PlanTier::Filler,
                        },
                    );
                    assert(entry_views(planned@) =~= entry_views(had).push(planned@.last()@));
                }
            }
        }
        i += 1;
    }
}

/// The next tier starts at the next multiple of five strictly above the level, and the gap to it
/// covers at least what is left of the current level.
pub proof fn law_next_tier_is_the_next_multiple_of_five(level: int, xp: int, max_xp: int)
    requires
        level >= 0,
    ensures
        level < next_tier(level) <= level + 5,
        next_tier(level) % 5 == 0,
        tier_gap(level, xp, max_xp) >= max_xp - xp,
{
    lemma_levels_xp(level + 1, next_tier(level));
}

proof fn lemma_filler_picks(
    skill: Seq<char>,
    level: int,
    items: Seq<Item>,
    xp: Seq<i32>,
    exclude: Set<Seq<char>>,
    n: int,
)
    requires
        0 <= n <= items.len(),
    ensures
        forall|i: int|
            0 <= i < filler_picks(skill, level, items, xp, exclude, n).len() ==> {
                let k = #[trigger] filler_picks(skill, level, items, xp, exclude, n)[i];
                0 <= k < n && is_filler(items[k], xp[k] as int, skill, level, exclude)
            },
    decreases n,
{
    if n > 0 {
        lemma_filler_picks(skill, level, items, xp, exclude, n - 1);
        let before = filler_picks(skill, level, items, xp, exclude, n - 1);
        let after = filler_picks(skill, level, items, xp, exclude, n);
        assert forall|i: int| 0 <= i < after.len() implies ({
            let k = #[trigger] after[i];
            0 <= k < n && is_filler(items[k], xp[k] as int, skill, level, exclude)
        }) by {
            if i < before.len() {
                assert(before[i] == after[i]);
            }
        }
    }
}

/// Filler never takes what is planned or waited for already: none of it is on the list of codes to
/// avoid.
pub proof fn law_filler_avoids_what_is_planned(
    who: Character,
    items: Seq<Item>,
    xp: Seq<i32>,
    exclude: Set<Seq<char>>,
    k: int,
    i: int,
)
    requires
        0 <= k <= 3,
        0 <= i < fillers(who, items, xp, exclude, k).len(),
    ensures
        !exclude.contains(fillers(who, items, xp, exclude, k)[i].code),
    decreases k,
{
    if k > 0 {
        let before = fillers(who, items, xp, exclude, k - 1);
        if i < before.len() {
            law_filler_avoids_what_is_planned(who, items, xp, exclude, k - 1, i);
        } else {
            let skill = CRAFTING_SKILLS@[ranked(by_key(lag(who)), 3)[k - 1]]@;
            let level = level_in(who, skill);
            let n = items.len() as int;
            let picks = filler_picks(skill, level, items, xp, exclude, n);
            lemma_filler_picks(skill, level, items, xp, exclude, n);
            let keys = efficiency(picks, items, xp);
            assert forall|j: int| 0 <= j < keys.len() implies (#[trigger] keys[j]).1 > 0 by {
                assert(is_filler(items[picks[j]], xp[picks[j]] as int, skill, level, exclude));
            }
            lemma_fractions_are_ordered(keys);
            law_ranking(by_fraction(keys), keys.len() as int);
            let order = ranked(by_fraction(keys), picks.len() as int);
            let j = order[i - before.len()];
            assert(0 <= j < picks.len());
            assert(is_filler(items[picks[j]], xp[picks[j]] as int, skill, level, exclude));
        }
    }
}

/// Whatever the order in which upgrades are considered, the supply is never overdrawn: as long as
/// recipes list no ingredient twice, no quantity that was not below zero falls below it.
pub proof fn law_allocation_never_overdraws(
    supply: Map<Seq<char>, i32>,
    steps: Seq<StepView>,
    n: int,
    items: Seq<Item>,
    who: Character,
)
    requires
        0 <= n <= steps.len(),
        is_stocked(supply),
        forall|code: Seq<char>|
            #[trigger] recipe_of(items, code) matches Some(craft) ==> is_plain_recipe(craft.items@),
    ensures
        is_stocked(allocate(supply, steps, n, items, who).supply),
    decreases n,
{
    if n > 0 {
        law_allocation_never_overdraws(supply, steps, n - 1, items, who);
        let a = allocate(supply, steps, n - 1, items, who);
        if let Some(craft) = recipe_of(items, steps[n - 1].code) {
            if supplies(a.supply, craft.items@) {
                law_spending_never_overdraws(a.supply, craft.items@, craft.items@.len() as int);
            }
        }
    }
}

/// What one craft of the item `code` takes of `c`; nothing where it has no recipe.
pub open spec fn asked_for(items: Seq<Item>, code: Seq<char>, c: Seq<char>) -> int {
    match recipe_of(items, code) {
        Some(craft) => taken_by(craft.items@, c, craft.items@.len() as int),
        None => 0,
    }
}

/// What the first `n` entries of a plan take of `c`.
pub open spec fn plan_takes(plan: Seq<EntryView>, items: Seq<Item>, c: Seq<char>, n: int) -> int
    decreases n,
{
    if n <= 0 {
        0
    } else {
        plan_takes(plan, items, c, n - 1) + plan[n - 1].quantity * asked_for(
            items,
            plan[n - 1].code,
            c,
        )
    }
}

/// No code has two entries.
pub open spec fn has_distinct_codes(plan: Seq<EntryView>) -> bool {
    forall|i: int, j: int|
        0 <= i < j < plan.len() ==> (#[trigger] plan[i]).code != (#[trigger] plan[j]).code
}

proof fn lemma_entry_for(entries: Seq<EntryView>, code: Seq<char>, from: int)
    requires
        0 <= from,
    ensures
        match entry_for(entries, code, from) {
            Some(i) => from <= i < entries.len() && entries[i].code == code,
            None => forall|j: int| from <= j < entries.len() ==> (#[trigger] entries[j]).code != code,
        },
    decreases entries.len() - from,
{
    if from < entries.len() && entries[from].code != code {
        lemma_entry_for(entries, code, from + 1);
    }
}

proof fn lemma_plan_takes_same(
    a: Seq<EntryView>,
    b: Seq<EntryView>,
    items: Seq<Item>,
    c: Seq<char>,
    n: int,
)
    requires
        n <= a.len(),
        n <= b.len(),
        forall|j: int| 0 <= j < n ==> #[trigger] a[j] == b[j],
    ensures
        plan_takes(a, items, c, n) == plan_takes(b, items, c, n),
    decreases n,
{
    if n > 0 {
        lemma_plan_takes_same(a, b, items, c, n - 1);
        assert(a[n - 1] == b[n - 1]);
    }
}

proof fn lemma_plan_takes_one_more(
    plan: Seq<EntryView>,
    entry: EntryView,
    i: int,
    items: Seq<Item>,
    c: Seq<char>,
    n: int,
)
    requires
        0 <= i < n <= plan.len(),
        entry == (EntryView { quantity: plan[i].quantity + 1, ..plan[i] }),
    ensures
        plan_takes(plan.update(i, entry), items, c, n) == plan_takes(plan, items, c, n) + asked_for(
            items,
            entry.code,
            c,
        ),
    decreases n,
{
    let after = plan.update(i, entry);
    if i < n - 1 {
        lemma_plan_takes_one_more(plan, entry, i, items, c, n - 1);
        assert(after[n - 1] == plan[n - 1]);
    } else {
        lemma_plan_takes_same(after, plan, items, c, n - 1);
        let q = plan[i].quantity;
        let per = asked_for(items, entry.code, c);
        assert((q + 1) * per == q * per + per) by (nonlinear_arith);
    }
}

proof fn lemma_counted(
    plan: Seq<EntryView>,
    code: Seq<char>,
    skill: Seq<char>,
    items: Seq<Item>,
    c: Seq<char>,
    n: int,
)
    requires
        has_distinct_codes(plan),
        0 <= n < i32::MAX,
        forall|j: int| 0 <= j < plan.len() ==> 0 < (#[trigger] plan[j]).quantity <= n,
    ensures
        ({
            let after = counted(plan, code, skill);
            &&& has_distinct_codes(after)
            &&& forall|j: int| 0 <= j < after.len() ==> 0 < (#[trigger] after[j]).quantity <= n + 1
            &&& plan_takes(after, items, c, after.len() as int) == plan_takes(
                plan,
                items,
                c,
                plan.len() as int,
            ) + asked_for(items, code, c)
        }),
{
    let after = counted(plan, code, skill);
    lemma_entry_for(plan, code, 0);
    match entry_for(plan, code, 0) {
        Some(i) => {
            let entry = EntryView { quantity: plan[i].quantity + 1, ..plan[i] };
            assert(0 < plan[i].quantity <= n);
            assert(after == plan.update(i, entry));
            lemma_plan_takes_one_more(plan, entry, i, items, c, plan.len() as int);
            assert forall|j: int, k: int| 0 <= j < k < after.len() implies (
            #[trigger] after[j]).code != (#[trigger] after[k]).code by {
                assert(plan[j].code != plan[k].code);
            }
        },
        None => {
            lemma_plan_takes_same(after, plan, items, c, plan.len() as int);
            let per = asked_for(items, code, c);
            assert(1 * per == per) by (nonlinear_arith);
            assert(after[plan.len() as int].quantity == 1);
            assert forall|j: int, k: int| 0 <= j < k < after.len() implies (
            #[trigger] after[j]).code != (#[trigger] after[k]).code by {
                assert(plan[j].code != code);
                if k < plan.len() {
                    assert(plan[j].code != plan[k].code);
                }
            }
        },
    }
}

/// What leaves the supply goes into the plan: of every code the supply has lost exactly what the
/// planned crafts take, each as many times as it is planned. No code is planned twice, and every
/// planned entry asks for at least one craft.
pub proof fn law_allocation_takes_what_is_planned(
    supply: Map<Seq<char>, i32>,
    steps: Seq<StepView>,
    n: int,
    items: Seq<Item>,
    who: Character,
    c: Seq<char>,
)
    requires
        0 <= n <= steps.len(),
        n <= i32::MAX,
        is_stocked(supply),
        forall|code: Seq<char>|
            #[trigger] recipe_of(items, code) matches Some(craft) ==> is_plain_recipe(craft.items@),
    ensures
        ({
            let a = allocate(supply, steps, n, items, who);
            &&& has_distinct_codes(a.planned)
            &&& forall|j: int|
                0 <= j < a.planned.len() ==> 0 < (#[trigger] a.planned[j]).quantity <= n
            &&& stock(supply, c) - stock(a.supply, c) == plan_takes(
                a.planned,
                items,
                c,
                a.planned.len() as int,
            )
        }),
    decreases n,
{
    if n > 0 {
        law_allocation_takes_what_is_planned(supply, steps, n - 1, items, who, c);
        law_allocation_never_overdraws(supply, steps, n - 1, items, who);
        let a = allocate(supply, steps, n - 1, items, who);
        if let Some(craft) = recipe_of(items, steps[n - 1].code) {
            if supplies(a.supply, craft.items@) {
                law_spending_takes_what_is_asked(
                    a.supply,
                    craft.items@,
                    craft.items@.len() as int,
                    c,
                );
                lemma_counted(a.planned, steps[n - 1].code, skill_of(craft), items, c, n - 1);
            }
        }
    }
}

/// A slot is resolved by the first alternative, in the order of ratings, that can be crafted when
/// its turn comes; once resolved it takes no further materials.
pub proof fn law_resolved_slot_takes_nothing_more(
    supply: Map<Seq<char>, i32>,
    steps: Seq<StepView>,
    i: int,
    j: int,
    items: Seq<Item>,
    who: Character,
)
    requires
        0 <= i < j < steps.len(),
        steps[i].who == steps[j].who,
        steps[i].slot == steps[j].slot,
        allocate(supply, steps, i + 1, items, who).resolved.contains(
            (steps[i].who, steps[i].slot),
        ),
    ensures
        ({
            let before = allocate(supply, steps, j, items, who);
            let after = allocate(supply, steps, j + 1, items, who);
            after == (Allocation { codes: before.codes.insert(steps[j].code), ..before })
        }),
{
    lemma_resolved_stays(supply, steps, i + 1, j, items, who, (steps[i].who, steps[i].slot));
}

proof fn lemma_resolved_stays(
    supply: Map<Seq<char>, i32>,
    steps: Seq<StepView>,
    i: int,
    j: int,
    items: Seq<Item>,
    who: Character,
    key: (Seq<char>, Seq<char>),
)
    requires
        0 <= i <= j <= steps.len(),
        allocate(supply, steps, i, items, who).resolved.contains(key),
    ensures
        allocate(supply, steps, j, items, who).resolved.contains(key),
    decreases j - i,
{
    if i < j {
        lemma_resolved_stays(supply, steps, i, j - 1, items, who, key);
    }
}

} // verus!
