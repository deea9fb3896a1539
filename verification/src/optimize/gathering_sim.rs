//! What gathering a resource leads to: the recipe that refines it, and the gear that helps.

use vstd::prelude::*;

use super::eligibility::{effect_sum, item_effect_value};
use super::slot_rating::{current_item, slot_definitions, slots_of, worn_item};
use crate::api::GameData;
use crate::arith::{sat_i32, saturated};
use crate::formulas::crafting::{crafted_by, is_crafted_by};
use crate::loops::crafting_plan::{is_level_enough, level_suffices};
use crate::ranking::{find_last_best, last_best};
use crate::text::same;
use crate::types::{Character, CraftInfo, CraftIngredient, Item, MonsterDrop, Resource};

verus! {

/// Whether a drop table has a code.
pub open spec fn drops_code(drops: Seq<MonsterDrop>, code: Seq<char>) -> bool {
    exists|i: int| 0 <= i < drops.len() && (#[trigger] drops[i]).code@ == code
}

/// Whether a drop table has a code.
pub fn is_dropped(drops: &[MonsterDrop], code: &str) -> (r: bool)
    ensures
        r == drops_code(drops@, code@),
{
    let mut i: usize = 0;
    while i < drops.len()
        invariant
            i <= drops@.len(),
            forall|j: int| 0 <= j < i ==> (#[trigger] drops@[j]).code@ != code@,
        decreases drops@.len() - i,
    {
        if same(&drops[i].code, code) {
            return true;
        }
        i += 1;
    }
    false
}

/// Whether a recipe takes something that a drop table has.
pub open spec fn takes_drop(ingredients: Seq<CraftIngredient>, drops: Seq<MonsterDrop>) -> bool {
    exists|i: int| 0 <= i < ingredients.len() && drops_code(drops, (#[trigger] ingredients[i]).code@)
}

fn consumes_drop(ingredients: &[CraftIngredient], drops: &[MonsterDrop]) -> (r: bool)
    ensures
        r == takes_drop(ingredients@, drops@),
{
    let mut i: usize = 0;
    while i < ingredients.len()
        invariant
            i <= ingredients@.len(),
            forall|j: int| 0 <= j < i ==> !drops_code(drops@, (#[trigger] ingredients@[j]).code@),
        decreases ingredients@.len() - i,
    {
        if is_dropped(drops, &ingredients[i].code) {
            return true;
        }
        i += 1;
    }
    false
}

/// Whether an item is made by `skill`, at a level the character has, from something the resource
/// gives.
pub open spec fn refines(item: Item, skill: Seq<char>, level: int, resource: Resource) -> bool {
    crafted_by(item, skill) && level_suffices(item, level) && takes_drop(
        item.craft->0.items@,
        resource.drops@,
    )
}

/// The levels of the items that refine a resource.
pub open spec fn refining_levels(
    items: Seq<Item>,
    skill: Seq<char>,
    level: int,
    resource: Resource,
) -> Seq<Option<i64>> {
    Seq::new(
        items.len(),
        |i: int|
            if refines(items[i], skill, level, resource) {
                Some(items[i].level as i64)
            } else {
                None
            },
    )
}

/// The highest-level recipe of `refine_skill` that the character can follow and that takes
/// something the resource gives, by its place; the last one where several have that level.
pub fn best_refining_recipe_for(
    data: &GameData,
    refine_skill: &str,
    refining_skill_level: i32,
    resource: &Resource,
) -> (r: Option<usize>)
    ensures
        match last_best(
            refining_levels(
                data.items@,
                refine_skill@,
                refining_skill_level as int,
                *resource,
            ),
            data.items@.len() as int,
        ) {
            Some(b) => r matches Some(i) && i == b && i < data.items@.len(),
            None => r is None,
        },
{
    let ghost target = refining_levels(
        data.items@,
        refine_skill@,
        refining_skill_level as int,
        *resource,
    );
    let mut keys: Vec<Option<i64>> = Vec::new();
    let mut i: usize = 0;
    while i < data.items.len()
        invariant
            i <= data.items@.len(),
            target == refining_levels(
                data.items@,
                refine_skill@,
                refining_skill_level as int,
                *resource,
            ),
            keys@ == target.take(i as int),
        decreases data.items@.len() - i,
    {
        let item: &Item = &data.items[i];
        let fits: bool = is_crafted_by(item, refine_skill) && is_level_enough(
            item,
            refining_skill_level,
        ) && match &item.craft {
            Some(craft) => consumes_drop(&craft.items, &resource.drops),
            None => false,
        };
        if fits {
            keys.push(Some(item.level as i64));
        } else {
            keys.push(None);
        }
        i += 1;
        assert(target.take(i as int) =~= target.take(i - 1).push(target[i - 1]));
    }
    assert(target.take(i as int) =~= target);
    find_last_best(&keys)
}

/// How much of what a drop table has the first `n` ingredients of one craft take; the sum stays at
/// the edge of the 32-bit range where it would leave it.
pub open spec fn raw_needed(ingredients: Seq<CraftIngredient>, drops: Seq<MonsterDrop>, n: int) -> int
    decreases n,
{
    if n <= 0 {
        0
    } else if drops_code(drops, ingredients[n - 1].code@) {
        sat_i32(raw_needed(ingredients, drops, n - 1) + ingredients[n - 1].quantity)
    } else {
        raw_needed(ingredients, drops, n - 1)
    }
}

/// How many raw materials of a resource one refining takes.
pub fn raw_needed_per_refine(craft: &CraftInfo, resource: &Resource) -> (r: i32)
    ensures
        r == raw_needed(craft.items@, resource.drops@, craft.items@.len() as int),
{
    let mut sum: i32 = 0;
    let mut i: usize = 0;
    while i < craft.items.len()
        invariant
            i <= craft.items@.len(),
            sum == raw_needed(craft.items@, resource.drops@, i as int),
        decreases craft.items@.len() - i,
    {
        if is_dropped(&resource.drops, &craft.items[i].code) {
            sum = saturated(sum as i64 + craft.items[i].quantity as i64);
        }
        i += 1;
    }
    sum
}

/// Whether a recipe takes a code.
pub open spec fn takes_code(ingredients: Seq<CraftIngredient>, code: Seq<char>) -> bool {
    exists|i: int| 0 <= i < ingredients.len() && (#[trigger] ingredients[i]).code@ == code
}

/// Whether a recipe takes a code, so that a drop of it counts towards refining.
pub fn is_ingredient_of(craft: &CraftInfo, code: &str) -> (r: bool)
    ensures
        r == takes_code(craft.items@, code@),
{
    let mut i: usize = 0;
    while i < craft.items.len()
        invariant
            i <= craft.items@.len(),
            forall|j: int| 0 <= j < i ==> (#[trigger] craft.items@[j]).code@ != code@,
        decreases craft.items@.len() - i,
    {
        if same(&craft.items[i].code, code) {
            return true;
        }
        i += 1;
    }
    false
}

/// The cooldown effect of the gear in the first `n` slots on gathering with `skill`.
pub open spec fn gear_cooldown(who: Character, items: Seq<Item>, skill: Seq<char>, n: int) -> int
    decreases n,
{
    if n <= 0 {
        0
    } else {
        let before = gear_cooldown(who, items, skill, n - 1);
        match worn_item(items, slots_of(who)[n - 1].2) {
            Some(item) => sat_i32(
                before + effect_sum(item.effects@, skill, item.effects@.len() as int),
            ),
            None => before,
        }
    }
}

/// The percentage by which all worn gear together changes the gathering cooldown of `skill`.
pub fn total_gathering_cooldown_pct(character: &Character, data: &GameData, skill: &str) -> (r: i32)
    ensures
        r == gear_cooldown(*character, data.items@, skill@, 13),
{
    let defs = slot_definitions(character);
    let mut sum: i32 = 0;
    let mut i: usize = 0;
    while i < 13
        invariant
            i <= 13,
            defs@.len() == 13,
            forall|k: int| 0 <= k < 13 ==> (#[trigger] defs@[k]).2@ == slots_of(*character)[k].2,
            sum == gear_cooldown(*character, data.items@, skill@, i as int),
        decreases 13 - i,
    {
        assert(defs@[i as int].2@ == slots_of(*character)[i as int].2);
        if let Some(item) = current_item(data, defs[i].2) {
            sum = saturated(sum as i64 + item_effect_value(item, skill) as i64);
        }
        i += 1;
    }
    sum
}

/// The stats that gathering depends on.
#[derive(Debug, Clone, Copy, PartialEq, Eq, Structural)]
pub struct GatherStats {
    pub wisdom: i64,
    pub cooldown_pct: i64,
    pub prospecting: i64,
}

/// What an item does for gathering with `skill`.
pub open spec fn gathering_effects(item: Item, skill: Seq<char>) -> (int, int, int) {
    let n = item.effects@.len() as int;
    (
        effect_sum(item.effects@, "wisdom"@, n),
        effect_sum(item.effects@, skill, n),
        effect_sum(item.effects@, "prospecting"@, n),
    )
}

/// The character's gathering stats without what it wears in one slot.
pub fn stats_without(
    character: &Character,
    total_cd: i32,
    current: Option<&Item>,
    skill: &str,
) -> (r: GatherStats)
    ensures
        ({
            let e = match current {
                Some(item) => gathering_effects(*item, skill@),
                None => (0int, 0int, 0int),
            };
            &&& r.wisdom == character.wisdom - e.0
            &&& r.cooldown_pct == total_cd - e.1
            &&& r.prospecting == character.prospecting - e.2
        }),
{
    match current {
        Some(item) => GatherStats {
            wisdom: character.wisdom as i64 - item_effect_value(item, "wisdom") as i64,
            cooldown_pct: total_cd as i64 - item_effect_value(item, skill) as i64,
            prospecting: character.prospecting as i64 - item_effect_value(
                item,
                "prospecting",
            ) as i64,
        },
        None => GatherStats {
            wisdom: character.wisdom as i64,
            cooldown_pct: total_cd as i64,
            prospecting: character.prospecting as i64,
        },
    }
}

/// Gathering stats with an item put on.
pub fn stats_with(bare: GatherStats, item: &Item, skill: &str) -> (r: GatherStats)
    requires
        -0x2_0000_0000 <= bare.wisdom <= 0x2_0000_0000,
        -0x2_0000_0000 <= bare.cooldown_pct <= 0x2_0000_0000,
        -0x2_0000_0000 <= bare.prospecting <= 0x2_0000_0000,
    ensures
        r.wisdom == bare.wisdom + gathering_effects(*item, skill@).0,
        r.cooldown_pct == bare.cooldown_pct + gathering_effects(*item, skill@).1,
        r.prospecting == bare.prospecting + gathering_effects(*item, skill@).2,
{
    GatherStats {
        wisdom: bare.wisdom + item_effect_value(item, "wisdom") as i64,
        cooldown_pct: bare.cooldown_pct + item_effect_value(item, skill) as i64,
        prospecting: bare.prospecting + item_effect_value(item, "prospecting") as i64,
    }
}

} // verus!
