//! Crafting: what one craft is worth, what a level asks for, how many crafts a bag allows.

use vstd::prelude::*;

use super::xp::{level_penalty_tier, penalty_tenths};
use crate::arith::{fits_i32, max_i32, max_int, quot};
use crate::text::{is_some_text, same};
use crate::types::{held, quantity_held, CraftInfo, InventorySlot, Item};

verus! {

/// The (base, coefficient) bracket of the crafting XP formula for a crafted item's level.
pub open spec fn xp_bucket(item_level: int) -> (int, int) {
    if item_level < 5 {
        (50, 25)
    } else if item_level < 10 {
        (100, 30)
    } else if item_level < 15 {
        (200, 35)
    } else if item_level < 20 {
        (325, 40)
    } else if item_level < 25 {
        (450, 45)
    } else if item_level < 30 {
        (550, 50)
    } else if item_level < 35 {
        (650, 55)
    } else if item_level < 40 {
        (750, 60)
    } else if item_level < 45 {
        (850, 65)
    } else {
        (1000, 70)
    }
}

/// The (base, coefficient) bracket of the crafting XP formula for a crafted item's level.
pub fn craft_xp_bucket(item_level: i32) -> (r: (i32, i32))
    ensures
        r.0 == xp_bucket(item_level as int).0,
        r.1 == xp_bucket(item_level as int).1,
{
    if item_level < 5 {
        (50, 25)
    } else if item_level < 10 {
        (100, 30)
    } else if item_level < 15 {
        (200, 35)
    } else if item_level < 20 {
        (325, 40)
    } else if item_level < 25 {
        (450, 45)
    } else if item_level < 30 {
        (550, 50)
    } else if item_level < 35 {
        (650, 55)
    } else if item_level < 40 {
        (750, 60)
    } else if item_level < 45 {
        (850, 65)
    } else {
        (1000, 70)
    }
}

/// The crafting XP multiplier of a skill, in tenths. Refining is a craft under the gathering
/// skill's own name, so those skills count here too.
pub open spec fn skill_tenths(skill: Seq<char>) -> int {
    if skill == "mining"@ || skill == "woodcutting"@ || skill == "fishing"@ {
        1
    } else if skill == "cooking"@ {
        5
    } else if skill == "weaponcrafting"@ || skill == "gearcrafting"@ || skill
        == "jewelrycrafting"@ || skill == "alchemy"@ {
        10
    } else {
        0
    }
}

/// The crafting XP multiplier of a skill, in tenths.
pub fn craft_skill_multiplier(skill: &str) -> (r: i32)
    ensures
        r == skill_tenths(skill@),
{
    if same(skill, "mining") || same(skill, "woodcutting") || same(skill, "fishing") {
        1
    } else if same(skill, "cooking") {
        5
    } else if same(skill, "weaponcrafting") || same(skill, "gearcrafting") || same(
        skill,
        "jewelrycrafting",
    ) || same(skill, "alchemy") {
        10
    } else {
        0
    }
}

/// The factors of the XP one craft grants: `(base + level ratio * coefficient)`, times the two
/// multipliers (kept in tenths), times the wisdom bonus.
#[derive(Debug, Clone, Copy, PartialEq, Eq)]
pub struct CraftXpTerms {
    pub base: i32,
    pub coefficient: i32,
    pub level: i32,
    pub skill_level: i32,
    pub multiplier_tenths: i32,
    pub penalty_tenths: i32,
}

/// Whether `item` is made by a recipe of `skill`.
pub open spec fn crafted_by(item: Item, skill: Seq<char>) -> bool {
    item.craft matches Some(craft) && craft.skill matches Some(s) && s@ == skill
}

/// Whether `item` is made by a recipe of `skill`.
pub fn is_crafted_by(item: &Item, skill: &str) -> (r: bool)
    ensures
        r == crafted_by(*item, skill@),
{
    match &item.craft {
        Some(craft) => is_some_text(&craft.skill, skill),
        None => false,
    }
}

/// The factors of the XP that one craft of `item` under `skill` grants; none where the item is
/// not made by that skill, and so gives no XP.
pub fn crafting_xp_terms(character_skill_level: i32, item: &Item, skill: &str) -> (r: Option<
    CraftXpTerms,
>)
    requires
        fits_i32(character_skill_level - item.level),
    ensures
        r is Some <==> crafted_by(*item, skill@),
        r matches Some(t) ==> {
            &&& t.base == xp_bucket(item.level as int).0
            &&& t.coefficient == xp_bucket(item.level as int).1
            &&& t.level == item.level
            &&& t.skill_level == max_int(character_skill_level as int, 1)
            &&& t.multiplier_tenths == skill_tenths(skill@)
            &&& t.penalty_tenths == penalty_tenths(character_skill_level - item.level)
        },
{
    if !is_crafted_by(item, skill) {
        return None;
    }
    let bucket = craft_xp_bucket(item.level);
    Some(
        CraftXpTerms {
            base: bucket.0,
            coefficient: bucket.1,
            level: item.level,
            skill_level: max_i32(character_skill_level, 1),
            multiplier_tenths: craft_skill_multiplier(skill),
            penalty_tenths: level_penalty_tier(character_skill_level - item.level),
        },
    )
}

/// XP required to go from a level to the next one, from level 1 on. Level 50 is the last.
pub const LEVEL_UP_XP_TABLE: [i32; 49] = [
    150, 250, 350, 450, 700, 950, 1200, 1450, 1700, 2100, 2500, 2900, 3300, 3700, 4400, 5100, 5800,
    6500, 7200, 8200, 9200, 10200, 11200, 12200, 13400, 14600, 15800, 17000, 18200, 19700, 21200,
    22700, 24200, 25700, 27500, 29300, 31100, 32900, 34700, 36500, 38600, 40700, 42800, 44900,
    47000, 48800, 50600, 52400, 54200,
];

/// XP required to go from `level` to `level + 1`; 0 past the table.
pub open spec fn level_up_xp(level: int) -> int {
    if 1 <= level <= 49 {
        LEVEL_UP_XP_TABLE@[level - 1] as int
    } else {
        0
    }
}

/// XP required to go from `level` to `level + 1`; 0 past the table.
pub fn xp_to_next_level(level: i32) -> (r: i32)
    ensures
        r == level_up_xp(level as int),
{
    if 1 <= level && level <= 49 {
        let table: [i32; 49] = LEVEL_UP_XP_TABLE;
        table[(level - 1) as usize]
    } else {
        0
    }
}

/// How many crafts the held quantity of the `i`-th ingredient is enough for.
pub open spec fn crafts_from(inventory: Seq<InventorySlot>, craft: CraftInfo, i: int) -> int {
    quot(held(inventory, craft.items@[i].code@), max_int(craft.items@[i].quantity as int, 1))
}

/// How many crafts of a recipe an inventory is enough for: what its scarcest ingredient allows,
/// 0 for a recipe without ingredients.
pub fn craftable_quantity(inventory: &[InventorySlot], craft: &CraftInfo) -> (r: i32)
    ensures
        craft.items@.len() == 0 ==> r == 0,
        forall|i: int| 0 <= i < craft.items@.len() ==> r <= #[trigger] crafts_from(inventory@, *craft, i),
        craft.items@.len() > 0 ==> exists|i: int|
            0 <= i < craft.items@.len() && r == #[trigger] crafts_from(inventory@, *craft, i),
{
    let mut best: i32 = 0;
    let mut i: usize = 0;
    while i < craft.items.len()
        invariant
            i <= craft.items@.len(),
            i == 0 ==> best == 0,
            forall|j: int| 0 <= j < i ==> best <= #[trigger] crafts_from(inventory@, *craft, j),
            i > 0 ==> exists|j: int| 0 <= j < i && best == #[trigger] crafts_from(inventory@, *craft, j),
        decreases craft.items@.len() - i,
    {
        let ing = &craft.items[i];
        let have: i32 = quantity_held(inventory, &ing.code);
        let per: i32 = max_i32(ing.quantity, 1);
        proof {
            crate::arith::lemma_quot_bound(have as int, per as int);
        }
        let share: i32 = have / per;
        assert(share == crafts_from(inventory@, *craft, i as int));
        if i == 0 || share < best {
            best = share;
        }
        i += 1;
    }
    best
}

} // verus!
