//! What holds of the formulas over their whole range.

use vstd::prelude::*;

use super::crafting::{
    crafted_by, crafts_from, level_up_xp, skill_tenths, xp_bucket, LEVEL_UP_XP_TABLE,
};
use super::recycling::{is_gear_skill, recycle_return};
use super::tiers::{in_lower_half, promotion_threshold, tier_of};
use super::xp::{gathering_xp, monster_tenths, penalty_tenths};
use crate::optimize::skill_laws::{is_skill, lemma_skill_names};
use crate::types::{held, CraftInfo, InventorySlot, Item};

verus! {

/// By how much the XP of a level exceeds that of the level before it.
pub open spec fn level_step(level: int) -> int {
    if level <= 3 {
        100
    } else if level <= 8 {
        250
    } else if level <= 13 {
        400
    } else if level <= 18 {
        700
    } else if level <= 23 {
        1000
    } else if level <= 28 {
        1200
    } else if level <= 33 {
        1500
    } else if level <= 39 {
        1800
    } else if level <= 44 {
        2100
    } else {
        1800
    }
}

/// Every level takes more XP than the one before it, by a step that stays the same for several
/// levels; the first takes 150, and there is nothing beyond the forty-ninth.
pub proof fn law_levels_get_dearer_in_steps(level: int)
    ensures
        level_up_xp(1) == 150,
        1 <= level < 49 ==> level_up_xp(level + 1) == level_up_xp(level) + level_step(level),
        level < 1 || level > 49 ==> level_up_xp(level) == 0,
{
    let t = LEVEL_UP_XP_TABLE@;
    if 1 <= level < 49 {
        assert(t[level] - t[level - 1] == level_step(level));
    }
}

/// The brackets of the crafting formula are five levels wide, from below level 5 up to level 45 and
/// beyond. The coefficient rises by five from each to the next, and the base by what the bracket
/// says.
pub proof fn law_crafting_brackets(level: int)
    ensures
        xp_bucket(0) == (50int, 25int),
        level < 5 ==> xp_bucket(level) == xp_bucket(0),
        level >= 45 ==> xp_bucket(level) == (1000int, 70int),
        0 <= level < 45 ==> xp_bucket(level + 5).1 == xp_bucket(level).1 + 5,
        0 <= level < 45 ==> xp_bucket(level + 5).0 - xp_bucket(level).0 == if level < 5 {
            50int
        } else if level < 10 {
            100
        } else if level < 20 {
            125
        } else if level < 40 {
            100
        } else {
            150
        },
{
}

/// A craft gives its full XP under the skills that make gear and potions, half of it for cooking, a
/// tenth for refining under a gathering skill, and none under anything else.
pub proof fn law_what_a_craft_is_worth_by_skill(skill: Seq<char>)
    ensures
        skill_tenths("weaponcrafting"@) == 10,
        skill_tenths("gearcrafting"@) == 10,
        skill_tenths("jewelrycrafting"@) == 10,
        skill_tenths("alchemy"@) == 10,
        skill_tenths("cooking"@) == 5,
        skill_tenths("mining"@) == 1,
        skill_tenths("woodcutting"@) == 1,
        skill_tenths("fishing"@) == 1,
        !is_skill(skill) ==> skill_tenths(skill) == 0,
{
    lemma_skill_names();
}

/// The more a character outgrows a target, the less it gains: all of the XP up to four levels above
/// it, seven tenths up to nine, and nothing from ten on.
pub proof fn law_outgrown_targets_give_less(a: int, b: int)
    requires
        a <= b,
    ensures
        penalty_tenths(a) >= penalty_tenths(b),
        a <= 4 ==> penalty_tenths(a) == 10,
        5 <= a <= 9 ==> penalty_tenths(a) == 7,
        a >= 10 ==> penalty_tenths(a) == 0,
{
}

/// Gathering gives ten XP for each level of the resource, as long as the gatherer has not outgrown
/// it; seven tenths and nothing after that.
pub proof fn law_gathering_gives_ten_per_level(skill_level: int, level: int)
    ensures
        skill_level <= level + 4 ==> gathering_xp(skill_level, level) == 10 * level,
        level + 5 <= skill_level <= level + 9 ==> gathering_xp(skill_level, level) == 7 * level,
        skill_level >= level + 10 ==> gathering_xp(skill_level, level) == 0,
{
}

/// Elites give 1.4 times the XP and bosses twice; every other monster the plain XP.
pub proof fn law_what_a_monster_is_worth_by_type(kind: Seq<char>)
    ensures
        monster_tenths("elite"@) == 14,
        monster_tenths("boss"@) == 20,
        kind != "elite"@ && kind != "boss"@ ==> monster_tenths(kind) == 10,
{
    reveal_strlit("elite");
    reveal_strlit("boss");
    assert("elite"@.len() == 5);
    assert("boss"@.len() == 4);
}

/// An item is made by a skill where it has a recipe that names that skill.
pub proof fn law_recipe_names_its_skill(item: Item, skill: Seq<char>)
    ensures
        crafted_by(item, skill) <==> item.craft is Some && item.craft->0.skill is Some
            && item.craft->0.skill->0@ == skill,
{
}

/// Only what the three gear skills make is recycled.
pub proof fn law_only_gear_is_recycled(skill: Seq<char>)
    ensures
        is_gear_skill("weaponcrafting"@),
        is_gear_skill("gearcrafting"@),
        is_gear_skill("jewelrycrafting"@),
        !is_gear_skill("alchemy"@),
        !is_gear_skill("cooking"@),
        skill != "weaponcrafting"@ && skill != "gearcrafting"@ && skill != "jewelrycrafting"@
            ==> !is_gear_skill(skill),
{
    lemma_skill_names();
}

/// A gatherer turns to fighting at the start of the tier above the fighter's, or of the one above
/// that where the fighter is in the upper half of its tier: ten levels lie between two such starts.
pub proof fn law_promotion_starts_a_tier(level: int)
    requires
        level >= 0,
    ensures
        promotion_threshold(level) % 10 == 0,
        level % 10 < 5 ==> promotion_threshold(level) == level - level % 10 + 10,
        level % 10 >= 5 ==> promotion_threshold(level) == level - level % 10 + 20,
        tier_of(level) * 10 <= level < (tier_of(level) + 1) * 10,
        in_lower_half(level) <==> level % 10 < 5,
{
}

/// Recycling gives back one material, and one more for every five beyond the first five begun.
pub proof fn law_recycling_gives_back_one_in_five(n: int)
    ensures
        n <= 5 ==> recycle_return(n) == 1,
        n > 5 ==> recycle_return(n) == recycle_return(n - 5) + 1,
{
}

/// What is held of an ingredient is enough for that many crafts and not for one more; an ingredient
/// that a recipe names without a quantity counts as one.
pub proof fn law_held_ingredient_is_enough_and_no_more(
    inventory: Seq<InventorySlot>,
    craft: CraftInfo,
    i: int,
)
    requires
        0 <= i < craft.items@.len(),
        held(inventory, craft.items@[i].code@) >= 0,
    ensures
        ({
            let have = held(inventory, craft.items@[i].code@);
            let n = crafts_from(inventory, craft, i);
            let per = craft.items@[i].quantity;
            &&& per >= 1 ==> n * per <= have < (n + 1) * per
            &&& per <= 0 ==> n == have
        }),
{
    let have = held(inventory, craft.items@[i].code@);
    let per = craft.items@[i].quantity as int;
    if per >= 1 {
        vstd::arithmetic::div_mod::lemma_fundamental_div_mod(have, per);
        let n = have / per;
        assert(crafts_from(inventory, craft, i) == n);
        assert(n * per <= have < (n + 1) * per) by (nonlinear_arith)
            requires
                have == per * n + have % per,
                0 <= have % per < per,
        ;
    } else {
        vstd::arithmetic::div_mod::lemma_div_basics(have);
        assert(crafts_from(inventory, craft, i) == have / 1);
    }
}

} // verus!
