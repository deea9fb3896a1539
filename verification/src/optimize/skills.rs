//! Skills by name.

use vstd::prelude::*;

use crate::text::same;
use crate::types::Character;

verus! {

/// A character's level in a skill; 1 for a name that is no skill.
pub open spec fn level_in(character: Character, skill: Seq<char>) -> int {
    if skill == "fishing"@ {
        character.fishing_level as int
    } else if skill == "mining"@ {
        character.mining_level as int
    } else if skill == "woodcutting"@ {
        character.woodcutting_level as int
    } else if skill == "weaponcrafting"@ {
        character.weaponcrafting_level as int
    } else if skill == "gearcrafting"@ {
        character.gearcrafting_level as int
    } else if skill == "jewelrycrafting"@ {
        character.jewelrycrafting_level as int
    } else if skill == "cooking"@ {
        character.cooking_level as int
    } else if skill == "alchemy"@ {
        character.alchemy_level as int
    } else {
        1
    }
}

/// A character's level in a skill; 1 for a name that is no skill.
pub fn skill_level(character: &Character, skill: &str) -> (r: i32)
    ensures
        r == level_in(*character, skill@),
{
    if same(skill, "fishing") {
        character.fishing_level
    } else if same(skill, "mining") {
        character.mining_level
    } else if same(skill, "woodcutting") {
        character.woodcutting_level
    } else if same(skill, "weaponcrafting") {
        character.weaponcrafting_level
    } else if same(skill, "gearcrafting") {
        character.gearcrafting_level
    } else if same(skill, "jewelrycrafting") {
        character.jewelrycrafting_level
    } else if same(skill, "cooking") {
        character.cooking_level
    } else if same(skill, "alchemy") {
        character.alchemy_level
    } else {
        1
    }
}

/// The skill that refines what a gathering skill brings in; empty where there is none.
pub open spec fn refining_skill(gather_skill: Seq<char>) -> Seq<char> {
    if gather_skill == "woodcutting"@ {
        "woodcutting"@
    } else if gather_skill == "mining"@ {
        "mining"@
    } else if gather_skill == "fishing"@ {
        "cooking"@
    } else {
        ""@
    }
}

/// Maps a gathering skill to the skill its raw materials are refined with. Woodcutting and mining
/// refine into their own skill (planks, bars, gems); fish is cooked.
pub fn refining_skill_for(gather_skill: &str) -> (r: &'static str)
    ensures
        r@ == refining_skill(gather_skill@),
{
    if same(gather_skill, "woodcutting") {
        "woodcutting"
    } else if same(gather_skill, "mining") {
        "mining"
    } else if same(gather_skill, "fishing") {
        "cooking"
    } else {
        ""
    }
}

/// Level, XP and the XP of the next level in one of the skills the wishlist tracks.
pub open spec fn xp_progress(character: Character, skill: Seq<char>) -> (int, int, int) {
    if skill == "weaponcrafting"@ {
        (
            character.weaponcrafting_level as int,
            character.weaponcrafting_xp as int,
            character.weaponcrafting_max_xp as int,
        )
    } else if skill == "gearcrafting"@ {
        (
            character.gearcrafting_level as int,
            character.gearcrafting_xp as int,
            character.gearcrafting_max_xp as int,
        )
    } else if skill == "jewelrycrafting"@ {
        (
            character.jewelrycrafting_level as int,
            character.jewelrycrafting_xp as int,
            character.jewelrycrafting_max_xp as int,
        )
    } else if skill == "alchemy"@ {
        (
            character.alchemy_level as int,
            character.alchemy_xp as int,
            character.alchemy_max_xp as int,
        )
    } else {
        (1, 0, 0)
    }
}

/// (level, xp, max_xp) for one of the crafting skills the next-tier wishlist tracks.
pub fn skill_xp_progress(character: &Character, skill: &str) -> (r: (i32, i32, i32))
    ensures
        r.0 == xp_progress(*character, skill@).0,
        r.1 == xp_progress(*character, skill@).1,
        r.2 == xp_progress(*character, skill@).2,
{
    if same(skill, "weaponcrafting") {
        (
            character.weaponcrafting_level,
            character.weaponcrafting_xp,
            character.weaponcrafting_max_xp,
        )
    } else if same(skill, "gearcrafting") {
        (character.gearcrafting_level, character.gearcrafting_xp, character.gearcrafting_max_xp)
    } else if same(skill, "jewelrycrafting") {
        (
            character.jewelrycrafting_level,
            character.jewelrycrafting_xp,
            character.jewelrycrafting_max_xp,
        )
    } else if same(skill, "alchemy") {
        (character.alchemy_level, character.alchemy_xp, character.alchemy_max_xp)
    } else {
        (1, 0, 0)
    }
}

} // verus!
