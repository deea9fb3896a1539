//! Experience and cooldown formulas. Factors with one decimal are kept in tenths.

use vstd::prelude::*;

use crate::arith::fits_i32;
use crate::text::same;
use crate::types::{Monster, Resource};

verus! {

/// The share of XP, in tenths, left at a level gap: full up to four levels above the target,
/// seven tenths from five to nine, none from ten on.
pub open spec fn penalty_tenths(level_diff: int) -> int {
    if level_diff >= 10 {
        0
    } else if level_diff >= 5 {
        7
    } else {
        10
    }
}

/// The level-gap multiplier, in tenths, that every XP formula shares.
pub fn level_penalty_tier(level_diff: i32) -> (r: i32)
    ensures
        r == penalty_tenths(level_diff as int),
{
    if level_diff >= 10 {
        0
    } else if level_diff >= 5 {
        7
    } else {
        10
    }
}

/// The XP multiplier of a monster type, in tenths.
pub open spec fn monster_tenths(monster_type: Seq<char>) -> int {
    if monster_type == "elite"@ {
        14
    } else if monster_type == "boss"@ {
        20
    } else {
        10
    }
}

/// The XP multiplier of a monster's type, in tenths: elites give 1.4 times, bosses twice.
pub fn monster_multiplier(monster: &Monster) -> (r: i32)
    ensures
        r == monster_tenths(monster.monster_type@),
{
    if same(&monster.monster_type, "elite") {
        14
    } else if same(&monster.monster_type, "boss") {
        20
    } else {
        10
    }
}

/// The XP of gathering a resource of `resource_level` at skill level `skill_level`: ten times the
/// resource's level, less the level-gap penalty.
pub open spec fn gathering_xp(skill_level: int, resource_level: int) -> int {
    resource_level * penalty_tenths(skill_level - resource_level)
}

/// XP granted by gathering `resource` once.
pub fn calculate_gathering_xp(character_skill_level: i32, resource: &Resource) -> (r: i64)
    requires
        fits_i32(character_skill_level - resource.level),
    ensures
        r == gathering_xp(character_skill_level as int, resource.level as int),
{
    let penalty: i32 = level_penalty_tier(character_skill_level - resource.level);
    proof {
        let level = resource.level;
        assert(i64::MIN <= level * penalty <= i64::MAX) by (nonlinear_arith)
            requires
                0 <= penalty <= 10,
                i32::MIN <= level <= i32::MAX,
        ;
    }
    resource.level as i64 * penalty as i64
}

/// The time one gather of a resource takes, in half seconds: thirty seconds and half a second
/// for each level of the resource.
pub fn calculate_gathering_cooldown(resource_level: i32) -> (half_seconds: i64)
    ensures
        half_seconds == 60 + resource_level,
{
    60 + resource_level as i64
}

} // verus!
