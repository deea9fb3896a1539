//! When a gatherer turns to fighting, and when it turns back.

use vstd::prelude::*;

use crate::formulas::tiers::{law_threshold_grows_with_the_fighter, promotion_threshold, tier, is_lower_subtier};
use crate::optimize::skills::{level_in, skill_level};
use crate::types::Character;

verus! {

/// Whether a character's level in `skill` has reached the threshold for fighting.
pub open spec fn is_promoted(character: Character, skill: Seq<char>, fighter_level: int) -> bool {
    level_in(character, skill) >= promotion_threshold(fighter_level)
}

/// Whether a character's level in `skill` has reached the threshold for fighting, given the
/// fighter's combat level. The same threshold decides when it turns back.
pub fn should_promote(character: &Character, skill: &str, fighter_combat_level: i32) -> (r: bool)
    ensures
        r == is_promoted(*character, skill@, fighter_combat_level as int),
{
    let bump: i64 = if is_lower_subtier(fighter_combat_level) {
        1
    } else {
        2
    };
    let threshold: i64 = (tier(fighter_combat_level) as i64 + bump) * 10;
    skill_level(character, skill) as i64 >= threshold
}

/// Whether a promoted character has fallen back below the threshold for fighting.
pub fn should_revert(character: &Character, skill: &str, fighter_combat_level: i32) -> (r: bool)
    ensures
        r == !is_promoted(*character, skill@, fighter_combat_level as int),
{
    !should_promote(character, skill, fighter_combat_level)
}

/// A fighter's level-up never promotes anyone: whoever is promoted at its higher level was already
/// promoted at the lower one. So promotion only has to be looked at when a gatherer levels up.
pub proof fn law_fighter_level_up_never_promotes(
    character: Character,
    skill: Seq<char>,
    before: int,
    after: int,
)
    requires
        0 <= before <= after,
        is_promoted(character, skill, after),
    ensures
        is_promoted(character, skill, before),
{
    law_threshold_grows_with_the_fighter(before, after);
}

} // verus!
