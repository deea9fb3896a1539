//! Level tiers and subtiers, by which the characters coordinate who fights and who gathers. A
//! tier is a level band ten wide (1-9, 10-19, ..., 40-49, 50 on its own); a subtier is a band five
//! wide within a tier (10-14 and 15-19 within 10-19).

use vstd::prelude::*;

verus! {

/// The tier of a level: 1-9 is 0, 10-19 is 1, ..., 50 is 5.
pub open spec fn tier_of(level: int) -> int {
    if level >= 0 {
        level / 10
    } else {
        -((-level) / 10)
    }
}

/// Whether a level lies in the lower half of its tier (X0-X4).
pub open spec fn in_lower_half(level: int) -> bool {
    level < 0 || level % 10 < 5
}

/// Which half-tier band a level lies in, counted from the bottom: 1-4 is 0, 5-9 is 1, 10-14 is 2.
pub open spec fn band_of(level: int) -> int {
    level / 5
}

/// Tier index for `level`.
pub fn tier(level: i32) -> (r: i32)
    ensures
        r == tier_of(level as int),
{
    level / 10
}

/// True if `level` falls in the lower half of its tier (X0-X4), false if the upper half (X5-X9).
pub fn is_lower_subtier(level: i32) -> (r: bool)
    ensures
        r == in_lower_half(level as int),
{
    level % 10 < 5
}

/// Global subtier ordinal, comparable across any two levels whichever tiers they are in.
pub fn global_subtier(level: i32) -> (r: i32)
    ensures
        level >= 0 ==> r == band_of(level as int),
        r == 2 * tier_of(level as int) + if in_lower_half(level as int) { 0int } else { 1int },
{
    2 * tier(level) + if is_lower_subtier(level) { 0 } else { 1 }
}

/// The gathering-skill level at which a character turns from gathering to fighting, given the
/// fighter's combat level: the start of the next tier if the fighter is in the lower half of
/// its tier, of the tier after that if in the upper half.
pub open spec fn promotion_threshold(combat_level: int) -> int {
    (tier_of(combat_level) + if in_lower_half(combat_level) { 1int } else { 2int }) * 10
}

/// The gathering-skill level at which a character should switch from gathering to fighting.
pub fn gather_promotion_threshold(combat_level: i32) -> (r: i32)
    requires
        promotion_threshold(combat_level as int) <= i32::MAX,
    ensures
        r == promotion_threshold(combat_level as int),
{
    let bump: i32 = if is_lower_subtier(combat_level) { 1 } else { 2 };
    (tier(combat_level) + bump) * 10
}

/// The bands are ordered as the levels are: a higher level never lies in a lower band, and two
/// levels share a band exactly when the same multiple of five is the last one at or below both.
pub proof fn law_bands_are_ordered(a: int, b: int)
    requires
        0 <= a <= b,
    ensures
        band_of(a) <= band_of(b),
        band_of(a) == band_of(b) <==> a - a % 5 == b - b % 5,
        band_of(a + 5) == band_of(a) + 1,
{
}

/// A fighter that levels up never makes it easier for a gatherer to be promoted, and the
/// threshold always lies strictly above the fighter's own level.
pub proof fn law_threshold_grows_with_the_fighter(a: int, b: int)
    requires
        0 <= a <= b,
    ensures
        promotion_threshold(a) <= promotion_threshold(b),
        promotion_threshold(a) > a,
{
}

} // verus!
