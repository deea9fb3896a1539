//! Who may use an item, and what it does for them.

use vstd::prelude::*;

use crate::arith::{fits_i32, sat_i32, saturated};
use crate::text::same;
use crate::types::{copy_character, same_character, Character, Item, ItemCondition, ItemEffect};

verus! {

/// Whether one of the effects has the given code.
pub open spec fn has_effect(effects: Seq<ItemEffect>, code: Seq<char>) -> bool {
    exists|i: int| 0 <= i < effects.len() && (#[trigger] effects[i]).code@ == code
}

/// Whether an item is food: a consumable that heals when used.
pub open spec fn heals(item: Item) -> bool {
    item.item_type@ == "consumable"@ && has_effect(item.effects@, "heal"@)
}

/// Whether an item is a consumable that heals when used outside of a fight.
pub fn is_healing_consumable(item: &Item) -> (r: bool)
    ensures
        r == heals(*item),
{
    if !same(&item.item_type, "consumable") {
        return false;
    }
    let mut i: usize = 0;
    while i < item.effects.len()
        invariant
            i <= item.effects@.len(),
            item.item_type@ == "consumable"@,
            forall|j: int| 0 <= j < i ==> (#[trigger] item.effects@[j]).code@ != "heal"@,
        decreases item.effects@.len() - i,
    {
        if same(&item.effects[i].code, "heal") {
            return true;
        }
        i += 1;
    }
    false
}

/// The values of the first `n` effects with the given code, added up; the sum stays at the edge of
/// the 32-bit range where it would leave it.
pub open spec fn effect_sum(effects: Seq<ItemEffect>, code: Seq<char>, n: int) -> int
    decreases n,
{
    if n <= 0 {
        0
    } else if effects[n - 1].code@ == code {
        sat_i32(effect_sum(effects, code, n - 1) + effects[n - 1].value)
    } else {
        effect_sum(effects, code, n - 1)
    }
}

/// The sum of all effect values on `item` with the given code: an item can list one more than
/// once.
pub fn item_effect_value(item: &Item, code: &str) -> (r: i32)
    ensures
        r == effect_sum(item.effects@, code@, item.effects@.len() as int),
{
    let mut sum: i32 = 0;
    let mut i: usize = 0;
    while i < item.effects.len()
        invariant
            i <= item.effects@.len(),
            sum == effect_sum(item.effects@, code@, i as int),
        decreases item.effects@.len() - i,
    {
        if same(&item.effects[i].code, code) {
            sum = saturated(sum as i64 + item.effects[i].value as i64);
        }
        i += 1;
    }
    sum
}

/// The level that a condition's code stands for, if it stands for one.
pub open spec fn level_stat(character: Character, code: Seq<char>) -> Option<int> {
    if code == "level"@ {
        Some(character.level as int)
    } else if code == "woodcutting_level"@ {
        Some(character.woodcutting_level as int)
    } else if code == "mining_level"@ {
        Some(character.mining_level as int)
    } else if code == "fishing_level"@ {
        Some(character.fishing_level as int)
    } else if code == "alchemy_level"@ {
        Some(character.alchemy_level as int)
    } else if code == "weaponcrafting_level"@ {
        Some(character.weaponcrafting_level as int)
    } else if code == "gearcrafting_level"@ {
        Some(character.gearcrafting_level as int)
    } else if code == "jewelrycrafting_level"@ {
        Some(character.jewelrycrafting_level as int)
    } else if code == "cooking_level"@ {
        Some(character.cooking_level as int)
    } else {
        None
    }
}

/// The character's level that a condition's code stands for, if it stands for one.
pub fn character_level_stat(character: &Character, code: &str) -> (r: Option<i32>)
    ensures
        match level_stat(*character, code@) {
            Some(level) => r matches Some(l) && l == level,
            None => r is None,
        },
{
    if same(code, "level") {
        Some(character.level)
    } else if same(code, "woodcutting_level") {
        Some(character.woodcutting_level)
    } else if same(code, "mining_level") {
        Some(character.mining_level)
    } else if same(code, "fishing_level") {
        Some(character.fishing_level)
    } else if same(code, "alchemy_level") {
        Some(character.alchemy_level)
    } else if same(code, "weaponcrafting_level") {
        Some(character.weaponcrafting_level)
    } else if same(code, "gearcrafting_level") {
        Some(character.gearcrafting_level)
    } else if same(code, "jewelrycrafting_level") {
        Some(character.jewelrycrafting_level)
    } else if same(code, "cooking_level") {
        Some(character.cooking_level)
    } else {
        None
    }
}

/// Whether a condition holds. One that cannot be checked, such as an achievement, does not.
pub open spec fn holds(character: Character, cond: ItemCondition) -> bool {
    match level_stat(character, cond.code@) {
        Some(level) => {
            ||| cond.operator@ == "gt"@ && level > cond.value
            ||| cond.operator@ == "gte"@ && level >= cond.value
            ||| cond.operator@ == "lt"@ && level < cond.value
            ||| cond.operator@ == "lte"@ && level <= cond.value
            ||| cond.operator@ == "eq"@ && level == cond.value
        },
        None => false,
    }
}

/// Whether a condition holds.
pub fn condition_met(character: &Character, cond: &ItemCondition) -> (r: bool)
    ensures
        r == holds(*character, *cond),
{
    match character_level_stat(character, &cond.code) {
        Some(level) => {
            let op: &str = cond.operator.as_str();
            (same(op, "gt") && level > cond.value) || (same(op, "gte") && level >= cond.value) || (
            same(op, "lt") && level < cond.value) || (same(op, "lte") && level <= cond.value) || (
            same(op, "eq") && level == cond.value)
        },
        None => false,
    }
}

/// Whether a character may wear an item: every condition holds.
pub open spec fn is_eligible(character: Character, item: Item) -> bool {
    forall|i: int|
        0 <= i < item.conditions@.len() ==> holds(character, #[trigger] item.conditions@[i])
}

/// Whether a character may wear an item.
pub fn meets_conditions(character: &Character, item: &Item) -> (r: bool)
    ensures
        r == is_eligible(*character, *item),
{
    let mut i: usize = 0;
    while i < item.conditions.len()
        invariant
            i <= item.conditions@.len(),
            forall|j: int| 0 <= j < i ==> holds(*character, #[trigger] item.conditions@[j]),
        decreases item.conditions@.len() - i,
    {
        if !condition_met(character, &item.conditions[i]) {
            return false;
        }
        i += 1;
    }
    true
}

/// The combat stat that an effect's code stands for, if it stands for one.
pub open spec fn stat(c: Character, code: Seq<char>) -> Option<int> {
    if code == "hp"@ {
        Some(c.max_hp as int)
    } else if code == "dmg"@ {
        Some(c.dmg as int)
    } else if code == "dmg_fire"@ {
        Some(c.dmg_fire as int)
    } else if code == "dmg_earth"@ {
        Some(c.dmg_earth as int)
    } else if code == "dmg_water"@ {
        Some(c.dmg_water as int)
    } else if code == "dmg_air"@ {
        Some(c.dmg_air as int)
    } else if code == "attack_fire"@ {
        Some(c.attack_fire as int)
    } else if code == "attack_earth"@ {
        Some(c.attack_earth as int)
    } else if code == "attack_water"@ {
        Some(c.attack_water as int)
    } else if code == "attack_air"@ {
        Some(c.attack_air as int)
    } else if code == "res_fire"@ {
        Some(c.res_fire as int)
    } else if code == "res_earth"@ {
        Some(c.res_earth as int)
    } else if code == "res_water"@ {
        Some(c.res_water as int)
    } else if code == "res_air"@ {
        Some(c.res_air as int)
    } else if code == "critical_strike"@ {
        Some(c.critical_strike as int)
    } else if code == "initiative"@ {
        Some(c.initiative as int)
    } else if code == "haste"@ {
        Some(c.haste as int)
    } else if code == "wisdom"@ {
        Some(c.wisdom as int)
    } else {
        None
    }
}

/// A stat of `start` once the first `n` effects have been put on (or, with -1, taken off). It stays
/// at the edge of the 32-bit range where it would leave it.
pub open spec fn adjusted(
    start: int,
    effects: Seq<ItemEffect>,
    code: Seq<char>,
    sign: int,
    n: int,
) -> int
    decreases n,
{
    if n <= 0 {
        start
    } else {
        let before = adjusted(start, effects, code, sign, n - 1);
        if effects[n - 1].code@ == code {
            sat_i32(before + effects[n - 1].value * sign)
        } else {
            before
        }
    }
}

/// Two characters are the same but for their combat stats.
pub open spec fn same_but_stats(a: Character, b: Character) -> bool {
    same_character(
        a,
        (Character { max_hp: a.max_hp, dmg: a.dmg, dmg_fire: a.dmg_fire, dmg_earth: a.dmg_earth, dmg_water: a.dmg_water, dmg_air: a.dmg_air, attack_fire: a.attack_fire, attack_earth: a.attack_earth, attack_water: a.attack_water, attack_air: a.attack_air, res_fire: a.res_fire, res_earth: a.res_earth, res_water: a.res_water, res_air: a.res_air, critical_strike: a.critical_strike, initiative: a.initiative, haste: a.haste, wisdom: a.wisdom, ..b }),
    )
}

/// `after` is `before` with the effects of an item put on (or, with -1, taken off).
pub open spec fn is_adjusted(after: Character, before: Character, item: Item, sign: int) -> bool {
    &&& same_but_stats(after, before)
    &&& forall|code: Seq<char>|
        match #[trigger] stat(before, code) {
            Some(value) => stat(after, code) == Some(
                adjusted(value, item.effects@, code, sign, item.effects@.len() as int),
            ),
            None => stat(after, code) is None,
        }
}

fn add_to_stat(c: &mut Character, code: &str, v: i64)
    requires
        -0x8000_0000 <= v <= 0x8000_0000,
    ensures
        same_but_stats(*final(c), *old(c)),
        forall|q: Seq<char>|
            match #[trigger] stat(*old(c), q) {
                Some(value) => stat(*final(c), q) == Some(
                    if q == code@ {
                        sat_i32(value + v)
                    } else {
                        value
                    },
                ),
                None => stat(*final(c), q) is None,
            },
{
    if same(code, "hp") {
        c.max_hp = saturated(c.max_hp as i64 + v);
    } else if same(code, "dmg") {
        c.dmg = saturated(c.dmg as i64 + v);
    } else if same(code, "dmg_fire") {
        c.dmg_fire = saturated(c.dmg_fire as i64 + v);
    } else if same(code, "dmg_earth") {
        c.dmg_earth = saturated(c.dmg_earth as i64 + v);
    } else if same(code, "dmg_water") {
        c.dmg_water = saturated(c.dmg_water as i64 + v);
    } else if same(code, "dmg_air") {
        c.dmg_air = saturated(c.dmg_air as i64 + v);
    } else if same(code, "attack_fire") {
        c.attack_fire = saturated(c.attack_fire as i64 + v);
    } else if same(code, "attack_earth") {
        c.attack_earth = saturated(c.attack_earth as i64 + v);
    } else if same(code, "attack_water") {
        c.attack_water = saturated(c.attack_water as i64 + v);
    } else if same(code, "attack_air") {
        c.attack_air = saturated(c.attack_air as i64 + v);
    } else if same(code, "res_fire") {
        c.res_fire = saturated(c.res_fire as i64 + v);
    } else if same(code, "res_earth") {
        c.res_earth = saturated(c.res_earth as i64 + v);
    } else if same(code, "res_water") {
        c.res_water = saturated(c.res_water as i64 + v);
    } else if same(code, "res_air") {
        c.res_air = saturated(c.res_air as i64 + v);
    } else if same(code, "critical_strike") {
        c.critical_strike = saturated(c.critical_strike as i64 + v);
    } else if same(code, "initiative") {
        c.initiative = saturated(c.initiative as i64 + v);
    } else if same(code, "haste") {
        c.haste = saturated(c.haste as i64 + v);
    } else if same(code, "wisdom") {
        c.wisdom = saturated(c.wisdom as i64 + v);
    }
}

/// A copy of `character` with the combat effects of `item` put on, or with -1 taken off. Effects
/// that are no combat stat are ignored.
pub fn adjust_combat_stats(character: &Character, item: &Item, sign: i32) -> (r: Character)
    requires
        sign == 1 || sign == -1,
    ensures
        is_adjusted(r, *character, *item, sign as int),
{
    let mut c: Character = copy_character(character);
    let mut i: usize = 0;
    while i < item.effects.len()
        invariant
            i <= item.effects@.len(),
            sign == 1 || sign == -1,
            same_but_stats(c, *character),
            forall|code: Seq<char>|
                match #[trigger] stat(*character, code) {
                    Some(value) => stat(c, code) == Some(
                        adjusted(value, item.effects@, code, sign as int, i as int),
                    ),
                    None => stat(c, code) is None,
                },
        decreases item.effects@.len() - i,
    {
        let ghost before = c;
        let v: i64 = item.effects[i].value as i64 * sign as i64;
        add_to_stat(&mut c, &item.effects[i].code, v);
        assert forall|code: Seq<char>|
            match #[trigger] stat(*character, code) {
                Some(value) => stat(c, code) == Some(
                    adjusted(value, item.effects@, code, sign as int, i + 1),
                ),
                None => stat(c, code) is None,
            } by {
            assert(stat(before, code) is Some == stat(*character, code) is Some);
        }
        i += 1;
    }
    c
}

/// The values of the first `n` effects with the given code, added up.
pub open spec fn plain_sum(effects: Seq<ItemEffect>, code: Seq<char>, n: int) -> int
    decreases n,
{
    if n <= 0 {
        0
    } else {
        plain_sum(effects, code, n - 1) + if effects[n - 1].code@ == code {
            effects[n - 1].value as int
        } else {
            0
        }
    }
}

/// Where no partial sum leaves the 32-bit range, a stat changes by the plain sum.
pub proof fn lemma_adjusted_is_sum(
    start: int,
    effects: Seq<ItemEffect>,
    code: Seq<char>,
    sign: int,
    n: int,
)
    requires
        0 <= n <= effects.len(),
        sign == 1 || sign == -1,
        forall|k: int| 0 <= k <= n ==> fits_i32(start + sign * #[trigger] plain_sum(effects, code, k)),
    ensures
        adjusted(start, effects, code, sign, n) == start + sign * plain_sum(effects, code, n),
    decreases n,
{
    if n > 0 {
        lemma_adjusted_is_sum(start, effects, code, sign, n - 1);
        assert(fits_i32(start + sign * plain_sum(effects, code, n)));
        let v = effects[n - 1].value as int;
        let s = plain_sum(effects, code, n - 1);
        assert(sign * (s + v) == sign * s + v * sign) by (nonlinear_arith);
        assert(sign * (s + 0) == sign * s);
    } else {
        assert(sign * 0 == 0);
    }
}

/// Putting an item on and taking it off again restores every combat stat, as long as no partial
/// sum leaves the 32-bit range on the way.
pub proof fn law_taking_off_undoes_putting_on(
    bare: Character,
    worn: Character,
    back: Character,
    item: Item,
    code: Seq<char>,
)
    requires
        is_adjusted(worn, bare, item, 1),
        is_adjusted(back, worn, item, -1),
        stat(bare, code) matches Some(value) ==> forall|k: int|
            0 <= k <= item.effects@.len() ==> {
                let s = #[trigger] plain_sum(item.effects@, code, k);
                let all = plain_sum(item.effects@, code, item.effects@.len() as int);
                fits_i32(value + s) && fits_i32(value + all - s)
            },
    ensures
        stat(back, code) == stat(bare, code),
{
    let n = item.effects@.len() as int;
    if let Some(value) = stat(bare, code) {
        let all = plain_sum(item.effects@, code, n);
        lemma_adjusted_is_sum(value, item.effects@, code, 1, n);
        lemma_adjusted_is_sum(value + all, item.effects@, code, -1, n);
        assert(stat(worn, code) == Some(value + all));
    } else {
        assert(stat(worn, code) is None);
    }
}

} // verus!
