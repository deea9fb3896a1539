//! What holds of effects and conditions: each code stands for a field of its own.

use vstd::prelude::*;

use super::eligibility::{
    adjusted, effect_sum, heals, holds, is_adjusted, is_eligible, lemma_adjusted_is_sum, level_stat,
    plain_sum, stat,
};
use crate::arith::{fits_i32, sat_i32};
use crate::types::{Character, Item, ItemCondition, ItemEffect};

verus! {

/// Each combat code stands for the field of that name, `hp` for the maximum of hit points.
pub proof fn law_stat_is_its_own_field(c: Character)
    ensures
        stat(c, "hp"@) == Some(c.max_hp as int),
        stat(c, "dmg"@) == Some(c.dmg as int),
        stat(c, "dmg_fire"@) == Some(c.dmg_fire as int),
        stat(c, "dmg_earth"@) == Some(c.dmg_earth as int),
        stat(c, "dmg_water"@) == Some(c.dmg_water as int),
        stat(c, "dmg_air"@) == Some(c.dmg_air as int),
        stat(c, "attack_fire"@) == Some(c.attack_fire as int),
        stat(c, "attack_earth"@) == Some(c.attack_earth as int),
        stat(c, "attack_water"@) == Some(c.attack_water as int),
        stat(c, "attack_air"@) == Some(c.attack_air as int),
        stat(c, "res_fire"@) == Some(c.res_fire as int),
        stat(c, "res_earth"@) == Some(c.res_earth as int),
        stat(c, "res_water"@) == Some(c.res_water as int),
        stat(c, "res_air"@) == Some(c.res_air as int),
        stat(c, "critical_strike"@) == Some(c.critical_strike as int),
        stat(c, "initiative"@) == Some(c.initiative as int),
        stat(c, "haste"@) == Some(c.haste as int),
        stat(c, "wisdom"@) == Some(c.wisdom as int),
{
    reveal_strlit("hp");
    reveal_strlit("dmg");
    reveal_strlit("dmg_fire");
    reveal_strlit("dmg_earth");
    reveal_strlit("dmg_water");
    reveal_strlit("dmg_air");
    reveal_strlit("attack_fire");
    reveal_strlit("attack_earth");
    reveal_strlit("attack_water");
    reveal_strlit("attack_air");
    reveal_strlit("res_fire");
    reveal_strlit("res_earth");
    reveal_strlit("res_water");
    reveal_strlit("res_air");
    reveal_strlit("critical_strike");
    reveal_strlit("initiative");
    reveal_strlit("haste");
    reveal_strlit("wisdom");
    assert("hp"@.len() == 2);
    assert("dmg"@.len() == 3);
    assert("dmg_fire"@.len() == 8);
    assert("dmg_earth"@.len() == 9);
    assert("dmg_water"@.len() == 9);
    assert("dmg_air"@.len() == 7);
    assert("attack_fire"@.len() == 11);
    assert("attack_earth"@.len() == 12);
    assert("attack_water"@.len() == 12);
    assert("attack_air"@.len() == 10);
    assert("res_fire"@.len() == 8);
    assert("res_earth"@.len() == 9);
    assert("res_water"@.len() == 9);
    assert("res_air"@.len() == 7);
    assert("critical_strike"@.len() == 15);
    assert("initiative"@.len() == 10);
    assert("haste"@.len() == 5);
    assert("wisdom"@.len() == 6);
    assert("dmg_fire"@[0] == 'd' && "res_fire"@[0] == 'r');
    assert("dmg_air"@[0] == 'd' && "res_air"@[0] == 'r');
    assert("dmg_earth"@[0] == 'd' && "dmg_water"@[0] == 'd' && "res_earth"@[0] == 'r'
        && "res_water"@[0] == 'r');
    assert("dmg_earth"@[4] == 'e' && "dmg_water"@[4] == 'w' && "res_earth"@[4] == 'e'
        && "res_water"@[4] == 'w');
    assert("attack_earth"@[7] == 'e' && "attack_water"@[7] == 'w');
    assert("attack_air"@[0] == 'a' && "initiative"@[0] == 'i');
}

/// What a list of effects comes to under one code, on top of `start`, keeps to the 32-bit range all
/// the way.
pub open spec fn sums_fit(start: int, effects: Seq<ItemEffect>, code: Seq<char>, sign: int) -> bool {
    forall|k: int|
        0 <= k <= effects.len() ==> fits_i32(start + sign * #[trigger] plain_sum(effects, code, k))
}

/// `after` is `before` changed, once for every value that an effect of `code` has.
pub open spec fn changed_by(
    after: int,
    before: int,
    effects: Seq<ItemEffect>,
    code: Seq<char>,
    sign: int,
) -> bool {
    sums_fit(before, effects, code, sign) ==> after == before + sign * plain_sum(
        effects,
        code,
        effects.len() as int,
    )
}

proof fn lemma_changed(start: int, effects: Seq<ItemEffect>, code: Seq<char>, sign: int)
    requires
        sign == 1 || sign == -1,
    ensures
        changed_by(
            adjusted(start, effects, code, sign, effects.len() as int),
            start,
            effects,
            code,
            sign,
        ),
{
    if sums_fit(start, effects, code, sign) {
        lemma_adjusted_is_sum(start, effects, code, sign, effects.len() as int);
    }
}

/// Putting an item on adds each of its effects to the one field that it names, and taking it off
/// subtracts it from there: the effects of every code, added up, are what that field changes by.
pub proof fn law_effects_go_to_their_own_field(
    after: Character,
    before: Character,
    item: Item,
    sign: int,
)
    requires
        sign == 1 || sign == -1,
        is_adjusted(after, before, item, sign),
    ensures
        ({
            let e = item.effects@;
            &&& changed_by(after.max_hp as int, before.max_hp as int, e, "hp"@, sign)
            &&& changed_by(after.dmg as int, before.dmg as int, e, "dmg"@, sign)
            &&& changed_by(after.dmg_fire as int, before.dmg_fire as int, e, "dmg_fire"@, sign)
            &&& changed_by(after.dmg_earth as int, before.dmg_earth as int, e, "dmg_earth"@, sign)
            &&& changed_by(after.dmg_water as int, before.dmg_water as int, e, "dmg_water"@, sign)
            &&& changed_by(after.dmg_air as int, before.dmg_air as int, e, "dmg_air"@, sign)
            &&& changed_by(
                after.attack_fire as int,
                before.attack_fire as int,
                e,
                "attack_fire"@,
                sign,
            )
            &&& changed_by(
                after.attack_earth as int,
                before.attack_earth as int,
                e,
                "attack_earth"@,
                sign,
            )
            &&& changed_by(
                after.attack_water as int,
                before.attack_water as int,
                e,
                "attack_water"@,
                sign,
            )
            &&& changed_by(
                after.attack_air as int,
                before.attack_air as int,
                e,
                "attack_air"@,
                sign,
            )
            &&& changed_by(after.res_fire as int, before.res_fire as int, e, "res_fire"@, sign)
            &&& changed_by(after.res_earth as int, before.res_earth as int, e, "res_earth"@, sign)
            &&& changed_by(after.res_water as int, before.res_water as int, e, "res_water"@, sign)
            &&& changed_by(after.res_air as int, before.res_air as int, e, "res_air"@, sign)
            &&& changed_by(
                after.critical_strike as int,
                before.critical_strike as int,
                e,
                "critical_strike"@,
                sign,
            )
            &&& changed_by(
                after.initiative as int,
                before.initiative as int,
                e,
                "initiative"@,
                sign,
            )
            &&& changed_by(after.haste as int, before.haste as int, e, "haste"@, sign)
            &&& changed_by(after.wisdom as int, before.wisdom as int, e, "wisdom"@, sign)
        }),
{
    let e = item.effects@;
    law_stat_is_its_own_field(before);
    law_stat_is_its_own_field(after);
    lemma_changed(before.max_hp as int, e, "hp"@, sign);
    lemma_changed(before.dmg as int, e, "dmg"@, sign);
    lemma_changed(before.dmg_fire as int, e, "dmg_fire"@, sign);
    lemma_changed(before.dmg_earth as int, e, "dmg_earth"@, sign);
    lemma_changed(before.dmg_water as int, e, "dmg_water"@, sign);
    lemma_changed(before.dmg_air as int, e, "dmg_air"@, sign);
    lemma_changed(before.attack_fire as int, e, "attack_fire"@, sign);
    lemma_changed(before.attack_earth as int, e, "attack_earth"@, sign);
    lemma_changed(before.attack_water as int, e, "attack_water"@, sign);
    lemma_changed(before.attack_air as int, e, "attack_air"@, sign);
    lemma_changed(before.res_fire as int, e, "res_fire"@, sign);
    lemma_changed(before.res_earth as int, e, "res_earth"@, sign);
    lemma_changed(before.res_water as int, e, "res_water"@, sign);
    lemma_changed(before.res_air as int, e, "res_air"@, sign);
    lemma_changed(before.critical_strike as int, e, "critical_strike"@, sign);
    lemma_changed(before.initiative as int, e, "initiative"@, sign);
    lemma_changed(before.haste as int, e, "haste"@, sign);
    lemma_changed(before.wisdom as int, e, "wisdom"@, sign);
}

/// `after` is `before`, changed by the one effect if that is of `code`.
pub open spec fn changed_once(
    after: int,
    before: int,
    effect: ItemEffect,
    code: Seq<char>,
    sign: int,
) -> bool {
    after == if effect.code@ == code {
        sat_i32(before + effect.value * sign)
    } else {
        before
    }
}

/// An item with a single effect changes the field that the effect names by its value, and leaves
/// every other field as it was.
pub proof fn law_single_effect_changes_one_field(
    after: Character,
    before: Character,
    item: Item,
    sign: int,
)
    requires
        sign == 1 || sign == -1,
        is_adjusted(after, before, item, sign),
        item.effects@.len() == 1,
    ensures
        ({
            let e = item.effects@[0];
            &&& changed_once(after.max_hp as int, before.max_hp as int, e, "hp"@, sign)
            &&& changed_once(after.dmg as int, before.dmg as int, e, "dmg"@, sign)
            &&& changed_once(after.dmg_fire as int, before.dmg_fire as int, e, "dmg_fire"@, sign)
            &&& changed_once(after.dmg_earth as int, before.dmg_earth as int, e, "dmg_earth"@, sign)
            &&& changed_once(after.dmg_water as int, before.dmg_water as int, e, "dmg_water"@, sign)
            &&& changed_once(after.dmg_air as int, before.dmg_air as int, e, "dmg_air"@, sign)
            &&& changed_once(after.attack_fire as int, before.attack_fire as int, e, "attack_fire"@, sign)
            &&& changed_once(after.attack_earth as int, before.attack_earth as int, e, "attack_earth"@, sign)
            &&& changed_once(after.attack_water as int, before.attack_water as int, e, "attack_water"@, sign)
            &&& changed_once(after.attack_air as int, before.attack_air as int, e, "attack_air"@, sign)
            &&& changed_once(after.res_fire as int, before.res_fire as int, e, "res_fire"@, sign)
            &&& changed_once(after.res_earth as int, before.res_earth as int, e, "res_earth"@, sign)
            &&& changed_once(after.res_water as int, before.res_water as int, e, "res_water"@, sign)
            &&& changed_once(after.res_air as int, before.res_air as int, e, "res_air"@, sign)
            &&& changed_once(after.critical_strike as int, before.critical_strike as int, e, "critical_strike"@, sign)
            &&& changed_once(after.initiative as int, before.initiative as int, e, "initiative"@, sign)
            &&& changed_once(after.haste as int, before.haste as int, e, "haste"@, sign)
            &&& changed_once(after.wisdom as int, before.wisdom as int, e, "wisdom"@, sign)
            &&& after.hp == before.hp
            &&& after.level == before.level
            &&& after.prospecting == before.prospecting
            &&& after.threat == before.threat
            &&& after.weapon_slot == before.weapon_slot
            &&& after.inventory@ == before.inventory@
        }),
{
    reveal_with_fuel(adjusted, 2);
    law_stat_is_its_own_field(before);
    law_stat_is_its_own_field(after);
}

/// A condition's code stands for the level of that name.
pub proof fn law_condition_reads_its_own_level(c: Character)
    ensures
        level_stat(c, "level"@) == Some(c.level as int),
        level_stat(c, "woodcutting_level"@) == Some(c.woodcutting_level as int),
        level_stat(c, "mining_level"@) == Some(c.mining_level as int),
        level_stat(c, "fishing_level"@) == Some(c.fishing_level as int),
        level_stat(c, "alchemy_level"@) == Some(c.alchemy_level as int),
        level_stat(c, "weaponcrafting_level"@) == Some(c.weaponcrafting_level as int),
        level_stat(c, "gearcrafting_level"@) == Some(c.gearcrafting_level as int),
        level_stat(c, "jewelrycrafting_level"@) == Some(c.jewelrycrafting_level as int),
        level_stat(c, "cooking_level"@) == Some(c.cooking_level as int),
{
    reveal_strlit("level");
    reveal_strlit("woodcutting_level");
    reveal_strlit("mining_level");
    reveal_strlit("fishing_level");
    reveal_strlit("alchemy_level");
    reveal_strlit("weaponcrafting_level");
    reveal_strlit("gearcrafting_level");
    reveal_strlit("jewelrycrafting_level");
    reveal_strlit("cooking_level");
    assert("level"@.len() == 5);
    assert("woodcutting_level"@.len() == 17);
    assert("mining_level"@.len() == 12);
    assert("fishing_level"@.len() == 13);
    assert("alchemy_level"@.len() == 13);
    assert("weaponcrafting_level"@.len() == 20);
    assert("gearcrafting_level"@.len() == 18);
    assert("jewelrycrafting_level"@.len() == 21);
    assert("cooking_level"@.len() == 13);
    assert("fishing_level"@[0] == 'f' && "alchemy_level"@[0] == 'a' && "cooking_level"@[0] == 'c');
}

/// A condition compares the level it names with its value in the way its operator says; one with an
/// unknown code or operator does not hold.
pub proof fn law_condition_compares_as_it_says(c: Character, cond: ItemCondition)
    ensures
        level_stat(c, cond.code@) is None ==> !holds(c, cond),
        level_stat(c, cond.code@) matches Some(level) ==> {
            &&& cond.operator@ == "gt"@ ==> (holds(c, cond) <==> level > cond.value)
            &&& cond.operator@ == "gte"@ ==> (holds(c, cond) <==> level >= cond.value)
            &&& cond.operator@ == "lt"@ ==> (holds(c, cond) <==> level < cond.value)
            &&& cond.operator@ == "lte"@ ==> (holds(c, cond) <==> level <= cond.value)
            &&& cond.operator@ == "eq"@ ==> (holds(c, cond) <==> level == cond.value)
            &&& cond.operator@ != "gt"@ && cond.operator@ != "gte"@ && cond.operator@ != "lt"@
                && cond.operator@ != "lte"@ && cond.operator@ != "eq"@ ==> !holds(c, cond)
        },
{
    reveal_strlit("gt");
    reveal_strlit("gte");
    reveal_strlit("lt");
    reveal_strlit("lte");
    reveal_strlit("eq");
    assert("gt"@.len() == 2);
    assert("gte"@.len() == 3);
    assert("lt"@.len() == 2);
    assert("lte"@.len() == 3);
    assert("eq"@.len() == 2);
    assert("gt"@[0] == 'g' && "lt"@[0] == 'l' && "eq"@[0] == 'e');
    assert("gte"@[0] == 'g' && "lte"@[0] == 'l');
}

/// An item that asks for a level above some value may be worn exactly by characters above it.
pub proof fn law_level_bound_keeps_the_unready_out(c: Character, item: Item)
    requires
        item.conditions@.len() == 1,
        item.conditions@[0].code@ == "level"@,
        item.conditions@[0].operator@ == "gt"@,
    ensures
        is_eligible(c, item) <==> c.level > item.conditions@[0].value,
{
    law_condition_reads_its_own_level(c);
    law_condition_compares_as_it_says(c, item.conditions@[0]);
    if is_eligible(c, item) {
        assert(holds(c, item.conditions@[0]));
    }
}

/// Of two characters, of which the one exceeds the other in nothing but its combat level, and an
/// item whose conditions only set lower bounds, what the weaker may wear the stronger may wear too.
pub proof fn law_lower_bounds_are_outgrown_by_none(a: Character, b: Character, item: Item)
    requires
        a.level <= b.level,
        forall|i: int|
            0 <= i < item.conditions@.len() ==> {
                &&& (#[trigger] item.conditions@[i]).code@ == "level"@
                &&& item.conditions@[i].operator@ == "gt"@ || item.conditions@[i].operator@
                    == "gte"@
            },
        is_eligible(a, item),
    ensures
        is_eligible(b, item),
{
    law_condition_reads_its_own_level(a);
    law_condition_reads_its_own_level(b);
    assert forall|i: int| 0 <= i < item.conditions@.len() implies holds(
        b,
        #[trigger] item.conditions@[i],
    ) by {
        law_condition_compares_as_it_says(a, item.conditions@[i]);
        law_condition_compares_as_it_says(b, item.conditions@[i]);
        assert(holds(a, item.conditions@[i]));
    }
}

proof fn lemma_effect_sum(effects: Seq<ItemEffect>, code: Seq<char>, n: int)
    requires
        0 <= n <= effects.len(),
        forall|k: int| 0 <= k <= n ==> fits_i32(#[trigger] plain_sum(effects, code, k)),
    ensures
        effect_sum(effects, code, n) == plain_sum(effects, code, n),
    decreases n,
{
    if n > 0 {
        lemma_effect_sum(effects, code, n - 1);
        assert(fits_i32(plain_sum(effects, code, n)));
    }
}

/// What an item's effects of one code come to is the plain sum of their values.
pub proof fn law_effect_value_is_the_sum(item: Item, code: Seq<char>)
    requires
        forall|k: int|
            0 <= k <= item.effects@.len() ==> fits_i32(
                #[trigger] plain_sum(item.effects@, code, k),
            ),
    ensures
        effect_sum(item.effects@, code, item.effects@.len() as int) == plain_sum(
            item.effects@,
            code,
            item.effects@.len() as int,
        ),
{
    lemma_effect_sum(item.effects@, code, item.effects@.len() as int);
}

/// Food is what is a consumable and has an effect that heals; a potion that restores hit points in
/// a fight is none.
pub proof fn law_food_is_what_heals(item: Item)
    ensures
        heals(item) <==> item.item_type@ == "consumable"@ && exists|i: int|
            0 <= i < item.effects@.len() && (#[trigger] item.effects@[i]).code@ == "heal"@,
        item.item_type@ == "utility"@ ==> !heals(item),
{
    reveal_strlit("consumable");
    reveal_strlit("utility");
    assert("consumable"@.len() == 10);
    assert("utility"@.len() == 7);
}

} // verus!
