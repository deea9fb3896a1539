//! What holds of fights at their worst, held against every way a fight can go.

use vstd::prelude::*;

use super::combat_sim::{
    duel, first_effect, healed, hp_at_start, killing_round, potion_in, potions_at_start, potions_of,
    safe_hp, strikes_first, strikes_taken, survives, used, worst_of_character, worst_of_monster,
    BaseDamage, RestorePotion,
};
use crate::arith::min_int;
use crate::types::{item_named, Character, Item, ItemEffect, Monster};

verus! {

/// Whether a hit of `hit` halves can happen: plain unless every hit is critical, one and a half
/// times as much unless none is.
pub open spec fn can_hit(chance: int, base: int, hit: int) -> bool {
    ||| chance < 100 && hit == 2 * base
    ||| chance > 0 && hit == 3 * base
}

/// The character's worst hit can happen, and no hit that can happen does less. The monster's worst
/// hit can happen, and no hit that can happen does more.
pub proof fn law_worst_hit_is_the_worst_that_can_happen(chance: int, base: int)
    requires
        base >= 0,
    ensures
        can_hit(chance, base, worst_of_character(chance, base)),
        can_hit(chance, base, worst_of_monster(chance, base)),
        forall|hit: int| #[trigger]
            can_hit(chance, base, hit) ==> worst_of_character(chance, base) <= hit
                && hit <= worst_of_monster(chance, base),
        chance < 100 ==> worst_of_character(chance, base) <= 2 * base,
        chance > 0 ==> worst_of_monster(chance, base) >= 3 * base,
{
}

/// How a fight goes: what each side deals in each round, in halves.
pub struct Luck {
    pub dealt: spec_fn(int) -> int,
    pub taken: spec_fn(int) -> int,
}

/// Every hit of a fight can happen.
pub open spec fn can_happen(l: Luck, c: Character, m: Monster, base: BaseDamage) -> bool {
    forall|round: int|
        {
            &&& can_hit(
                c.critical_strike as int,
                base.by_character as int,
                #[trigger] (l.dealt)(round),
            )
            &&& can_hit(
                m.critical_strike as int,
                base.by_monster as int,
                #[trigger] (l.taken)(round),
            )
        }
}

/// Whether the character, with `hp` halves against `foe` halves, fells the monster in one of the
/// rounds from `round` to `last` without falling before.
pub open spec fn is_won(l: Luck, hp: int, foe: int, char_first: bool, round: int, last: int) -> bool
    decreases last + 1 - round,
{
    let foe_left = foe - (l.dealt)(round);
    let hp_left = hp - (l.taken)(round);
    if round > last {
        false
    } else if char_first {
        foe_left <= 0 || (hp_left > 0 && is_won(l, hp_left, foe_left, char_first, round + 1, last))
    } else {
        hp_left > 0 && (foe_left <= 0 || is_won(l, hp_left, foe_left, char_first, round + 1, last))
    }
}

proof fn lemma_won(
    l: Luck,
    hp: int,
    foe: int,
    char_first: bool,
    round: int,
    last: int,
    least: int,
    most: int,
    k: int,
)
    requires
        k >= 1,
        round + k - 1 <= last,
        least > 0,
        most >= 0,
        forall|r: int| #[trigger] (l.dealt)(r) >= least,
        forall|r: int| #[trigger] (l.taken)(r) <= most,
        foe <= k * least,
        hp > if char_first {
            (k - 1) * most
        } else {
            k * most
        },
    ensures
        is_won(l, hp, foe, char_first, round, last),
    decreases k,
{
    let foe_left = foe - (l.dealt)(round);
    let hp_left = hp - (l.taken)(round);
    assert(k * least == (k - 1) * least + least) by (nonlinear_arith);
    assert(k * most == (k - 1) * most + most) by (nonlinear_arith);
    assert((k - 1) * most == (k - 2) * most + most) by (nonlinear_arith);
    if k == 1 {
        assert(0 * least == 0 && 0 * most == 0);
        assert(foe_left <= 0);
    } else {
        assert((k - 1) * most >= 0) by (nonlinear_arith)
            requires
                k >= 2,
                most >= 0,
        ;
        assert((k - 2) * most >= 0) by (nonlinear_arith)
            requires
                k >= 2,
                most >= 0,
        ;
        lemma_won(l, hp_left, foe_left, char_first, round + 1, last, least, most, k - 1);
    }
}

proof fn lemma_lost(
    l: Luck,
    hp: int,
    foe: int,
    char_first: bool,
    round: int,
    last: int,
    each: int,
    blow: int,
    k: int,
)
    requires
        k >= 1,
        char_first ==> k >= 2,
        each > 0,
        forall|r: int| #[trigger] (l.dealt)(r) == each,
        forall|r: int| #[trigger] (l.taken)(r) == blow,
        k > 1 ==> foe > (k - 1) * each,
        hp <= if char_first {
            (k - 1) * blow
        } else {
            k * blow
        },
    ensures
        !is_won(l, hp, foe, char_first, round, last),
    decreases k,
{
    let foe_left = foe - (l.dealt)(round);
    let hp_left = hp - (l.taken)(round);
    assert((k - 1) * each == (k - 2) * each + each) by (nonlinear_arith);
    assert(k * blow == (k - 1) * blow + blow) by (nonlinear_arith);
    assert((k - 1) * blow == (k - 2) * blow + blow) by (nonlinear_arith);
    if k >= 2 {
        assert((k - 2) * each >= 0) by (nonlinear_arith)
            requires
                k >= 2,
                each > 0,
        ;
        if !(char_first && k == 2) {
            lemma_lost(l, hp_left, foe_left, char_first, round + 1, last, each, blow, k - 1);
        } else {
            assert(0 * blow == 0);
        }
    } else {
        assert(0 * blow == 0);
    }
}

proof fn lemma_not_felled(
    l: Luck,
    hp: int,
    foe: int,
    char_first: bool,
    round: int,
    last: int,
    each: int,
)
    requires
        each > 0,
        round <= last + 1,
        forall|r: int| #[trigger] (l.dealt)(r) == each,
        foe > (last + 1 - round) * each,
    ensures
        !is_won(l, hp, foe, char_first, round, last),
    decreases last + 1 - round,
{
    if round <= last {
        assert((last + 1 - round) * each == (last + 1 - (round + 1)) * each + each)
            by (nonlinear_arith);
        assert((last + 1 - (round + 1)) * each >= 0) by (nonlinear_arith)
            requires
                round <= last,
                each > 0,
        ;
        lemma_not_felled(
            l,
            hp - (l.taken)(round),
            foe - (l.dealt)(round),
            char_first,
            round + 1,
            last,
            each,
        );
    }
}

proof fn lemma_killing_round_fells(each: int, foe: int)
    requires
        each > 0,
    ensures
        killing_round(each, foe) >= 1,
        foe <= killing_round(each, foe) * each,
        killing_round(each, foe) > 1 ==> foe > (killing_round(each, foe) - 1) * each,
{
    if foe <= each {
        assert(1 * each == each);
    } else {
        let k = (foe + each - 1) / each;
        assert(k >= 1 && foe <= k * each && foe > (k - 1) * each) by (nonlinear_arith)
            requires
                k == (foe + each - 1) / each,
                each > 0,
                foe > each,
        ;
    }
}

/// The order of blows is possible: the higher initiative strikes first, then the more hit points;
/// on an exact tie either may.
pub open spec fn may_go_first(c: Character, m: Monster, char_first: bool) -> bool {
    let ahead = c.initiative > m.initiative || (c.initiative == m.initiative && c.max_hp > m.hp);
    let behind = c.initiative < m.initiative || (c.initiative == m.initiative && c.max_hp < m.hp);
    (ahead ==> char_first) && (behind ==> !char_first)
}

/// A safe number of hit points is safe: without potions, a character that starts with it or more
/// wins within a hundred rounds, whatever hits either side lands and whoever strikes first on a
/// tie.
pub proof fn law_safe_hp_wins_every_fight(
    c: Character,
    m: Monster,
    base: BaseDamage,
    items: Seq<Item>,
    l: Luck,
    char_first: bool,
    hp: int,
)
    requires
        base.by_character > 0,
        base.by_monster >= 0,
        duel(c, m, base, items).potions.len() == 0,
        safe_hp(duel(c, m, base, items)) matches Some(t) && t <= hp && t < i32::MAX,
        can_happen(l, c, m, base),
        may_go_first(c, m, char_first),
    ensures
        is_won(l, 2 * hp, 2 * m.hp, char_first, 1, 100),
{
    let d = duel(c, m, base, items);
    law_worst_hit_is_the_worst_that_can_happen(c.critical_strike as int, base.by_character as int);
    law_worst_hit_is_the_worst_that_can_happen(m.critical_strike as int, base.by_monster as int);
    let k = killing_round(d.char_dmg, d.monster_hp);
    lemma_killing_round_fells(d.char_dmg, d.monster_hp);
    assert forall|r: int| #[trigger] (l.dealt)(r) >= d.char_dmg by {
        let other = (l.taken)(r);
    }
    assert forall|r: int| #[trigger] (l.taken)(r) <= d.mon_dmg by {
        let other = (l.dealt)(r);
    }
    let damage = strikes_taken(k, d.char_first) * d.mon_dmg;
    assert((k - 1) * d.mon_dmg <= k * d.mon_dmg) by (nonlinear_arith)
        requires
            d.mon_dmg >= 0,
    ;
    assert((k - 1) * d.mon_dmg >= 0) by (nonlinear_arith)
        requires
            d.mon_dmg >= 0,
            k >= 1,
    ;
    assert(2 * hp > damage);
    lemma_won(l, 2 * hp, 2 * m.hp, char_first, 1, 100, d.char_dmg, d.mon_dmg, k);
}

/// A safe number of hit points is no larger than it has to be: with less, by half a point or more
/// than one point below it, some fight is lost. Where there is none although the character can hurt
/// the monster, a fight can last beyond the hundredth round whatever it starts with.
pub proof fn law_less_than_safe_can_lose(
    c: Character,
    m: Monster,
    base: BaseDamage,
    items: Seq<Item>,
    hp: int,
)
    requires
        base.by_character > 0,
        base.by_monster >= 0,
        duel(c, m, base, items).potions.len() == 0,
        1 <= hp,
        safe_hp(duel(c, m, base, items)) matches Some(t) ==> hp < t,
    ensures
        exists|l: Luck, char_first: bool|
            #![trigger is_won(l, 2 * hp - 1, 2 * m.hp, char_first, 1, 100)]
            can_happen(l, c, m, base) && may_go_first(c, m, char_first) && !is_won(
                l,
                2 * hp - 1,
                2 * m.hp,
                char_first,
                1,
                100,
            ),
{
    let d = duel(c, m, base, items);
    law_worst_hit_is_the_worst_that_can_happen(c.critical_strike as int, base.by_character as int);
    law_worst_hit_is_the_worst_that_can_happen(m.critical_strike as int, base.by_monster as int);
    let l = Luck { dealt: |r: int| d.char_dmg, taken: |r: int| d.mon_dmg };
    let k = killing_round(d.char_dmg, d.monster_hp);
    lemma_killing_round_fells(d.char_dmg, d.monster_hp);
    assert(can_happen(l, c, m, base));
    assert(may_go_first(c, m, d.char_first));
    if k > 100 {
        assert((k - 1) * d.char_dmg >= 100 * d.char_dmg) by (nonlinear_arith)
            requires
                k > 100,
                d.char_dmg > 0,
        ;
        lemma_not_felled(l, 2 * hp - 1, 2 * m.hp, d.char_first, 1, 100, d.char_dmg);
    } else {
        let damage = strikes_taken(k, d.char_first) * d.mon_dmg;
        assert(damage >= 0) by (nonlinear_arith)
            requires
                damage == strikes_taken(k, d.char_first) * d.mon_dmg,
                strikes_taken(k, d.char_first) >= 0,
                d.mon_dmg >= 0,
        ;
        assert(2 * hp - 1 <= damage);
        if d.char_first && k == 1 {
            assert(0 * d.mon_dmg == 0);
        }
        lemma_lost(l, 2 * hp - 1, 2 * m.hp, d.char_first, 1, 100, d.char_dmg, d.mon_dmg, k);
    }
    assert(!is_won(l, 2 * hp - 1, 2 * m.hp, d.char_first, 1, 100));
}

/// A character that does no damage has no safe number of hit points.
pub proof fn law_harmless_is_never_safe(
    c: Character,
    m: Monster,
    base: BaseDamage,
    items: Seq<Item>,
)
    requires
        base.by_character <= 0,
    ensures
        safe_hp(duel(c, m, base, items)) is None,
{
}

proof fn lemma_plays_out(
    l: Luck,
    hp: int,
    max_hp: int,
    each: int,
    blow: int,
    foe: int,
    char_first: bool,
    round: int,
    rounds: nat,
)
    requires
        forall|r: int| #[trigger] (l.dealt)(r) == each,
        forall|r: int| #[trigger] (l.taken)(r) == blow,
    ensures
        survives(hp, max_hp, each, blow, foe, char_first, Seq::empty(), rounds) <==> is_won(
            l,
            hp,
            foe,
            char_first,
            round,
            round + rounds - 1,
        ),
    decreases rounds,
{
    let none: Seq<RestorePotion> = Seq::empty();
    assert(used(none) =~= none);
    if rounds > 0 {
        let d = (l.dealt)(round);
        let t = (l.taken)(round);
        lemma_plays_out(
            l,
            hp - blow,
            max_hp,
            each,
            blow,
            foe - each,
            char_first,
            round + 1,
            (rounds - 1) as nat,
        );
        assert(round + 1 + (rounds - 1) - 1 == round + rounds - 1);
    }
}

/// Without potions a fight at its worst is the fight in which every hit of the character does
/// `each` and every hit of the monster `blow`, for a hundred rounds at most.
pub proof fn law_worst_fight_plays_out(
    l: Luck,
    hp: int,
    max_hp: int,
    each: int,
    blow: int,
    foe: int,
    char_first: bool,
)
    requires
        forall|r: int| #[trigger] (l.dealt)(r) == each,
        forall|r: int| #[trigger] (l.taken)(r) == blow,
    ensures
        survives(hp, max_hp, each, blow, foe, char_first, Seq::empty(), 100) <==> is_won(
            l,
            hp,
            foe,
            char_first,
            1,
            100,
        ),
{
    lemma_plays_out(l, hp, max_hp, each, blow, foe, char_first, 1, 100);
}

/// A round with potions: first the potions heal, then the two strike in order. The one that falls
/// strikes no more, and a fight that is not decided goes on with what is left of both and of the
/// potions.
pub proof fn law_round_with_potions(
    hp: int,
    max_hp: int,
    each: int,
    blow: int,
    foe: int,
    potions: Seq<RestorePotion>,
    rounds: nat,
)
    ensures
        ({
            let up = hp_at_start(hp, max_hp, potions);
            let left = potions_at_start(hp, max_hp, potions);
            let first = survives(hp, max_hp, each, blow, foe, true, potions, rounds + 1);
            let second = survives(hp, max_hp, each, blow, foe, false, potions, rounds + 1);
            &&& foe <= each ==> first
            &&& foe > each && up <= blow ==> !first
            &&& foe > each && up > blow ==> (first <==> survives(
                up - blow,
                max_hp,
                each,
                blow,
                foe - each,
                true,
                left,
                rounds,
            ))
            &&& up <= blow ==> !second
            &&& up > blow && foe <= each ==> second
            &&& up > blow && foe > each ==> (second <==> survives(
                up - blow,
                max_hp,
                each,
                blow,
                foe - each,
                false,
                left,
                rounds,
            ))
            &&& !survives(hp, max_hp, each, blow, foe, true, potions, 0)
            &&& !survives(hp, max_hp, each, blow, foe, false, potions, 0)
        }),
{
}

/// What the first `n` potions that have charges restore together, in halves.
pub open spec fn restored(potions: Seq<RestorePotion>, n: int) -> int
    decreases n,
{
    if n <= 0 {
        0
    } else {
        restored(potions, n - 1) + if potions[n - 1].quantity > 0 {
            2 * potions[n - 1].value
        } else {
            0
        }
    }
}

proof fn lemma_healed(hp: int, max_hp: int, potions: Seq<RestorePotion>, n: int)
    requires
        0 <= n <= potions.len(),
        hp <= max_hp,
        forall|i: int| 0 <= i < potions.len() ==> (#[trigger] potions[i]).value >= 0,
    ensures
        healed(hp, max_hp, potions, n) == min_int(hp + restored(potions, n), max_hp),
        restored(potions, n) >= 0,
    decreases n,
{
    if n > 0 {
        lemma_healed(hp, max_hp, potions, n - 1);
        assert(potions[n - 1].value >= 0);
    }
}

/// Potions heal once more than half of the hit points are lost, and not before. Then every one that
/// has charges restores its value, up to the maximum, and loses one charge.
pub proof fn law_potions_heal_below_half(hp: int, max_hp: int, potions: Seq<RestorePotion>)
    requires
        hp <= max_hp,
        forall|i: int| 0 <= i < potions.len() ==> (#[trigger] potions[i]).value >= 0,
    ensures
        2 * hp >= max_hp ==> hp_at_start(hp, max_hp, potions) == hp && potions_at_start(
            hp,
            max_hp,
            potions,
        ) == potions,
        2 * hp < max_hp ==> {
            let after = potions_at_start(hp, max_hp, potions);
            &&& hp_at_start(hp, max_hp, potions) == min_int(
                hp + restored(potions, potions.len() as int),
                max_hp,
            )
            &&& after.len() == potions.len()
            &&& forall|i: int|
                0 <= i < potions.len() ==> {
                    &&& (#[trigger] after[i]).value == potions[i].value
                    &&& after[i].quantity == if potions[i].quantity > 0 {
                        potions[i].quantity - 1
                    } else {
                        potions[i].quantity as int
                    }
                }
        },
{
    lemma_healed(hp, max_hp, potions, potions.len() as int);
}

proof fn lemma_first_effect(effects: Seq<ItemEffect>, code: Seq<char>, from: int)
    requires
        0 <= from,
    ensures
        first_effect(effects, code, from) is None <==> forall|i: int|
            from <= i < effects.len() ==> (#[trigger] effects[i]).code@ != code,
        forall|i: int|
            from <= i < effects.len() && (#[trigger] effects[i]).code@ == code && (forall|j: int|
                from <= j < i ==> (#[trigger] effects[j]).code@ != code) ==> first_effect(
                effects,
                code,
                from,
            ) == Some(effects[i].value as int),
    decreases effects.len() - from,
{
    if from < effects.len() && effects[from].code@ != code {
        lemma_first_effect(effects, code, from + 1);
    }
}

/// A utility slot holds a health potion where it holds any of an item that restores hit points: as
/// many as are in the slot, each worth what the item's first such effect says.
pub proof fn law_potion_is_what_restores(items: Seq<Item>, code: Seq<char>, quantity: i32)
    ensures
        potion_in(items, code, quantity) is Some <==> code.len() > 0 && quantity > 0 && (
        item_named(items, code) matches Some(item) && exists|i: int|
            0 <= i < item.effects@.len() && (#[trigger] item.effects@[i]).code@ == "restore"@),
        potion_in(items, code, quantity) matches Some(p) ==> p.quantity == quantity && forall|i: int|
            0 <= i < item_named(items, code)->0.effects@.len() && (
            #[trigger] item_named(items, code)->0.effects@[i]).code@ == "restore"@ && (forall|j: int|
                0 <= j < i ==> (#[trigger] item_named(items, code)->0.effects@[j]).code@
                    != "restore"@) ==> p.value == item_named(items, code)->0.effects@[i].value,
{
    if let Some(item) = item_named(items, code) {
        lemma_first_effect(item.effects@, "restore"@, 0);
        if first_effect(item.effects@, "restore"@, 0) is Some {
            let i = choose|i: int|
                0 <= i < item.effects@.len() && (#[trigger] item.effects@[i]).code@ == "restore"@;
            assert(item.effects@[i].code@ == "restore"@);
        }
    }
}

/// A character fights with the potions of its first utility slot and then those of its second.
pub proof fn law_both_utility_slots_count(c: Character, items: Seq<Item>)
    ensures
        ({
            let one = potion_in(items, c.utility1_slot@, c.utility1_slot_quantity);
            let two = potion_in(items, c.utility2_slot@, c.utility2_slot_quantity);
            let all = potions_of(c, items);
            &&& one is None && two is None ==> all.len() == 0
            &&& one is Some && two is None ==> all == seq![one->0]
            &&& one is None && two is Some ==> all == seq![two->0]
            &&& one is Some && two is Some ==> all == seq![one->0, two->0]
        }),
{
    let one = potion_in(items, c.utility1_slot@, c.utility1_slot_quantity);
    let two = potion_in(items, c.utility2_slot@, c.utility2_slot_quantity);
    let all = potions_of(c, items);
    if one is Some && two is Some {
        assert(all =~= seq![one->0, two->0]);
    } else if one is Some {
        assert(all =~= seq![one->0]);
    } else if two is Some {
        assert(all =~= seq![two->0]);
    }
}

/// The higher initiative strikes first, then the more hit points; on an exact tie it is open. Seen
/// from the other side the answer is the opposite.
pub proof fn law_who_strikes_first(
    initiative: int,
    hp: int,
    m: Monster,
    other: Monster,
)
    requires
        other.initiative == initiative,
        other.hp == hp,
    ensures
        initiative > m.initiative ==> strikes_first(initiative, hp, m) == Some(true),
        initiative < m.initiative ==> strikes_first(initiative, hp, m) == Some(false),
        initiative == m.initiative && hp > m.hp ==> strikes_first(initiative, hp, m) == Some(true),
        initiative == m.initiative && hp < m.hp ==> strikes_first(initiative, hp, m) == Some(false),
        initiative == m.initiative && hp == m.hp ==> strikes_first(initiative, hp, m) is None,
        strikes_first(initiative, hp, m) == Some(true) <==> strikes_first(
            m.initiative as int,
            m.hp as int,
            other,
        ) == Some(false),
{
}

/// A fight is set up from both sides' own stats: hits at their worst, hit points in halves, and the
/// monster first where neither is ahead.
pub proof fn law_duel_is_set_up_from_both_sides(
    c: Character,
    m: Monster,
    base: BaseDamage,
    items: Seq<Item>,
)
    requires
        base.by_character >= 0,
        base.by_monster >= 0,
    ensures
        ({
            let d = duel(c, m, base, items);
            &&& d.max_hp == c.max_hp
            &&& d.monster_hp == 2 * m.hp
            &&& d.char_first <==> c.initiative > m.initiative || (c.initiative == m.initiative
                && c.max_hp > m.hp)
            &&& c.critical_strike < 100 ==> d.char_dmg == 2 * base.by_character
            &&& c.critical_strike >= 100 ==> d.char_dmg == 3 * base.by_character
            &&& m.critical_strike <= 0 ==> d.mon_dmg == 2 * base.by_monster
            &&& m.critical_strike > 0 ==> d.mon_dmg == 3 * base.by_monster
            &&& d.potions == potions_of(c, items)
        }),
{
}

} // verus!
