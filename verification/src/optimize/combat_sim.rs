//! Fights at their worst: the character never has luck, the monster always does. Damage and hit
//! points are counted in halves, since a critical hit does one and a half times the damage.

use vstd::prelude::*;

use crate::api::GameData;
use crate::arith::{ceil_div, min_int, sat_i32, saturated};
use crate::ranking::{find_last_best, last_best};
use crate::text::same;
use crate::types::{find_item, item_named, Character, Item, ItemEffect, Monster};

verus! {

/// What one hit does before critical hits, in whole points: of the character, and of the monster.
#[derive(Debug, Clone, Copy)]
pub struct BaseDamage {
    pub by_character: i32,
    pub by_monster: i32,
}

/// The character's damage per round at its worst, in halves: no critical hit unless every hit is
/// one.
pub open spec fn worst_of_character(critical_strike: int, base: int) -> int {
    if critical_strike >= 100 {
        3 * base
    } else {
        2 * base
    }
}

/// The monster's damage per round at its worst, in halves: a critical hit unless none ever is.
pub open spec fn worst_of_monster(critical_strike: int, base: int) -> int {
    if critical_strike <= 0 {
        2 * base
    } else {
        3 * base
    }
}

/// The character's damage per round at its worst, in halves.
pub fn char_worst_damage(character: &Character, base: i32) -> (r: i64)
    ensures
        r == worst_of_character(character.critical_strike as int, base as int),
{
    if character.critical_strike >= 100 {
        3 * base as i64
    } else {
        2 * base as i64
    }
}

/// The monster's damage per round at its worst, in halves.
pub fn monster_worst_damage(monster: &Monster, base: i32) -> (r: i64)
    ensures
        r == worst_of_monster(monster.critical_strike as int, base as int),
{
    if monster.critical_strike <= 0 {
        2 * base as i64
    } else {
        3 * base as i64
    }
}

/// A health potion in a utility slot: how many points it restores and how often it still can.
#[derive(Debug, Clone, Copy, PartialEq, Eq, Structural)]
pub struct RestorePotion {
    pub value: i32,
    pub quantity: i32,
}

/// The value of the first effect with the given code, from place `from` on.
pub open spec fn first_effect(effects: Seq<ItemEffect>, code: Seq<char>, from: int) -> Option<int>
    decreases effects.len() - from,
{
    if from < 0 || from >= effects.len() {
        None
    } else if effects[from].code@ == code {
        Some(effects[from].value as int)
    } else {
        first_effect(effects, code, from + 1)
    }
}

/// The health potion that a utility slot holds, if any.
pub open spec fn potion_in(items: Seq<Item>, code: Seq<char>, quantity: i32) -> Option<RestorePotion> {
    if code.len() == 0 || quantity <= 0 {
        None
    } else {
        match item_named(items, code) {
            Some(item) => match first_effect(item.effects@, "restore"@, 0) {
                Some(value) => Some(RestorePotion { value: value as i32, quantity }),
                None => None,
            },
            None => None,
        }
    }
}

/// An optional potion as a list.
pub open spec fn as_list(p: Option<RestorePotion>) -> Seq<RestorePotion> {
    match p {
        Some(potion) => seq![potion],
        None => Seq::empty(),
    }
}

/// The health potions in a character's two utility slots.
pub open spec fn potions_of(character: Character, items: Seq<Item>) -> Seq<RestorePotion> {
    as_list(potion_in(items, character.utility1_slot@, character.utility1_slot_quantity)) + as_list(
        potion_in(items, character.utility2_slot@, character.utility2_slot_quantity),
    )
}

fn slot_potion(items: &[Item], code: &str, quantity: i32) -> (r: Option<RestorePotion>)
    ensures
        r == potion_in(items@, code@, quantity),
{
    if code.is_empty() || quantity <= 0 {
        return None;
    }
    let k: usize = match find_item(items, code) {
        Some(k) => k,
        None => {
            return None;
        },
    };
    let item: &Item = &items[k];
    let mut i: usize = 0;
    while i < item.effects.len()
        invariant
            i <= item.effects@.len(),
            code@.len() > 0,
            quantity > 0,
            item_named(items@, code@) == Some(*item),
            first_effect(item.effects@, "restore"@, 0) == first_effect(
                item.effects@,
                "restore"@,
                i as int,
            ),
        decreases item.effects@.len() - i,
    {
        if same(&item.effects[i].code, "restore") {
            return Some(RestorePotion { value: item.effects[i].value, quantity });
        }
        i += 1;
    }
    None
}

/// Every health potion in a utility slot that has charges left.
pub fn restore_potions(character: &Character, data: &GameData) -> (r: Vec<RestorePotion>)
    ensures
        r@ == potions_of(*character, data.items@),
        r@.len() <= 2,
{
    let mut out: Vec<RestorePotion> = Vec::new();
    if let Some(p) = slot_potion(
        &data.items,
        &character.utility1_slot,
        character.utility1_slot_quantity,
    ) {
        out.push(p);
    }
    if let Some(p) = slot_potion(
        &data.items,
        &character.utility2_slot,
        character.utility2_slot_quantity,
    ) {
        out.push(p);
    }
    assert(out@ =~= potions_of(*character, data.items@));
    out
}

/// Hit points after the first `n` potions have healed, each that has charges once, never above
/// the maximum.
pub open spec fn healed(hp: int, max_hp: int, potions: Seq<RestorePotion>, n: int) -> int
    decreases n,
{
    if n <= 0 {
        hp
    } else {
        let before = healed(hp, max_hp, potions, n - 1);
        if potions[n - 1].quantity > 0 {
            min_int(before + 2 * potions[n - 1].value, max_hp)
        } else {
            before
        }
    }
}

/// The potions after each has healed once.
pub open spec fn used(potions: Seq<RestorePotion>) -> Seq<RestorePotion> {
    potions.map_values(
        |p: RestorePotion|
            if p.quantity > 0 {
                RestorePotion { value: p.value, quantity: (p.quantity - 1) as i32 }
            } else {
                p
            },
    )
}

/// Whether potions heal at the start of a round: more than half of the hit points are lost.
pub open spec fn heals_now(hp: int, max_hp: int) -> bool {
    2 * hp < max_hp
}

/// Hit points after the start of a round.
pub open spec fn hp_at_start(hp: int, max_hp: int, potions: Seq<RestorePotion>) -> int {
    if heals_now(hp, max_hp) {
        healed(hp, max_hp, potions, potions.len() as int)
    } else {
        hp
    }
}

/// Potions after the start of a round.
pub open spec fn potions_at_start(hp: int, max_hp: int, potions: Seq<RestorePotion>) -> Seq<
    RestorePotion,
> {
    if heals_now(hp, max_hp) {
        used(potions)
    } else {
        potions
    }
}

proof fn lemma_healed_range(hp: int, max_hp: int, potions: Seq<RestorePotion>, n: int)
    requires
        0 <= n <= potions.len(),
    ensures
        healed(hp, max_hp, potions, n) >= min_int(hp, max_hp) - 0x1_0000_0000 * n,
        healed(hp, max_hp, potions, n) <= hp || healed(hp, max_hp, potions, n) <= max_hp
            || healed(hp, max_hp, potions, n) == hp,
    decreases n,
{
    if n > 0 {
        lemma_healed_range(hp, max_hp, potions, n - 1);
    }
}

/// Start-of-round healing, in halves of a point: once more than half of `max_hp` is lost, every
/// potion with charges restores its value, capped at `max_hp`, and loses a charge.
pub fn apply_restore_potions(hp: i64, max_hp: i64, potions: &mut Vec<RestorePotion>) -> (r: i64)
    requires
        -0x1000_0000_0000 <= hp <= 0x1000_0000_0000,
        -0x1000_0000_0000 <= max_hp <= 0x1000_0000_0000,
        old(potions)@.len() <= 2,
    ensures
        r == hp_at_start(hp as int, max_hp as int, old(potions)@),
        final(potions)@ == potions_at_start(hp as int, max_hp as int, old(potions)@),
        r >= min_int(hp as int, max_hp as int) - 0x2_0000_0000,
        r <= hp || r <= max_hp,
{
    if 2 * hp >= max_hp {
        return hp;
    }
    let ghost before = potions@;
    let mut now: i64 = hp;
    let mut i: usize = 0;
    while i < potions.len()
        invariant
            i <= potions@.len(),
            potions@.len() == before.len(),
            before.len() <= 2,
            -0x1000_0000_0000 <= hp <= 0x1000_0000_0000,
            -0x1000_0000_0000 <= max_hp <= 0x1000_0000_0000,
            now == healed(hp as int, max_hp as int, before, i as int),
            forall|j: int| 0 <= j < i ==> #[trigger] potions@[j] == used(before)[j],
            forall|j: int| i <= j < potions@.len() ==> #[trigger] potions@[j] == before[j],
        decreases potions@.len() - i,
    {
        proof {
            lemma_healed_range(hp as int, max_hp as int, before, i as int);
        }
        let p: RestorePotion = potions[i];
        assert(p == before[i as int]);
        if p.quantity > 0 {
            let more: i64 = now + 2 * p.value as i64;
            now = if more <= max_hp {
                more
            } else {
                max_hp
            };
            potions.set(i, RestorePotion { value: p.value, quantity: p.quantity - 1 });
        }
        assert(potions@[i as int] == used(before)[i as int]);
        i += 1;
    }
    proof {
        lemma_healed_range(hp as int, max_hp as int, before, before.len() as int);
        assert(potions@ =~= used(before));
    }
    now
}

/// Who strikes first: the higher initiative, then the more hit points; none on an exact tie.
pub open spec fn strikes_first(initiative: int, hp: int, monster: Monster) -> Option<bool> {
    if initiative != monster.initiative {
        Some(initiative > monster.initiative)
    } else if hp != monster.hp {
        Some(hp > monster.hp)
    } else {
        None
    }
}

/// Whether the character strikes first; none on an exact tie of both initiative and hit points.
pub fn turn_order(character_initiative: i32, character_hp: i32, monster: &Monster) -> (r: Option<
    bool,
>)
    ensures
        r == strikes_first(character_initiative as int, character_hp as int, *monster),
{
    if character_initiative > monster.initiative {
        Some(true)
    } else if character_initiative < monster.initiative {
        Some(false)
    } else if character_hp > monster.hp {
        Some(true)
    } else if character_hp < monster.hp {
        Some(false)
    } else {
        None
    }
}

/// The round in which the monster falls.
pub open spec fn killing_round(char_dmg: int, monster_hp: int) -> int {
    if monster_hp <= char_dmg {
        1
    } else {
        ceil_div(monster_hp, char_dmg)
    }
}

/// How often the monster strikes in a fight of `rounds` rounds.
pub open spec fn strikes_taken(rounds: int, char_first: bool) -> int {
    if char_first {
        rounds - 1
    } else {
        rounds
    }
}

/// The whole hit points that outlast `damage` halves.
pub open spec fn hp_above(damage: int) -> int {
    (damage + 1) / 2 + 1
}

/// The hit points needed without potions: just more than what the monster deals until it falls.
/// None where that takes more than a hundred rounds.
pub open spec fn threshold_without_potions(
    char_dmg: int,
    mon_dmg: int,
    monster_hp: int,
    char_first: bool,
) -> Option<int> {
    let rounds = killing_round(char_dmg, monster_hp);
    if rounds > 100 {
        None
    } else {
        Some(hp_above(strikes_taken(rounds, char_first) * mon_dmg))
    }
}

proof fn lemma_killing_round(char_dmg: int, monster_hp: int, r: int)
    requires
        char_dmg > 0,
        r >= 1,
        monster_hp - r * char_dmg <= 0,
        r > 1 ==> monster_hp - (r - 1) * char_dmg > 0,
    ensures
        killing_round(char_dmg, monster_hp) == r,
{
    if r == 1 {
    } else {
        assert(char_dmg * 1 <= (r - 1) * char_dmg) by (nonlinear_arith)
            requires
                r >= 2,
                char_dmg > 0,
        ;
        assert((monster_hp + char_dmg - 1) / char_dmg == r) by (nonlinear_arith)
            requires
                char_dmg > 0,
                monster_hp - r * char_dmg <= 0,
                monster_hp - (r - 1) * char_dmg > 0,
        ;
    }
}

proof fn lemma_not_killed(char_dmg: int, monster_hp: int, n: int)
    requires
        char_dmg > 0,
        n >= 1,
        monster_hp - n * char_dmg > 0,
    ensures
        killing_round(char_dmg, monster_hp) > n,
{
    assert(char_dmg <= n * char_dmg) by (nonlinear_arith)
        requires
            n >= 1,
            char_dmg > 0,
    ;
    assert((monster_hp + char_dmg - 1) / char_dmg > n) by (nonlinear_arith)
        requires
            char_dmg > 0,
            monster_hp - n * char_dmg > 0,
    ;
}

/// The hit points needed to guarantee a win without potions, at the edge of the 32-bit range where
/// they leave it. None where the fight takes more than a hundred rounds.
pub fn minimum_hp_threshold_no_potions(
    char_dmg: i64,
    mon_dmg: i64,
    monster_hp: i64,
    char_first: bool,
) -> (r: Option<i32>)
    requires
        0 < char_dmg <= 0x2_0000_0000,
        -0x2_0000_0000 <= mon_dmg <= 0x2_0000_0000,
        -0x2_0000_0000 <= monster_hp <= 0x2_0000_0000,
    ensures
        match threshold_without_potions(
            char_dmg as int,
            mon_dmg as int,
            monster_hp as int,
            char_first,
        ) {
            Some(t) => r matches Some(h) && h == sat_i32(t),
            None => r is None,
        },
{
    let mut hp: i64 = monster_hp;
    let mut damage_taken: i64 = 0;
    let mut round: i64 = 1;
    while round <= 100
        invariant
            1 <= round <= 101,
            0 < char_dmg <= 0x2_0000_0000,
            -0x2_0000_0000 <= mon_dmg <= 0x2_0000_0000,
            -0x2_0000_0000 <= monster_hp <= 0x2_0000_0000,
            hp == monster_hp - (round - 1) * char_dmg,
            round > 1 ==> hp > 0,
            damage_taken == (round - 1) * mon_dmg,
            -0x2_0000_0000 * (round - 1) <= damage_taken <= 0x2_0000_0000 * (round - 1),
            hp >= -0x2_0000_0000 - 0x2_0000_0000 * (round - 1),
            hp <= 0x2_0000_0000,
        decreases 101 - round,
    {
        proof {
            assert(round * char_dmg == (round - 1) * char_dmg + char_dmg) by (nonlinear_arith);
            assert(round * mon_dmg == (round - 1) * mon_dmg + mon_dmg) by (nonlinear_arith);
        }
        hp = hp - char_dmg;
        if hp <= 0 {
            proof {
                lemma_killing_round(char_dmg as int, monster_hp as int, round as int);
            }
            let total: i64 = if char_first {
                damage_taken
            } else {
                damage_taken + mon_dmg
            };
            assert(total == strikes_taken(round as int, char_first) * mon_dmg);
            // Rounds up also where the total is below zero.
            let half: i64 = if total >= 0 {
                (total + 1) / 2
            } else {
                total / 2
            };
            assert(half == (total + 1) / 2int);
            return Some(saturated(half + 1));
        }
        damage_taken = damage_taken + mon_dmg;
        round += 1;
    }
    proof {
        lemma_not_killed(char_dmg as int, monster_hp as int, 100);
    }
    None
}

/// Whether the character, at `hp` of `max_hp`, fells the monster within `rounds` rounds without
/// falling first.
pub open spec fn survives(
    hp: int,
    max_hp: int,
    char_dmg: int,
    mon_dmg: int,
    monster_hp: int,
    char_first: bool,
    potions: Seq<RestorePotion>,
    rounds: nat,
) -> bool
    decreases rounds,
{
    if rounds == 0 {
        false
    } else {
        let start = hp_at_start(hp, max_hp, potions);
        let left = potions_at_start(hp, max_hp, potions);
        let felled = monster_hp - char_dmg <= 0;
        let fallen = start - mon_dmg <= 0;
        if char_first && felled {
            true
        } else if fallen {
            false
        } else if felled {
            true
        } else {
            survives(
                start - mon_dmg,
                max_hp,
                char_dmg,
                mon_dmg,
                monster_hp - char_dmg,
                char_first,
                left,
                (rounds - 1) as nat,
            )
        }
    }
}

/// Whether the character wins a fight that it starts with `start_hp` whole hit points, at worst.
pub fn survives_from(
    start_hp: i32,
    max_hp: i32,
    char_dmg: i64,
    mon_dmg: i64,
    monster_hp: i64,
    char_first: bool,
    potions: &Vec<RestorePotion>,
) -> (r: bool)
    requires
        -0x2_0000_0000 <= char_dmg <= 0x2_0000_0000,
        -0x2_0000_0000 <= mon_dmg <= 0x2_0000_0000,
        -0x2_0000_0000 <= monster_hp <= 0x2_0000_0000,
        potions@.len() <= 2,
    ensures
        r == survives(
            2 * start_hp,
            2 * max_hp,
            char_dmg as int,
            mon_dmg as int,
            monster_hp as int,
            char_first,
            potions@,
            100,
        ),
{
    let mut hp: i64 = 2 * start_hp as i64;
    let full: i64 = 2 * max_hp as i64;
    let mut foe: i64 = monster_hp;
    let mut left: Vec<RestorePotion> = Vec::new();
    let mut i: usize = 0;
    while i < potions.len()
        invariant
            i <= potions@.len(),
            left@ == potions@.take(i as int),
        decreases potions@.len() - i,
    {
        left.push(potions[i]);
        i += 1;
        assert(potions@.take(i as int) =~= potions@.take(i - 1).push(potions@[i - 1]));
    }
    assert(potions@.take(i as int) =~= potions@);
    let ghost outcome = survives(
        hp as int,
        full as int,
        char_dmg as int,
        mon_dmg as int,
        monster_hp as int,
        char_first,
        potions@,
        100,
    );
    let mut round: i64 = 0;
    while round < 100
        invariant
            0 <= round <= 100,
            -0x2_0000_0000 <= char_dmg <= 0x2_0000_0000,
            -0x2_0000_0000 <= mon_dmg <= 0x2_0000_0000,
            -0x1_0000_0000 <= full <= 0x1_0000_0000,
            left@.len() <= 2,
            outcome == survives(
                2 * start_hp,
                2 * max_hp,
                char_dmg as int,
                mon_dmg as int,
                monster_hp as int,
                char_first,
                potions@,
                100,
            ),
            -0x4_0000_0000 - 0x8_0000_0000 * round <= hp <= 0x4_0000_0000 + 0x8_0000_0000 * round,
            -0x2_0000_0000 - 0x2_0000_0000 * round <= foe <= 0x2_0000_0000 + 0x2_0000_0000 * round,
            outcome == survives(
                hp as int,
                full as int,
                char_dmg as int,
                mon_dmg as int,
                foe as int,
                char_first,
                left@,
                (100 - round) as nat,
            ),
        decreases 100 - round,
    {
        hp = apply_restore_potions(hp, full, &mut left);
        if char_first {
            foe = foe - char_dmg;
            if foe <= 0 {
                return true;
            }
            hp = hp - mon_dmg;
            if hp <= 0 {
                return false;
            }
        } else {
            hp = hp - mon_dmg;
            if hp <= 0 {
                return false;
            }
            foe = foe - char_dmg;
            if foe <= 0 {
                return true;
            }
        }
        round += 1;
    }
    false
}

/// A fight at its worst, in halves.
pub struct Duel {
    pub char_dmg: int,
    pub mon_dmg: int,
    pub monster_hp: int,
    pub char_first: bool,
    pub max_hp: int,
    pub potions: Seq<RestorePotion>,
}

/// Whether the character wins when it starts at `hp` whole hit points.
pub open spec fn wins_from(d: Duel, hp: int) -> bool {
    survives(
        2 * hp,
        2 * d.max_hp,
        d.char_dmg,
        d.mon_dmg,
        d.monster_hp,
        d.char_first,
        d.potions,
        100,
    )
}

/// The first starting point from `hp` on that wins, or full hit points where none before them does.
pub open spec fn first_win(d: Duel, hp: int) -> int
    decreases d.max_hp - hp,
{
    if hp >= d.max_hp || wins_from(d, hp) {
        hp
    } else {
        first_win(d, hp + 1)
    }
}

/// The fight of `character` against `monster` at its worst.
pub open spec fn duel(
    character: Character,
    monster: Monster,
    base: BaseDamage,
    items: Seq<Item>,
) -> Duel {
    Duel {
        char_dmg: worst_of_character(character.critical_strike as int, base.by_character as int),
        mon_dmg: worst_of_monster(monster.critical_strike as int, base.by_monster as int),
        monster_hp: 2 * monster.hp,
        char_first: strikes_first(
            character.initiative as int,
            character.max_hp as int,
            monster,
        ) == Some(true),
        max_hp: character.max_hp as int,
        potions: potions_of(character, items),
    }
}

/// The hit points that a win takes at worst. Without potions a formula gives them, and they may be
/// more than the maximum. With potions they are the least, up to the maximum, from which the fight
/// is won, and never less than 1; nothing where it is not won from the maximum.
pub open spec fn safe_hp(d: Duel) -> Option<int> {
    if d.char_dmg <= 0 {
        None
    } else if d.potions.len() == 0 {
        match threshold_without_potions(d.char_dmg, d.mon_dmg, d.monster_hp, d.char_first) {
            Some(t) => Some(sat_i32(t)),
            None => None,
        }
    } else if wins_from(d, d.max_hp) {
        Some(first_win(d, 1))
    } else {
        None
    }
}

/// The least hit points with which `character` beats `monster`, at worst and with the health
/// potions it carries. None where it cannot hurt the monster, where the fight would run past its
/// last round, or where with potions it would not win even at full hit points. Without potions this
/// is a closed formula. With potions whether one heals depends on the hit points at that moment, so
/// the fight is played out from each number of hit points, from 1 up, until one wins. More hit
/// points at the start can put off a heal until it comes too late, so a number above the least may
/// lose again; the answer is then never less than 1, even where the maximum is. `base` gives what one
/// hit of each does.
pub fn minimum_hp_threshold(
    character: &Character,
    monster: &Monster,
    data: &GameData,
    base: BaseDamage,
) -> (r: Option<i32>)
    ensures
        match safe_hp(duel(*character, *monster, base, data.items@)) {
            Some(t) => r matches Some(h) && h == t,
            None => r is None,
        },
        ({
            let d = duel(*character, *monster, base, data.items@);
            d.char_dmg > 0 && d.potions.len() > 0 ==> {
                &&& r is Some <==> wins_from(d, d.max_hp)
                &&& r matches Some(h) ==> if d.max_hp >= 1 {
                    is_least_win(d, h as int)
                } else {
                    h == 1
                }
            }
        }),
{
    let char_dmg: i64 = char_worst_damage(character, base.by_character);
    let mon_dmg: i64 = monster_worst_damage(monster, base.by_monster);
    if char_dmg <= 0 {
        return None;
    }
    let char_first: bool = match turn_order(character.initiative, character.max_hp, monster) {
        Some(first) => first,
        None => false,
    };
    let potions: Vec<RestorePotion> = restore_potions(character, data);
    let foe: i64 = 2 * monster.hp as i64;
    if potions.len() == 0 {
        return minimum_hp_threshold_no_potions(char_dmg, mon_dmg, foe, char_first);
    }
    let max_hp: i32 = character.max_hp;
    if !survives_from(max_hp, max_hp, char_dmg, mon_dmg, foe, char_first, &potions) {
        return None;
    }
    let ghost d = duel(*character, *monster, base, data.items@);
    let mut hp: i32 = 1;
    while hp < max_hp && !survives_from(
        hp,
        max_hp,
        char_dmg,
        mon_dmg,
        foe,
        char_first,
        &potions,
    )
        invariant
            1 <= hp,
            0 < char_dmg <= 0x2_0000_0000,
            -0x2_0000_0000 <= mon_dmg <= 0x2_0000_0000,
            -0x2_0000_0000 <= foe <= 0x2_0000_0000,
            potions@.len() <= 2,
            d.char_dmg == char_dmg,
            d.mon_dmg == mon_dmg,
            d.monster_hp == foe,
            d.char_first == char_first,
            d.max_hp == max_hp,
            d.potions == potions@,
            first_win(d, 1) == first_win(d, hp as int),
        decreases max_hp - hp,
    {
        hp += 1;
    }
    assert(first_win(d, hp as int) == hp);
    proof {
        law_threshold_is_least(d);
    }
    Some(hp)
}

/// Whether `hp` is the least number of hit points, from 1 to the maximum, from which the fight is
/// won.
pub open spec fn is_least_win(d: Duel, hp: int) -> bool {
    &&& 1 <= hp <= d.max_hp
    &&& wins_from(d, hp)
    &&& forall|k: int| 1 <= k < hp ==> !#[trigger] wins_from(d, k)
}

proof fn lemma_first_win(d: Duel, hp: int)
    requires
        1 <= hp <= d.max_hp,
        wins_from(d, d.max_hp),
    ensures
        hp <= first_win(d, hp) <= d.max_hp,
        wins_from(d, first_win(d, hp)),
        forall|k: int| hp <= k < first_win(d, hp) ==> !#[trigger] wins_from(d, k),
    decreases d.max_hp - hp,
{
    if hp < d.max_hp && !wins_from(d, hp) {
        lemma_first_win(d, hp + 1);
    }
}

/// With potions, what is found is the least number of hit points that wins: the fight is won from
/// there, and lost from every number below. It is found wherever full hit points win; where those
/// are less than 1, it is 1, which is out of reach.
pub proof fn law_threshold_is_least(d: Duel)
    requires
        d.char_dmg > 0,
        d.potions.len() > 0,
    ensures
        safe_hp(d) is Some <==> wins_from(d, d.max_hp),
        safe_hp(d) matches Some(h) ==> if d.max_hp >= 1 {
            is_least_win(d, h)
        } else {
            h == 1
        },
{
    if d.max_hp >= 1 && wins_from(d, d.max_hp) {
        lemma_first_win(d, 1);
    }
}

proof fn lemma_healing_helps(hp: int, max_hp: int, potions: Seq<RestorePotion>, n: int)
    requires
        0 <= n <= potions.len(),
        hp <= max_hp,
        forall|i: int| 0 <= i < potions.len() ==> (#[trigger] potions[i]).value >= 0,
    ensures
        hp <= healed(hp, max_hp, potions, n) <= max_hp,
    decreases n,
{
    if n > 0 {
        lemma_healing_helps(hp, max_hp, potions, n - 1);
    }
}

proof fn lemma_survives_with_more(
    hp: int,
    more: int,
    max_hp: int,
    char_dmg: int,
    mon_dmg: int,
    monster_hp: int,
    char_first: bool,
    potions: Seq<RestorePotion>,
    rounds: nat,
)
    requires
        hp <= more <= max_hp,
        mon_dmg >= 0,
        forall|i: int| 0 <= i < potions.len() ==> (#[trigger] potions[i]).value >= 0,
        survives(hp, max_hp, char_dmg, mon_dmg, monster_hp, char_first, Seq::empty(), rounds),
    ensures
        survives(more, max_hp, char_dmg, mon_dmg, monster_hp, char_first, potions, rounds),
    decreases rounds,
{
    let none: Seq<RestorePotion> = Seq::empty();
    assert(used(none) =~= none);
    lemma_healing_helps(more, max_hp, potions, potions.len() as int);
    let start = hp_at_start(more, max_hp, potions);
    let left = potions_at_start(more, max_hp, potions);
    if monster_hp - char_dmg > 0 {
        lemma_survives_with_more(
            hp - mon_dmg,
            start - mon_dmg,
            max_hp,
            char_dmg,
            mon_dmg,
            monster_hp - char_dmg,
            char_first,
            left,
            (rounds - 1) as nat,
        );
    }
}

/// Hit points that win without any potion guarantee a win with potions, and so does every greater
/// number of them up to the maximum.
pub proof fn law_potions_never_cost_a_sure_win(d: Duel, hp: int, more: int)
    requires
        hp <= more <= d.max_hp,
        d.mon_dmg >= 0,
        forall|i: int| 0 <= i < d.potions.len() ==> (#[trigger] d.potions[i]).value >= 0,
        wins_from(Duel { potions: Seq::empty(), ..d }, hp),
    ensures
        wins_from(d, more),
{
    lemma_survives_with_more(
        2 * hp,
        2 * more,
        2 * d.max_hp,
        d.char_dmg,
        d.mon_dmg,
        d.monster_hp,
        d.char_first,
        d.potions,
        100,
    );
}

/// With potions, the threshold is within reach at full hit points, so that a monster is sure to be
/// beaten exactly where a fight begun at full hit points is won.
pub proof fn law_beatable_at_full_hp(
    character: Character,
    monster: Monster,
    base: BaseDamage,
    items: Seq<Item>,
)
    requires
        duel(character, monster, base, items).potions.len() > 0,
    ensures
        ({
            let d = duel(character, monster, base, items);
            is_beatable(character, monster, base, items) <==> d.char_dmg > 0 && d.max_hp >= 1
                && wins_from(d, d.max_hp)
        }),
{
    let d = duel(character, monster, base, items);
    if d.char_dmg > 0 {
        law_threshold_is_least(d);
    }
}

proof fn lemma_survives_without_potions(
    hp: int,
    max_hp: int,
    char_dmg: int,
    mon_dmg: int,
    monster_hp: int,
    char_first: bool,
    rounds: nat,
)
    requires
        char_dmg > 0,
        mon_dmg >= 0,
        hp > 0,
    ensures
        survives(
            hp,
            max_hp,
            char_dmg,
            mon_dmg,
            monster_hp,
            char_first,
            Seq::empty(),
            rounds,
        ) <==> killing_round(char_dmg, monster_hp) <= rounds && hp > strikes_taken(
            killing_round(char_dmg, monster_hp),
            char_first,
        ) * mon_dmg,
    decreases rounds,
{
    let none: Seq<RestorePotion> = Seq::empty();
    assert(used(none) =~= none);
    let k = killing_round(char_dmg, monster_hp);
    if monster_hp > char_dmg {
        lemma_not_killed(char_dmg, monster_hp, 1);
    }
    assert(k >= 1);
    if rounds > 0 {
        if monster_hp - char_dmg <= 0 {
            assert(0 * mon_dmg == 0 && 1 * mon_dmg == mon_dmg) by (nonlinear_arith);
        } else {
            let rest = killing_round(char_dmg, monster_hp - char_dmg);
            lemma_one_round_less(char_dmg, monster_hp);
            assert(rest == k - 1);
            let s = strikes_taken(rest, char_first);
            assert(strikes_taken(k, char_first) * mon_dmg == s * mon_dmg + mon_dmg)
                by (nonlinear_arith)
                requires
                    strikes_taken(k, char_first) == s + 1,
            ;
            assert(s * mon_dmg >= 0) by (nonlinear_arith)
                requires
                    s >= 0,
                    mon_dmg >= 0,
            ;
            if hp - mon_dmg > 0 {
                lemma_survives_without_potions(
                    hp - mon_dmg,
                    max_hp,
                    char_dmg,
                    mon_dmg,
                    monster_hp - char_dmg,
                    char_first,
                    (rounds - 1) as nat,
                );
            }
        }
    }
}

proof fn lemma_one_round_less(char_dmg: int, monster_hp: int)
    requires
        char_dmg > 0,
        monster_hp > char_dmg,
    ensures
        killing_round(char_dmg, monster_hp - char_dmg) == killing_round(char_dmg, monster_hp) - 1,
        killing_round(char_dmg, monster_hp - char_dmg) >= 1,
{
    let rest = monster_hp - char_dmg;
    assert((monster_hp + char_dmg - 1) / char_dmg == (rest + char_dmg - 1) / char_dmg + 1)
        by (nonlinear_arith)
        requires
            char_dmg > 0,
            monster_hp == rest + char_dmg,
    ;
    if rest <= char_dmg {
        assert((rest + char_dmg - 1) / char_dmg == 1) by (nonlinear_arith)
            requires
                char_dmg > 0,
                0 < rest <= char_dmg,
        ;
    } else {
        lemma_not_killed(char_dmg, rest, 1);
    }
}

/// Without potions the closed formula agrees with the fight played out round by round: from its
/// value on every number of hit points wins, and no number below it does, save that the value is
/// one too high where the damage taken ends on half a point.
pub proof fn law_formula_matches_the_fight(d: Duel, hp: int)
    requires
        d.char_dmg > 0,
        d.mon_dmg >= 0,
        d.potions.len() == 0,
        hp >= 1,
    ensures
        match threshold_without_potions(d.char_dmg, d.mon_dmg, d.monster_hp, d.char_first) {
            Some(t) => {
                let damage = strikes_taken(
                    killing_round(d.char_dmg, d.monster_hp),
                    d.char_first,
                ) * d.mon_dmg;
                &&& wins_from(d, hp) <==> hp >= t - damage % 2
                &&& damage % 2 == 0 ==> (wins_from(d, hp) <==> hp >= t)
            },
            None => !wins_from(d, hp),
        },
{
    assert(d.potions =~= Seq::empty());
    lemma_survives_without_potions(
        2 * hp,
        2 * d.max_hp,
        d.char_dmg,
        d.mon_dmg,
        d.monster_hp,
        d.char_first,
        100,
    );
}

/// Whether a win against the monster is guaranteed at full hit points.
pub open spec fn is_beatable(
    character: Character,
    monster: Monster,
    base: BaseDamage,
    items: Seq<Item>,
) -> bool {
    safe_hp(duel(character, monster, base, items)) matches Some(t) && t <= character.max_hp
}

/// What each monster is worth fighting; nothing where a win is not guaranteed.
pub open spec fn worth_fighting(
    character: Character,
    data: GameData,
    damage: Seq<BaseDamage>,
    xph: Seq<i64>,
) -> Seq<Option<i64>> {
    Seq::new(
        data.monsters@.len(),
        |i: int|
            if is_beatable(character, data.monsters@[i], damage[i], data.items@) {
                Some(xph[i])
            } else {
                None
            },
    )
}

/// What each monster is worth fighting; nothing where a win is not guaranteed.
pub fn fight_values(
    character: &Character,
    data: &GameData,
    damage: &[BaseDamage],
    xph: &[i64],
) -> (r: Vec<Option<i64>>)
    requires
        damage@.len() == data.monsters@.len(),
        xph@.len() == data.monsters@.len(),
    ensures
        r@ == worth_fighting(*character, *data, damage@, xph@),
{
    let ghost target = worth_fighting(*character, *data, damage@, xph@);
    let mut out: Vec<Option<i64>> = Vec::new();
    let mut i: usize = 0;
    while i < data.monsters.len()
        invariant
            i <= data.monsters@.len(),
            damage@.len() == data.monsters@.len(),
            xph@.len() == data.monsters@.len(),
            target == worth_fighting(*character, *data, damage@, xph@),
            out@ == target.take(i as int),
        decreases data.monsters@.len() - i,
    {
        let value: Option<i64> = match minimum_hp_threshold(
            character,
            &data.monsters[i],
            data,
            damage[i],
        ) {
            Some(t) => if t <= character.max_hp {
                Some(xph[i])
            } else {
                None
            },
            None => None,
        };
        out.push(value);
        i += 1;
        assert(target.take(i as int) =~= target.take(i - 1).push(target[i - 1]));
    }
    assert(target.take(i as int) =~= target);
    out
}

/// The monster most worth fighting among those `character` is sure to beat, by its place; the last
/// one where several are worth the same. `damage` gives what one hit of each side does and `xph`
/// how the monsters rank by XP per hour.
pub fn best_fightable(
    character: &Character,
    data: &GameData,
    damage: &[BaseDamage],
    xph: &[i64],
) -> (r: Option<usize>)
    requires
        damage@.len() == data.monsters@.len(),
        xph@.len() == data.monsters@.len(),
    ensures
        ({
            let n = data.monsters@.len() as int;
            match last_best(worth_fighting(*character, *data, damage@, xph@), n) {
                Some(b) => r matches Some(i) && i == b && i < n,
                None => r is None,
            }
        }),
{
    let values: Vec<Option<i64>> = fight_values(character, data, damage, xph);
    find_last_best(&values)
}

/// How the best fight ranks by XP per hour; 0 where no win is guaranteed.
pub fn best_achievable_xph(
    character: &Character,
    data: &GameData,
    damage: &[BaseDamage],
    xph: &[i64],
) -> (r: i64)
    requires
        damage@.len() == data.monsters@.len(),
        xph@.len() == data.monsters@.len(),
    ensures
        r == match last_best(
            worth_fighting(*character, *data, damage@, xph@),
            data.monsters@.len() as int,
        ) {
            Some(b) => xph@[b],
            None => 0,
        },
{
    match best_fightable(character, data, damage, xph) {
        Some(i) => xph[i],
        None => 0,
    }
}

} // verus!
