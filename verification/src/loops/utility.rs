//! Utility slots: which potions to carry and how to stock them up.

use vstd::prelude::*;

use super::bank_ops::{
    carried, deposit_views, total_carried, used_count, used_slots, INVENTORY_SLOTS,
};
use crate::api::GameData;
use crate::arith::{max_int, min_i32, min_int, sat_i32, saturated};
use crate::optimize::eligibility::{has_effect, is_eligible, meets_conditions};
use crate::ranking::{
    by_key, is_ranking, law_ranking, lemma_keys_are_ordered, places, rank_by_key, ranked,
};
use crate::text::same;
use crate::types::{
    bank_qty, find_item, item_named, quantity_in, BankItem, Character, DepositItem, EquipBody, Item,
};

verus! {

/// A full stack in a utility slot.
pub const MAX_UTILITY_STACK: i32 = 100;

/// Whether an item restores its bearer's own hit points in a fight.
pub open spec fn restores(item: Item) -> bool {
    has_effect(item.effects@, "restore"@)
}

/// Whether an item is a health potion that heals its bearer, as opposed to one that heals others
/// or does something else.
pub fn is_health_potion(item: &Item) -> (r: bool)
    ensures
        r == restores(*item),
{
    let mut i: usize = 0;
    while i < item.effects.len()
        invariant
            i <= item.effects@.len(),
            forall|j: int| 0 <= j < i ==> (#[trigger] item.effects@[j]).code@ != "restore"@,
        decreases item.effects@.len() - i,
    {
        if same(&item.effects[i].code, "restore") {
            return true;
        }
        i += 1;
    }
    false
}

/// Whether a utility slot is empty or has run dry.
pub fn slot_is_empty(code: &str, quantity: i32) -> (r: bool)
    ensures
        r == (code@.len() == 0 || quantity <= 0),
{
    code.is_empty() || quantity <= 0
}

/// An item for a utility slot and how many of it.
pub type UtilityPick = (String, i32);

/// Picks, as mathematical values.
pub open spec fn pick_views(picks: Seq<UtilityPick>) -> Seq<(Seq<char>, int)> {
    picks.map_values(|p: UtilityPick| (p.0@, p.1 as int))
}

/// An optional pick, as a mathematical value.
pub open spec fn pick_view(pick: Option<UtilityPick>) -> Option<(Seq<char>, int)> {
    match pick {
        Some(p) => Some((p.0@, p.1 as int)),
        None => None,
    }
}

/// What a utility slot that is not to be touched holds.
pub open spec fn kept_code(code: Seq<char>, free: bool) -> Seq<Seq<char>> {
    if !free && code.len() > 0 {
        seq![code]
    } else {
        Seq::empty()
    }
}

/// What the utility slots that are not to be touched hold.
pub open spec fn locked(who: Character, slot1_free: bool, slot2_free: bool) -> Seq<Seq<char>> {
    kept_code(who.utility1_slot@, slot1_free) + kept_code(who.utility2_slot@, slot2_free)
}

/// Whether one of the codes is a health potion.
pub open spec fn any_restores(codes: Seq<Seq<char>>, items: Seq<Item>) -> bool {
    exists|i: int|
        0 <= i < codes.len() && (item_named(items, #[trigger] codes[i]) matches Some(item)
            && restores(item))
}

/// Whether an item can go into a free utility slot.
pub open spec fn is_option(
    item: Item,
    who: Character,
    bank: Seq<BankItem>,
    kept: Seq<Seq<char>>,
) -> bool {
    &&& item.item_type@ == "utility"@
    &&& is_eligible(who, item)
    &&& bank_qty(bank, item.code@) > 0
    &&& !kept.contains(item.code@)
}

/// Which of the first `n` items can go into a free utility slot.
pub open spec fn options(
    items: Seq<Item>,
    who: Character,
    bank: Seq<BankItem>,
    kept: Seq<Seq<char>>,
    n: int,
) -> Seq<int>
    decreases n,
{
    if n <= 0 {
        Seq::empty()
    } else if is_option(items[n - 1], who, bank, kept) {
        options(items, who, bank, kept, n - 1).push(n - 1)
    } else {
        options(items, who, bank, kept, n - 1)
    }
}

/// The levels of the picked items.
pub open spec fn level_keys(picks: Seq<int>, items: Seq<Item>) -> Seq<i64> {
    picks.map_values(|i: int| items[i].level as i64)
}

/// The items that can go into a free utility slot, highest level first.
pub open spec fn option_order(
    items: Seq<Item>,
    who: Character,
    bank: Seq<BankItem>,
    kept: Seq<Seq<char>>,
) -> Seq<int> {
    let picks = options(items, who, bank, kept, items.len() as int);
    ranked(by_key(level_keys(picks, items)), picks.len() as int).map_values(|j: int| picks[j])
}

/// The pick of an item: as many as the bank has, up to a full stack.
pub open spec fn pick_of(item: Item, bank: Seq<BankItem>) -> (Seq<char>, int) {
    (item.code@, min_int(bank_qty(bank, item.code@), MAX_UTILITY_STACK as int))
}

/// Whether a code has been picked.
pub open spec fn is_picked(picks: Seq<(Seq<char>, int)>, code: Seq<char>) -> bool {
    exists|i: int| 0 <= i < picks.len() && (#[trigger] picks[i]).0 == code
}

/// The first health potion in an order, from place `from` on.
pub open spec fn first_potion(order: Seq<int>, items: Seq<Item>, from: int) -> Option<int>
    decreases order.len() - from,
{
    if from < 0 || from >= order.len() {
        None
    } else if restores(items[order[from]]) {
        Some(from)
    } else {
        first_potion(order, items, from + 1)
    }
}

/// The picks to start from: the best health potion, unless a slot that stays holds one.
pub open spec fn forced(
    order: Seq<int>,
    items: Seq<Item>,
    bank: Seq<BankItem>,
    kept_restores: bool,
) -> Seq<(Seq<char>, int)> {
    if kept_restores {
        Seq::empty()
    } else {
        match first_potion(order, items, 0) {
            Some(j) => seq![pick_of(items[order[j]], bank)],
            None => Seq::empty(),
        }
    }
}

/// Picks filled up to two from the first `n` items in order, none of them twice.
pub open spec fn filled_up(
    start: Seq<(Seq<char>, int)>,
    order: Seq<int>,
    items: Seq<Item>,
    bank: Seq<BankItem>,
    n: int,
) -> Seq<(Seq<char>, int)>
    decreases n,
{
    if n <= 0 {
        start
    } else {
        let before = filled_up(start, order, items, bank, n - 1);
        let item = items[order[n - 1]];
        if before.len() >= 2 || is_picked(before, item.code@) {
            before
        } else {
            before.push(pick_of(item, bank))
        }
    }
}

/// The picks for the free utility slots, best first.
pub open spec fn utility_picks(
    who: Character,
    items: Seq<Item>,
    bank: Seq<BankItem>,
    slot1_free: bool,
    slot2_free: bool,
) -> Seq<(Seq<char>, int)> {
    let kept = locked(who, slot1_free, slot2_free);
    let order = option_order(items, who, bank, kept);
    filled_up(
        forced(order, items, bank, any_restores(kept, items)),
        order,
        items,
        bank,
        order.len() as int,
    )
}

/// The pick at a place.
pub open spec fn pick_at(picks: Seq<(Seq<char>, int)>, i: int) -> Option<(Seq<char>, int)> {
    if 0 <= i < picks.len() {
        Some(picks[i])
    } else {
        None
    }
}

fn already_picked(picks: &[UtilityPick], code: &str) -> (r: bool)
    ensures
        r == is_picked(pick_views(picks@), code@),
{
    let ghost views = pick_views(picks@);
    let mut i: usize = 0;
    while i < picks.len()
        invariant
            i <= picks@.len(),
            views == pick_views(picks@),
            forall|j: int| 0 <= j < i ==> (#[trigger] views[j]).0 != code@,
        decreases picks@.len() - i,
    {
        assert(views[i as int].0 == picks@[i as int].0@);
        if same(&picks[i].0, code) {
            return true;
        }
        i += 1;
    }
    false
}

fn make_pick(item: &Item, bank: &[BankItem]) -> (r: UtilityPick)
    ensures
        (r.0@, r.1 as int) == pick_of(*item, bank@),
{
    (item.code.clone(), min_i32(quantity_in(bank, &item.code), MAX_UTILITY_STACK))
}

/// Whether a code is one that a utility slot keeps.
fn is_kept(character: &Character, slot1_free: bool, slot2_free: bool, code: &str) -> (r: bool)
    ensures
        r == locked(*character, slot1_free, slot2_free).contains(code@),
{
    let ghost kept = locked(*character, slot1_free, slot2_free);
    let first: bool = !slot1_free && !character.utility1_slot.as_str().is_empty() && same(
        &character.utility1_slot,
        code,
    );
    let second: bool = !slot2_free && !character.utility2_slot.as_str().is_empty() && same(
        &character.utility2_slot,
        code,
    );
    proof {
        let a = kept_code(character.utility1_slot@, slot1_free);
        let b = kept_code(character.utility2_slot@, slot2_free);
        if first {
            assert(kept[0] == code@);
        }
        if second {
            assert(kept[a.len() as int] == code@);
        }
        if kept.contains(code@) {
            let i = choose|i: int| 0 <= i < kept.len() && kept[i] == code@;
            if i < a.len() {
                assert(a[i] == code@);
            } else {
                assert(b[i - a.len()] == code@);
            }
        }
    }
    first || second
}

fn code_restores(items: &[Item], code: &str) -> (r: bool)
    ensures
        r == (item_named(items@, code@) matches Some(item) && restores(item)),
{
    match find_item(items, code) {
        Some(k) => is_health_potion(&items[k]),
        None => false,
    }
}

fn kept_restores(character: &Character, items: &[Item], slot1_free: bool, slot2_free: bool) -> (r:
    bool)
    ensures
        r == any_restores(locked(*character, slot1_free, slot2_free), items@),
{
    let ghost kept = locked(*character, slot1_free, slot2_free);
    let first: bool = !slot1_free && !character.utility1_slot.as_str().is_empty() && code_restores(
        items,
        &character.utility1_slot,
    );
    let second: bool = !slot2_free && !character.utility2_slot.as_str().is_empty() && code_restores(
        items,
        &character.utility2_slot,
    );
    proof {
        let a = kept_code(character.utility1_slot@, slot1_free);
        let b = kept_code(character.utility2_slot@, slot2_free);
        if first {
            assert(kept[0] == character.utility1_slot@);
        }
        if second {
            assert(kept[a.len() as int] == character.utility2_slot@);
        }
        if any_restores(kept, items@) {
            let i = choose|i: int|
                0 <= i < kept.len() && (item_named(items@, #[trigger] kept[i]) matches Some(item)
                    && restores(item));
            if i < a.len() {
                assert(a[i] == kept[i]);
            } else {
                assert(b[i - a.len()] == kept[i]);
            }
        }
    }
    first || second
}

fn ordered_options(
    character: &Character,
    data: &GameData,
    bank: &[BankItem],
    slot1_free: bool,
    slot2_free: bool,
) -> (r: Vec<usize>)
    ensures
        places(r@) == option_order(
            data.items@,
            *character,
            bank@,
            locked(*character, slot1_free, slot2_free),
        ),
        forall|j: int| 0 <= j < r@.len() ==> (#[trigger] r@[j]) < data.items@.len(),
{
    let ghost kept = locked(*character, slot1_free, slot2_free);
    let mut picks: Vec<usize> = Vec::new();
    let mut keys: Vec<i64> = Vec::new();
    let mut i: usize = 0;
    assert(places(picks@) =~= Seq::empty());
    assert(keys@ =~= level_keys(places(picks@), data.items@));
    while i < data.items.len()
        invariant
            i <= data.items@.len(),
            kept == locked(*character, slot1_free, slot2_free),
            places(picks@) == options(data.items@, *character, bank@, kept, i as int),
            keys@ == level_keys(places(picks@), data.items@),
            keys@.len() == picks@.len(),
            forall|j: int| 0 <= j < picks@.len() ==> (#[trigger] picks@[j]) < data.items@.len(),
        decreases data.items@.len() - i,
    {
        let item: &Item = &data.items[i];
        if same(&item.item_type, "utility") && meets_conditions(character, item) && quantity_in(
            bank,
            &item.code,
        ) > 0 && !is_kept(character, slot1_free, slot2_free, &item.code) {
            let ghost had = picks@;
            picks.push(i);
            keys.push(item.level as i64);
            assert(places(picks@) =~= places(had).push(i as int));
            assert(keys@ =~= level_keys(places(picks@), data.items@));
        }
        i += 1;
    }
    let order: Vec<usize> = rank_by_key(&keys);
    let ghost target = option_order(data.items@, *character, bank@, kept);
    let mut out: Vec<usize> = Vec::new();
    let mut j: usize = 0;
    assert(places(out@) =~= target.take(0));
    while j < order.len()
        invariant
            j <= order@.len(),
            order@.len() == picks@.len(),
            keys@.len() == picks@.len(),
            places(picks@) == options(
                data.items@,
                *character,
                bank@,
                kept,
                data.items@.len() as int,
            ),
            keys@ == level_keys(places(picks@), data.items@),
            forall|m: int| 0 <= m < picks@.len() ==> (#[trigger] picks@[m]) < data.items@.len(),
            forall|m: int| 0 <= m < out@.len() ==> (#[trigger] out@[m]) < data.items@.len(),
            places(order@) == ranked(by_key(keys@), keys@.len() as int),
            is_ranking(places(order@), by_key(keys@), keys@.len() as int),
            target == option_order(data.items@, *character, bank@, kept),
            places(out@) == target.take(j as int),
        decreases order@.len() - j,
    {
        assert(places(order@)[j as int] == order@[j as int]);
        let ghost had = out@;
        out.push(picks[order[j]]);
        assert(places(picks@)[order@[j as int] as int] == picks@[order@[j as int] as int]);
        assert(places(out@) =~= places(had).push(target[j as int]));
        j += 1;
        assert(target.take(j as int) =~= target.take(j - 1).push(target[j - 1]));
    }
    assert(target.take(j as int) =~= target);
    out
}

/// What to put into the utility slots that are free: the highest-level items that the bank holds,
/// no code twice and none that the other slot keeps, with the best health potion first unless a
/// slot that stays holds one.
pub fn pick_utility_loadout(
    character: &Character,
    data: &GameData,
    bank: &[BankItem],
    slot1_free: bool,
    slot2_free: bool,
) -> (r: (Option<UtilityPick>, Option<UtilityPick>))
    ensures
        ({
            let picks = utility_picks(*character, data.items@, bank@, slot1_free, slot2_free);
            &&& pick_view(r.0) == if slot1_free {
                pick_at(picks, 0)
            } else {
                None
            }
            &&& pick_view(r.1) == if slot2_free {
                pick_at(
                    picks,
                    if slot1_free {
                        1
                    } else {
                        0
                    },
                )
            } else {
                None
            }
        }),
{
    let ghost kept = locked(*character, slot1_free, slot2_free);
    let order: Vec<usize> = ordered_options(character, data, bank, slot1_free, slot2_free);
    let ghost places_of = places(order@);
    let mut picks: Vec<UtilityPick> = Vec::new();
    assert(pick_views(picks@) =~= Seq::empty());
    let keeps_potion: bool = kept_restores(character, &data.items, slot1_free, slot2_free);
    if !keeps_potion {
        let mut i: usize = 0;
        while i < order.len() && picks.len() == 0
            invariant
                i <= order@.len(),
                places_of == places(order@),
                forall|j: int|
                    0 <= j < order@.len() ==> (#[trigger] order@[j]) < data.items@.len(),
                if picks@.len() == 0 {
                    first_potion(places_of, data.items@, 0) == first_potion(
                        places_of,
                        data.items@,
                        i as int,
                    ) && pick_views(picks@) == Seq::<(Seq<char>, int)>::empty()
                } else {
                    first_potion(places_of, data.items@, 0) matches Some(p) && pick_views(picks@)
                        == seq![pick_of(data.items@[places_of[p]], bank@)]
                },
            decreases order@.len() - i,
        {
            assert(places_of[i as int] == order@[i as int]);
            let item: &Item = &data.items[order[i]];
            if is_health_potion(item) {
                picks.push(make_pick(item, bank));
                assert(pick_views(picks@) =~= seq![pick_of(*item, bank@)]);
            }
            i += 1;
        }
    }
    let ghost start = forced(places_of, data.items@, bank@, any_restores(kept, data.items@));
    assert(pick_views(picks@) =~= start);
    let mut i: usize = 0;
    while i < order.len()
        invariant
            i <= order@.len(),
            places_of == places(order@),
            forall|j: int| 0 <= j < order@.len() ==> (#[trigger] order@[j]) < data.items@.len(),
            pick_views(picks@) == filled_up(start, places_of, data.items@, bank@, i as int),
        decreases order@.len() - i,
    {
        assert(places_of[i as int] == order@[i as int]);
        let item: &Item = &data.items[order[i]];
        if picks.len() < 2 && !already_picked(&picks, &item.code) {
            let ghost had = picks@;
            picks.push(make_pick(item, bank));
            assert(pick_views(picks@) =~= pick_views(had).push(pick_of(*item, bank@)));
        }
        i += 1;
    }
    let at: usize = if slot1_free {
        1
    } else {
        0
    };
    let first: Option<UtilityPick> = if slot1_free && picks.len() > 0 {
        Some((picks[0].0.clone(), picks[0].1))
    } else {
        None
    };
    let second: Option<UtilityPick> = if slot2_free && picks.len() > at {
        Some((picks[at].0.clone(), picks[at].1))
    } else {
        None
    };
    (first, second)
}

proof fn lemma_first_potion(order: Seq<int>, items: Seq<Item>, from: int)
    requires
        0 <= from,
    ensures
        match first_potion(order, items, from) {
            Some(j) => from <= j < order.len() && restores(items[order[j]]),
            None => forall|j: int|
                from <= j < order.len() ==> !restores(items[#[trigger] order[j]]),
        },
    decreases order.len() - from,
{
    if from < order.len() && !restores(items[order[from]]) {
        lemma_first_potion(order, items, from + 1);
    }
}

/// `pick` is the pick of one of the items in order.
spec fn is_from(
    pick: (Seq<char>, int),
    order: Seq<int>,
    items: Seq<Item>,
    bank: Seq<BankItem>,
) -> bool {
    exists|j: int| 0 <= j < order.len() && pick == pick_of(items[#[trigger] order[j]], bank)
}

proof fn lemma_options(
    items: Seq<Item>,
    who: Character,
    bank: Seq<BankItem>,
    kept: Seq<Seq<char>>,
    n: int,
)
    requires
        0 <= n <= items.len(),
    ensures
        forall|i: int|
            0 <= i < options(items, who, bank, kept, n).len() ==> {
                let k = #[trigger] options(items, who, bank, kept, n)[i];
                0 <= k < n && is_option(items[k], who, bank, kept)
            },
    decreases n,
{
    if n > 0 {
        lemma_options(items, who, bank, kept, n - 1);
        let before = options(items, who, bank, kept, n - 1);
        let after = options(items, who, bank, kept, n);
        assert forall|i: int| 0 <= i < after.len() implies ({
            let k = #[trigger] after[i];
            0 <= k < n && is_option(items[k], who, bank, kept)
        }) by {
            if i < before.len() {
                assert(before[i] == after[i]);
            }
        }
    }
}

proof fn lemma_option_order(items: Seq<Item>, who: Character, bank: Seq<BankItem>, kept: Seq<Seq<char>>)
    ensures
        forall|j: int|
            0 <= j < option_order(items, who, bank, kept).len() ==> is_option(
                items[#[trigger] option_order(items, who, bank, kept)[j]],
                who,
                bank,
                kept,
            ),
{
    let picks = options(items, who, bank, kept, items.len() as int);
    lemma_options(items, who, bank, kept, items.len() as int);
    let keys = level_keys(picks, items);
    lemma_keys_are_ordered(keys);
    law_ranking(by_key(keys), keys.len() as int);
    let places_in = ranked(by_key(keys), picks.len() as int);
    let order = option_order(items, who, bank, kept);
    assert forall|j: int| 0 <= j < order.len() implies is_option(
        items[#[trigger] order[j]],
        who,
        bank,
        kept,
    ) by {
        assert(0 <= places_in[j] < picks.len());
        assert(order[j] == picks[places_in[j]]);
    }
}

proof fn lemma_filled_up(
    start: Seq<(Seq<char>, int)>,
    order: Seq<int>,
    items: Seq<Item>,
    bank: Seq<BankItem>,
    n: int,
)
    requires
        0 <= n <= order.len(),
        start.len() <= 1,
        forall|i: int| 0 <= i < start.len() ==> (#[trigger] start[i]).1 <= MAX_UTILITY_STACK,
    ensures
        ({
            let picks = filled_up(start, order, items, bank, n);
            &&& start.len() <= picks.len() <= 2
            &&& forall|i: int| 0 <= i < start.len() ==> #[trigger] picks[i] == start[i]
            &&& forall|i: int|
                0 <= i < picks.len() ==> (#[trigger] picks[i]).1 <= MAX_UTILITY_STACK
            &&& picks.len() == 2 ==> picks[0].0 != picks[1].0
            &&& forall|i: int|
                start.len() <= i < picks.len() ==> is_from(#[trigger] picks[i], order, items, bank)
        }),
    decreases n,
{
    if n > 0 {
        lemma_filled_up(start, order, items, bank, n - 1);
        let before = filled_up(start, order, items, bank, n - 1);
        let item = items[order[n - 1]];
        if before.len() == 1 && !is_picked(before, item.code@) {
            assert(before[0].0 != item.code@);
        }
        if before.len() < 2 && !is_picked(before, item.code@) {
            assert(pick_of(item, bank) == pick_of(items[order[n - 1]], bank));
        }
    }
}

/// The two slots never get the same code, nor one that a slot keeps, nor more than a full stack,
/// and everything picked is in the bank; where a health
/// potion can be had and no slot keeps one, the first pick is one.
pub proof fn law_loadout_has_a_health_potion(
    who: Character,
    items: Seq<Item>,
    bank: Seq<BankItem>,
    slot1_free: bool,
    slot2_free: bool,
)
    ensures
        ({
            let kept = locked(who, slot1_free, slot2_free);
            let order = option_order(items, who, bank, kept);
            let picks = utility_picks(who, items, bank, slot1_free, slot2_free);
            &&& picks.len() <= 2
            &&& picks.len() == 2 ==> picks[0].0 != picks[1].0
            &&& forall|i: int|
                0 <= i < picks.len() ==> {
                    &&& 0 < (#[trigger] picks[i]).1 <= MAX_UTILITY_STACK
                    &&& picks[i].1 <= bank_qty(bank, picks[i].0)
                    &&& !kept.contains(picks[i].0)
                }
            &&& !any_restores(kept, items) && (exists|j: int|
                0 <= j < order.len() && restores(items[#[trigger] order[j]])) ==> picks.len() > 0
                && exists|j: int|
                0 <= j < order.len() && restores(items[#[trigger] order[j]]) && picks[0] == pick_of(
                    items[order[j]],
                    bank,
                )
        }),
{
    let kept = locked(who, slot1_free, slot2_free);
    let order = option_order(items, who, bank, kept);
    let start = forced(order, items, bank, any_restores(kept, items));
    lemma_first_potion(order, items, 0);
    lemma_filled_up(start, order, items, bank, order.len() as int);
    lemma_option_order(items, who, bank, kept);
    let picks = utility_picks(who, items, bank, slot1_free, slot2_free);
    assert forall|i: int| 0 <= i < picks.len() implies ({
        &&& 0 < (#[trigger] picks[i]).1 <= MAX_UTILITY_STACK
        &&& picks[i].1 <= bank_qty(bank, picks[i].0)
        &&& !kept.contains(picks[i].0)
    }) by {
        if i < start.len() {
            let j = first_potion(order, items, 0)->0;
            assert(start[0] == pick_of(items[order[j]], bank));
            assert(is_from(picks[i], order, items, bank));
        }
        let j = choose|j: int|
            0 <= j < order.len() && picks[i] == pick_of(items[#[trigger] order[j]], bank);
        assert(is_option(items[order[j]], who, bank, kept));
    }
    if !any_restores(kept, items) && (exists|j: int|
        0 <= j < order.len() && restores(items[#[trigger] order[j]])) {
        let j = first_potion(order, items, 0)->0;
        assert(restores(items[order[j]]));
        assert(start[0] == pick_of(items[order[j]], bank));
    }
}

/// A utility slot to fill, with what, and how many are still missing.
#[derive(Debug)]
pub struct UtilityRequest {
    pub slot: &'static str,
    pub code: String,
    pub remaining: i32,
}

/// Requests, as mathematical values.
pub open spec fn request_views(requests: Seq<UtilityRequest>) -> Seq<(Seq<char>, Seq<char>, int)> {
    requests.map_values(|r: UtilityRequest| (r.slot@, r.code@, r.remaining as int))
}

/// The requests for two picks.
pub fn requests_for(picks: (Option<UtilityPick>, Option<UtilityPick>)) -> (r: Vec<UtilityRequest>)
    ensures
        request_views(r@) == (match pick_view(picks.0) {
            Some(p) => seq![("utility1"@, p.0, p.1)],
            None => Seq::empty(),
        }) + (match pick_view(picks.1) {
            Some(p) => seq![("utility2"@, p.0, p.1)],
            None => Seq::empty(),
        }),
{
    let mut out: Vec<UtilityRequest> = Vec::new();
    let ghost first = pick_view(picks.0);
    let ghost second = pick_view(picks.1);
    if let Some(p) = picks.0 {
        out.push(UtilityRequest { slot: "utility1", code: p.0, remaining: p.1 });
    }
    if let Some(p) = picks.1 {
        out.push(UtilityRequest { slot: "utility2", code: p.0, remaining: p.1 });
    }
    assert(request_views(out@) =~= (match first {
        Some(p) => seq![("utility1"@, p.0, p.1)],
        None => Seq::empty(),
    }) + (match second {
        Some(p) => seq![("utility2"@, p.0, p.1)],
        None => Seq::empty(),
    }));
    out
}

/// What a utility slot lacks to a full stack of what it holds, as far as the bank has it.
pub open spec fn top_up(
    slot: Seq<char>,
    code: Seq<char>,
    quantity: int,
    bank: Seq<BankItem>,
) -> Seq<(Seq<char>, Seq<char>, int)> {
    let need = min_int(sat_i32(MAX_UTILITY_STACK - quantity), bank_qty(bank, code));
    if code.len() == 0 || quantity >= MAX_UTILITY_STACK || need <= 0 {
        Seq::empty()
    } else {
        seq![(slot, code, need)]
    }
}

/// What the utility slots lack to full stacks of what they hold. Never another item, and nothing
/// for a slot that is empty.
pub fn top_up_requests(character: &Character, bank: &[BankItem]) -> (r: Vec<UtilityRequest>)
    ensures
        request_views(r@) == top_up(
            "utility1"@,
            character.utility1_slot@,
            character.utility1_slot_quantity as int,
            bank@,
        ) + top_up(
            "utility2"@,
            character.utility2_slot@,
            character.utility2_slot_quantity as int,
            bank@,
        ),
{
    let mut out: Vec<UtilityRequest> = Vec::new();
    push_top_up(
        &mut out,
        "utility1",
        &character.utility1_slot,
        character.utility1_slot_quantity,
        bank,
    );
    push_top_up(
        &mut out,
        "utility2",
        &character.utility2_slot,
        character.utility2_slot_quantity,
        bank,
    );
    assert(request_views(out@) =~= top_up(
        "utility1"@,
        character.utility1_slot@,
        character.utility1_slot_quantity as int,
        bank@,
    ) + top_up(
        "utility2"@,
        character.utility2_slot@,
        character.utility2_slot_quantity as int,
        bank@,
    ));
    out
}

fn push_top_up(
    out: &mut Vec<UtilityRequest>,
    slot: &'static str,
    code: &str,
    quantity: i32,
    bank: &[BankItem],
)
    ensures
        request_views(final(out)@) == request_views(old(out)@) + top_up(
            slot@,
            code@,
            quantity as int,
            bank@,
        ),
{
    let ghost before = request_views(out@);
    let missing: i32 = saturated(MAX_UTILITY_STACK as i64 - quantity as i64);
    let need: i32 = min_i32(missing, quantity_in(bank, code));
    if !code.is_empty() && quantity < MAX_UTILITY_STACK && need > 0 {
        out.push(UtilityRequest { slot, code: code.to_owned(), remaining: need });
    }
    assert(request_views(out@) =~= before + top_up(slot@, code@, quantity as int, bank@));
}

/// One pass of stocking up: what is asked for, and what fits of it.
#[verifier::ext_equal]
pub struct Pass {
    /// What is missing of each request after this pass.
    pub remaining: Seq<int>,
    /// What this pass takes: slot, code and quantity.
    pub taken: Seq<(Seq<char>, Seq<char>, int)>,
    pub room_qty: int,
    pub room_slots: int,
}

/// The pass after the first `n` requests.
pub open spec fn pass_over(
    requests: Seq<(Seq<char>, Seq<char>, int)>,
    room_qty: int,
    room_slots: int,
    n: int,
) -> Pass
    decreases n,
{
    if n <= 0 {
        Pass { remaining: Seq::empty(), taken: Seq::empty(), room_qty, room_slots }
    } else {
        let p = pass_over(requests, room_qty, room_slots, n - 1);
        let (slot, code, missing) = requests[n - 1];
        let take = min_int(missing, p.room_qty);
        if p.room_qty <= 0 || p.room_slots == 0 || take <= 0 {
            Pass { remaining: p.remaining.push(missing), ..p }
        } else {
            Pass {
                remaining: p.remaining.push(missing - take),
                taken: p.taken.push((slot, code, take)),
                room_qty: p.room_qty - take,
                room_slots: p.room_slots - 1,
            }
        }
    }
}

/// How many more items a character can carry.
pub open spec fn free_room(who: Character) -> int {
    max_int(
        sat_i32(
            who.inventory_max_items - carried(who.inventory@, who.inventory@.len() as int),
        ),
        0,
    )
}

/// How many more slots a character can use.
pub open spec fn free_slots(who: Character) -> int {
    max_int(INVENTORY_SLOTS - used_count(who.inventory@, who.inventory@.len() as int), 0)
}

/// How many more items a character can carry.
pub fn room_for_items(character: &Character) -> (r: i32)
    ensures
        r == free_room(*character),
{
    let left: i32 = saturated(
        character.inventory_max_items as i64 - total_carried(&character.inventory) as i64,
    );
    if left >= 0 {
        left
    } else {
        0
    }
}

/// How many more slots a character can use.
pub fn room_for_stacks(character: &Character) -> (r: usize)
    ensures
        r == free_slots(*character),
{
    let used: usize = used_slots(&character.inventory);
    if used >= INVENTORY_SLOTS {
        0
    } else {
        INVENTORY_SLOTS - used
    }
}

/// The withdrawals of a pass.
pub open spec fn taken_stacks(taken: Seq<(Seq<char>, Seq<char>, int)>) -> Seq<(Seq<char>, int)> {
    taken.map_values(|t: (Seq<char>, Seq<char>, int)| (t.1, t.2))
}

/// What to put on, as mathematical values: slot, code and quantity.
pub open spec fn equip_views(bodies: Seq<EquipBody>) -> Seq<(Seq<char>, Seq<char>, int)> {
    bodies.map_values(|b: EquipBody| (b.slot@, b.code@, b.quantity as int))
}

/// What is missing of each request.
pub open spec fn remaining_of(requests: Seq<UtilityRequest>) -> Seq<int> {
    requests.map_values(|r: UtilityRequest| r.remaining as int)
}

/// Plans one pass of stocking up: withdraws and puts on as much of each request as fits, which
/// frees the room again for the next pass. Returns the withdrawals and what to put on; both are
/// empty where nothing is missing or nothing fits.
pub fn plan_utility_pass(character: &Character, requests: &mut Vec<UtilityRequest>) -> (r: (
    Vec<DepositItem>,
    Vec<EquipBody>,
))
    ensures
        ({
            let views = request_views(old(requests)@);
            let p = pass_over(
                views,
                free_room(*character),
                free_slots(*character),
                views.len() as int,
            );
            &&& final(requests)@.len() == old(requests)@.len()
            &&& forall|i: int|
                0 <= i < final(requests)@.len() ==> {
                    &&& (#[trigger] final(requests)@[i]).slot@ == old(requests)@[i].slot@
                    &&& final(requests)@[i].code@ == old(requests)@[i].code@
                }
            &&& remaining_of(final(requests)@) == p.remaining
            &&& deposit_views(r.0@) == taken_stacks(p.taken)
            &&& equip_views(r.1@) == p.taken
        }),
{
    let mut room_qty: i32 = room_for_items(character);
    let mut room_slots: usize = room_for_stacks(character);
    let ghost q0 = room_qty as int;
    let ghost s0 = room_slots as int;
    let ghost views = request_views(requests@);
    let ghost before = requests@;
    let mut withdrawals: Vec<DepositItem> = Vec::new();
    let mut bodies: Vec<EquipBody> = Vec::new();
    assert(deposit_views(withdrawals@) =~= taken_stacks(Seq::empty()));
    assert(equip_views(bodies@) =~= Seq::empty());
    let mut i: usize = 0;
    while i < requests.len()
        invariant
            i <= requests@.len(),
            requests@.len() == before.len(),
            before == old(requests)@,
            views == request_views(before),
            room_qty >= 0,
            forall|j: int|
                0 <= j < requests@.len() ==> {
                    &&& (#[trigger] requests@[j]).slot@ == before[j].slot@
                    &&& requests@[j].code@ == before[j].code@
                },
            forall|j: int| i <= j < requests@.len() ==> #[trigger] requests@[j] == before[j],
            forall|j: int|
                0 <= j < i ==> (#[trigger] requests@[j]).remaining == pass_over(
                    views,
                    q0,
                    s0,
                    i as int,
                ).remaining[j],
            ({
                let p = pass_over(views, q0, s0, i as int);
                &&& p.remaining.len() == i
                &&& p.room_qty == room_qty
                &&& p.room_slots == room_slots
                &&& deposit_views(withdrawals@) == taken_stacks(p.taken)
                &&& equip_views(bodies@) == p.taken
            }),
        decreases requests@.len() - i,
    {
        assert(requests@[i as int] == before[i as int]);
        assert(views[i as int].2 == before[i as int].remaining);
        let ghost p = pass_over(views, q0, s0, i as int);
        let missing: i32 = requests[i].remaining;
        let take: i32 = min_i32(missing, room_qty);
        if room_qty > 0 && room_slots > 0 && take > 0 {
            let ghost had_w = withdrawals@;
            let ghost had_b = bodies@;
            let code: String = requests[i].code.clone();
            let slot: &'static str = requests[i].slot;
            withdrawals.push(DepositItem { code: code.clone(), quantity: take });
            bodies.push(EquipBody { code: code.clone(), slot: slot.to_owned(), quantity: take });
            assert(deposit_views(withdrawals@) =~= deposit_views(had_w).push((code@, take as int)));
            assert(equip_views(bodies@) =~= equip_views(had_b).push((slot@, code@, take as int)));
            assert(taken_stacks(p.taken.push((slot@, code@, take as int))) =~= taken_stacks(
                p.taken,
            ).push((code@, take as int)));
            let left: i32 = missing - take;
            requests.set(i, UtilityRequest { slot, code, remaining: left });
            room_qty = room_qty - take;
            room_slots = room_slots - 1;
        }
        i += 1;
    }
    assert(remaining_of(requests@) =~= pass_over(views, q0, s0, i as int).remaining);
    (withdrawals, bodies)
}

/// What the first `n` numbers add up to.
pub open spec fn total(numbers: Seq<int>, n: int) -> int
    decreases n,
{
    if n <= 0 {
        0
    } else {
        total(numbers, n - 1) + numbers[n - 1]
    }
}

/// What the first `n` requests lack together.
pub open spec fn missing_total(requests: Seq<(Seq<char>, Seq<char>, int)>, n: int) -> int
    decreases n,
{
    if n <= 0 {
        0
    } else {
        missing_total(requests, n - 1) + requests[n - 1].2
    }
}

proof fn lemma_total_push(numbers: Seq<int>, more: int, n: int)
    requires
        0 <= n <= numbers.len(),
    ensures
        total(numbers.push(more), n) == total(numbers, n),
    decreases n,
{
    if n > 0 {
        lemma_total_push(numbers, more, n - 1);
    }
}

/// A pass that takes anything leaves less to be stocked up, so stocking up comes to an end; it
/// never takes more than there is room for or than is asked.
pub proof fn law_pass_makes_progress(
    requests: Seq<(Seq<char>, Seq<char>, int)>,
    room_qty: int,
    room_slots: int,
    n: int,
)
    requires
        0 <= n <= requests.len(),
        room_qty >= 0,
        room_slots >= 0,
    ensures
        ({
            let p = pass_over(requests, room_qty, room_slots, n);
            let left = total(p.remaining, p.remaining.len() as int);
            &&& p.remaining.len() == n
            &&& 0 <= p.room_qty <= room_qty
            &&& 0 <= p.room_slots <= room_slots
            &&& p.taken.len() == room_slots - p.room_slots
            &&& left == missing_total(requests, n) - (room_qty - p.room_qty)
            &&& p.taken.len() > 0 ==> left < missing_total(requests, n)
        }),
    decreases n,
{
    if n > 0 {
        law_pass_makes_progress(requests, room_qty, room_slots, n - 1);
        let p = pass_over(requests, room_qty, room_slots, n - 1);
        let missing = requests[n - 1].2;
        let take = min_int(missing, p.room_qty);
        if p.room_qty <= 0 || p.room_slots == 0 || take <= 0 {
            lemma_total_push(p.remaining, missing, n - 1);
        } else {
            lemma_total_push(p.remaining, missing - take, n - 1);
        }
    }
}

} // verus!
