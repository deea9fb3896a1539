//! What holds of upgrades: which count, who is told of them, and what is done about them.

use vstd::prelude::*;

use super::flag_handling::{recorded, slots_to_clear, task_for, withdrawals_for, worn_at, FlagTask};
use super::promotion::is_promoted;
use super::refining::wanted;
use super::repositioning::subtier;
use super::upgrade_steps::{
    all_steps, character_steps, is_crafted_gear, is_step, makes_gear, slot_steps, step_ratings,
    upgrade_order, StepView,
};
use crate::flags::{
    after_restock, after_wishlist, any_craftable, bank_can_craft, bank_holds, flag_slots, flagged,
    food_in_bank, get_text, pending_of, upgrade_flag, upgrade_in_bank, worn_by, ActionView,
    FlagView, Pending, StateView,
};
use crate::flag_laws::law_queuing_keeps_what_waits;
use crate::optimize::skill_laws::lemma_skill_names;
use crate::optimize::skills::level_in;
use crate::optimize::slot_rating::{is_upgrade, RankedItem, SlotRating};
use crate::ranking::{by_key, law_ranking, lemma_keys_are_ordered, ranked};
use crate::types::{bank_qty, recipe_of, BankItem, Character, Item};

verus! {

/// Each slot's name stands for what is worn in that very slot; any other name stands for nothing.
pub proof fn law_slot_name_stands_for_its_own_slot(who: Character, name: Seq<char>)
    ensures
        worn_at(who, "weapon"@) == who.weapon_slot@,
        worn_at(who, "shield"@) == who.shield_slot@,
        worn_at(who, "helmet"@) == who.helmet_slot@,
        worn_at(who, "body_armor"@) == who.body_armor_slot@,
        worn_at(who, "leg_armor"@) == who.leg_armor_slot@,
        worn_at(who, "boots"@) == who.boots_slot@,
        worn_at(who, "ring1"@) == who.ring1_slot@,
        worn_at(who, "ring2"@) == who.ring2_slot@,
        worn_at(who, "amulet"@) == who.amulet_slot@,
        worn_at(who, "artifact1"@) == who.artifact1_slot@,
        worn_at(who, "artifact2"@) == who.artifact2_slot@,
        worn_at(who, "artifact3"@) == who.artifact3_slot@,
        worn_at(who, "utility1"@) == who.utility1_slot@,
        worn_at(who, "utility2"@) == who.utility2_slot@,
        worn_at(who, "rune"@) == who.rune_slot@,
        worn_at(who, "bag"@) == who.bag_slot@,
{
    reveal_strlit("weapon");
    reveal_strlit("shield");
    reveal_strlit("helmet");
    reveal_strlit("body_armor");
    reveal_strlit("leg_armor");
    reveal_strlit("boots");
    reveal_strlit("ring1");
    reveal_strlit("ring2");
    reveal_strlit("amulet");
    reveal_strlit("artifact1");
    reveal_strlit("artifact2");
    reveal_strlit("artifact3");
    reveal_strlit("utility1");
    reveal_strlit("utility2");
    reveal_strlit("rune");
    reveal_strlit("bag");
    assert("weapon"@.len() == 6);
    assert("shield"@.len() == 6);
    assert("helmet"@.len() == 6);
    assert("body_armor"@.len() == 10);
    assert("leg_armor"@.len() == 9);
    assert("boots"@.len() == 5);
    assert("ring1"@.len() == 5);
    assert("ring2"@.len() == 5);
    assert("amulet"@.len() == 6);
    assert("artifact1"@.len() == 9);
    assert("artifact2"@.len() == 9);
    assert("artifact3"@.len() == 9);
    assert("utility1"@.len() == 8);
    assert("utility2"@.len() == 8);
    assert("rune"@.len() == 4);
    assert("bag"@.len() == 3);
    assert("weapon"@[0] == 'w' && "shield"@[0] == 's' && "helmet"@[0] == 'h' && "amulet"@[0]
        == 'a');
    assert("boots"@[0] == 'b' && "ring1"@[0] == 'r' && "ring2"@[0] == 'r');
    assert("ring1"@[4] == '1' && "ring2"@[4] == '2');
    assert("leg_armor"@[0] == 'l' && "artifact1"@[0] == 'a' && "artifact2"@[0] == 'a'
        && "artifact3"@[0] == 'a');
    assert("artifact1"@[8] == '1' && "artifact2"@[8] == '2' && "artifact3"@[8] == '3');
    assert("utility1"@[7] == '1' && "utility2"@[7] == '2');
}

/// Gear is what weaponcrafting, gearcrafting or jewelrycrafting makes.
pub proof fn law_gear_is_what_three_skills_make(items: Seq<Item>, code: Seq<char>)
    ensures
        makes_gear("weaponcrafting"@),
        makes_gear("gearcrafting"@),
        makes_gear("jewelrycrafting"@),
        !makes_gear("alchemy"@),
        !makes_gear("cooking"@),
        !makes_gear("mining"@),
        is_crafted_gear(items, code) <==> recipe_of(items, code) is Some && recipe_of(
            items,
            code,
        )->0.skill is Some && {
            let skill = recipe_of(items, code)->0.skill->0@;
            skill == "weaponcrafting"@ || skill == "gearcrafting"@ || skill == "jewelrycrafting"@
        },
{
    lemma_skill_names();
}

proof fn lemma_slot_steps(
    who: Seq<char>,
    r: SlotRating,
    n: int,
    equipped: Option<Seq<char>>,
    items: Seq<Item>,
    crafted_only: bool,
    s: StepView,
)
    requires
        0 <= n <= r.ranked@.len(),
    ensures
        slot_steps(who, r, n, equipped, items, crafted_only).contains(s) <==> exists|i: int|
            0 <= i < n && is_upgrade_of(
                #[trigger] r.ranked@[i],
                who,
                r,
                equipped,
                items,
                crafted_only,
                s,
            ),
    decreases n,
{
    let all = slot_steps(who, r, n, equipped, items, crafted_only);
    if n > 0 {
        lemma_slot_steps(who, r, n - 1, equipped, items, crafted_only, s);
        let before = slot_steps(who, r, n - 1, equipped, items, crafted_only);
        if before.contains(s) {
            let k = before.index_of(s);
            assert(all[k] == s);
            let i = choose|i: int|
                0 <= i < n - 1 && is_upgrade_of(
                    #[trigger] r.ranked@[i],
                    who,
                    r,
                    equipped,
                    items,
                    crafted_only,
                    s,
                );
            assert(is_upgrade_of(r.ranked@[i], who, r, equipped, items, crafted_only, s));
        }
        if is_upgrade_of(r.ranked@[n - 1], who, r, equipped, items, crafted_only, s) {
            assert(is_step(r, n - 1, equipped, items, crafted_only));
            assert(all[before.len() as int] == s);
        }
        if all.contains(s) {
            let k = all.index_of(s);
            if k < before.len() {
                assert(before[k] == s);
            } else {
                assert(is_upgrade_of(r.ranked@[n - 1], who, r, equipped, items, crafted_only, s));
            }
        }
    }
}

/// A step says that an entry of a slot's ranking beats what is worn there, and is gear that can be
/// crafted where only such gear counts.
pub open spec fn is_upgrade_of(
    entry: RankedItem,
    who: Seq<char>,
    r: SlotRating,
    equipped: Option<Seq<char>>,
    items: Seq<Item>,
    crafted_only: bool,
    s: StepView,
) -> bool {
    &&& s.who == who
    &&& s.slot == r.slot@
    &&& s.code == entry.code@
    &&& s.rating == entry.rating
    &&& is_upgrade(entry, r.ranked@, equipped)
    &&& crafted_only ==> is_crafted_gear(items, entry.code@)
}

/// A step is one of a character's, for one of its slots.
pub open spec fn is_step_of(
    who: Seq<char>,
    slots: Seq<SlotRating>,
    n: int,
    gear: Map<Seq<char>, Seq<char>>,
    items: Seq<Item>,
    crafted_only: bool,
    s: StepView,
) -> bool {
    exists|k: int, i: int|
        0 <= k < n && 0 <= i < slots[k].ranked@.len() && is_upgrade_of(
            #[trigger] slots[k].ranked@[i],
            who,
            slots[k],
            get_text(gear, slots[k].slot@),
            items,
            crafted_only,
            s,
        )
}

proof fn lemma_character_steps(
    who: Seq<char>,
    slots: Seq<SlotRating>,
    n: int,
    gear: Map<Seq<char>, Seq<char>>,
    items: Seq<Item>,
    crafted_only: bool,
    s: StepView,
)
    requires
        0 <= n <= slots.len(),
    ensures
        character_steps(who, slots, n, gear, items, crafted_only).contains(s) <==> is_step_of(
            who,
            slots,
            n,
            gear,
            items,
            crafted_only,
            s,
        ),
    decreases n,
{
    let all = character_steps(who, slots, n, gear, items, crafted_only);
    if n > 0 {
        lemma_character_steps(who, slots, n - 1, gear, items, crafted_only, s);
        let before = character_steps(who, slots, n - 1, gear, items, crafted_only);
        let r = slots[n - 1];
        let equipped = get_text(gear, r.slot@);
        let more = slot_steps(who, r, r.ranked@.len() as int, equipped, items, crafted_only);
        lemma_slot_steps(who, r, r.ranked@.len() as int, equipped, items, crafted_only, s);
        if before.contains(s) {
            let k = before.index_of(s);
            assert(all[k] == s);
            let (a, b) = choose|a: int, b: int|
                0 <= a < n - 1 && 0 <= b < slots[a].ranked@.len() && is_upgrade_of(
                    #[trigger] slots[a].ranked@[b],
                    who,
                    slots[a],
                    get_text(gear, slots[a].slot@),
                    items,
                    crafted_only,
                    s,
                );
            assert(is_upgrade_of(
                slots[a].ranked@[b],
                who,
                slots[a],
                get_text(gear, slots[a].slot@),
                items,
                crafted_only,
                s,
            ));
        }
        if more.contains(s) {
            let k = more.index_of(s);
            assert(all[before.len() + k] == s);
            let b = choose|b: int|
                0 <= b < r.ranked@.len() && is_upgrade_of(
                    #[trigger] r.ranked@[b],
                    who,
                    r,
                    equipped,
                    items,
                    crafted_only,
                    s,
                );
            assert(is_upgrade_of(
                slots[n - 1].ranked@[b],
                who,
                slots[n - 1],
                get_text(gear, slots[n - 1].slot@),
                items,
                crafted_only,
                s,
            ));
        }
        if all.contains(s) {
            let k = all.index_of(s);
            if k < before.len() {
                assert(before[k] == s);
            } else {
                assert(more[k - before.len()] == s);
            }
        }
        if is_step_of(who, slots, n, gear, items, crafted_only, s) && !is_step_of(
            who,
            slots,
            n - 1,
            gear,
            items,
            crafted_only,
            s,
        ) {
            let (a, b) = choose|a: int, b: int|
                0 <= a < n && 0 <= b < slots[a].ranked@.len() && is_upgrade_of(
                    #[trigger] slots[a].ranked@[b],
                    who,
                    slots[a],
                    get_text(gear, slots[a].slot@),
                    items,
                    crafted_only,
                    s,
                );
            if a < n - 1 {
                assert(is_step_of(who, slots, n - 1, gear, items, crafted_only, s));
            }
            assert(is_upgrade_of(r.ranked@[b], who, r, equipped, items, crafted_only, s));
        }
    }
}

/// A step is one of the first `n` rated characters'.
pub open spec fn is_anyones_step(s: StateView, n: int, crafted_only: bool, step: StepView) -> bool {
    exists|k: int|
        0 <= k < n && is_step_of(
            #[trigger] s.rated[k],
            s.ratings[s.rated[k]],
            s.ratings[s.rated[k]].len() as int,
            worn_by(s.equipped, s.rated[k]),
            s.data.items@,
            crafted_only,
            step,
        )
}

proof fn lemma_all_steps(s: StateView, n: int, crafted_only: bool, step: StepView)
    requires
        0 <= n <= s.rated.len(),
    ensures
        all_steps(s, n, crafted_only).contains(step) <==> is_anyones_step(s, n, crafted_only, step),
    decreases n,
{
    let all = all_steps(s, n, crafted_only);
    if n > 0 {
        lemma_all_steps(s, n - 1, crafted_only, step);
        let before = all_steps(s, n - 1, crafted_only);
        let who = s.rated[n - 1];
        let slots = s.ratings[who];
        let gear = worn_by(s.equipped, who);
        let more = character_steps(
            who,
            slots,
            slots.len() as int,
            gear,
            s.data.items@,
            crafted_only,
        );
        lemma_character_steps(
            who,
            slots,
            slots.len() as int,
            gear,
            s.data.items@,
            crafted_only,
            step,
        );
        if before.contains(step) {
            let k = before.index_of(step);
            assert(all[k] == step);
            let a = choose|a: int|
                0 <= a < n - 1 && is_step_of(
                    #[trigger] s.rated[a],
                    s.ratings[s.rated[a]],
                    s.ratings[s.rated[a]].len() as int,
                    worn_by(s.equipped, s.rated[a]),
                    s.data.items@,
                    crafted_only,
                    step,
                );
            assert(s.rated[a] == s.rated[a]);
        }
        if more.contains(step) {
            let k = more.index_of(step);
            assert(all[before.len() + k] == step);
            assert(is_step_of(
                s.rated[n - 1],
                s.ratings[s.rated[n - 1]],
                s.ratings[s.rated[n - 1]].len() as int,
                worn_by(s.equipped, s.rated[n - 1]),
                s.data.items@,
                crafted_only,
                step,
            ));
        }
        if all.contains(step) {
            let k = all.index_of(step);
            if k < before.len() {
                assert(before[k] == step);
            } else {
                assert(more[k - before.len()] == step);
            }
        }
        if is_anyones_step(s, n, crafted_only, step) && !before.contains(step) {
            let a = choose|a: int|
                0 <= a < n && is_step_of(
                    #[trigger] s.rated[a],
                    s.ratings[s.rated[a]],
                    s.ratings[s.rated[a]].len() as int,
                    worn_by(s.equipped, s.rated[a]),
                    s.data.items@,
                    crafted_only,
                    step,
                );
            if a < n - 1 {
                assert(is_anyones_step(s, n - 1, crafted_only, step));
            }
        }
    }
}

/// Every entry of every ranking that beats what is worn is considered, whoever it is for, and
/// nothing else; the highest rated come first.
pub proof fn law_every_upgrade_is_considered(s: StateView, crafted_only: bool, step: StepView)
    ensures
        upgrade_order(s, crafted_only).contains(step) <==> is_anyones_step(
            s,
            s.rated.len() as int,
            crafted_only,
            step,
        ),
        forall|a: int, b: int|
            0 <= a < b < upgrade_order(s, crafted_only).len() ==> (#[trigger] upgrade_order(
                s,
                crafted_only,
            )[a]).rating >= (#[trigger] upgrade_order(s, crafted_only)[b]).rating,
{
    let n = s.rated.len() as int;
    let steps = all_steps(s, n, crafted_only);
    let keys = step_ratings(steps);
    let list = upgrade_order(s, crafted_only);
    lemma_all_steps(s, n, crafted_only, step);
    lemma_keys_are_ordered(keys);
    law_ranking(by_key(keys), keys.len() as int);
    let order = ranked(by_key(keys), steps.len() as int);
    if list.contains(step) {
        let a = list.index_of(step);
        assert(0 <= order[a] < steps.len());
        assert(steps[order[a]] == step);
    }
    if steps.contains(step) {
        let j = steps.index_of(step);
        assert(order.contains(j));
        let a = order.index_of(j);
        assert(list[a] == step);
    }
    assert forall|a: int, b: int| 0 <= a < b < list.len() implies (#[trigger] list[a]).rating >= (
    #[trigger] list[b]).rating by {
        assert(!by_key(keys)(order[a], order[b]));
        assert(keys[order[a]] >= keys[order[b]]);
    }
}

proof fn lemma_first_banked(
    list: Seq<RankedItem>,
    equipped: Option<Seq<char>>,
    bank: Seq<BankItem>,
    from: int,
)
    requires
        0 <= from,
    ensures
        match upgrade_in_bank(list, equipped, bank, from) {
            Some(i) => from <= i < list.len() && is_upgrade(list[i], list, equipped) && bank_holds(
                bank,
                list[i].code@,
            ) && forall|j: int|
                from <= j < i ==> !(is_upgrade(#[trigger] list[j], list, equipped) && bank_holds(
                    bank,
                    list[j].code@,
                )),
            None => forall|j: int|
                from <= j < list.len() ==> !(is_upgrade(#[trigger] list[j], list, equipped)
                    && bank_holds(bank, list[j].code@)),
        },
    decreases list.len() - from,
{
    if from < list.len() && !(is_upgrade(list[from], list, equipped) && bank_holds(
        bank,
        list[from].code@,
    )) {
        lemma_first_banked(list, equipped, bank, from + 1);
    }
}

/// A request waits for someone.
pub open spec fn waits_for(p: Pending, name: Seq<char>, action: ActionView) -> bool {
    exists|i: int| 0 <= i < pending_of(p, name).len() && (#[trigger] pending_of(p, name)[i]).action
        == action
}

/// A look at the bank tells a character to put on, in every slot, the first entry of its ranking
/// that beats what it wears there and lies in the bank.
pub proof fn law_best_upgrade_in_the_bank_is_flagged(
    p: Pending,
    name: Seq<char>,
    slots: Seq<SlotRating>,
    n: int,
    bank: Seq<BankItem>,
    equipped: Map<Seq<char>, Seq<char>>,
    k: int,
    i: int,
)
    requires
        0 <= k < n <= slots.len(),
        0 <= i < slots[k].ranked@.len(),
        is_upgrade(slots[k].ranked@[i], slots[k].ranked@, get_text(equipped, slots[k].slot@)),
        bank_holds(bank, slots[k].ranked@[i].code@),
        forall|j: int|
            0 <= j < i ==> !(is_upgrade(
                #[trigger] slots[k].ranked@[j],
                slots[k].ranked@,
                get_text(equipped, slots[k].slot@),
            ) && bank_holds(bank, slots[k].ranked@[j].code@)),
    ensures
        waits_for(
            flag_slots(p, name, slots, n, bank, equipped),
            name,
            ActionView::Equip {
                slot: slots[k].slot@,
                item_code: slots[k].ranked@[i].code@,
            },
        ),
    decreases n,
{
    let before = flag_slots(p, name, slots, n - 1, bank, equipped);
    let r = slots[n - 1];
    let action = ActionView::Equip {
        slot: slots[k].slot@,
        item_code: slots[k].ranked@[i].code@,
    };
    if k == n - 1 {
        lemma_first_banked(r.ranked@, get_text(equipped, r.slot@), bank, 0);
        assert(upgrade_in_bank(r.ranked@, get_text(equipped, r.slot@), bank, 0) == Some(i));
        law_queuing_keeps_what_waits(before, name, upgrade_flag(r.slot@, r.ranked@[i].code@));
    } else {
        law_best_upgrade_in_the_bank_is_flagged(p, name, slots, n - 1, bank, equipped, k, i);
        if let Some(j) = upgrade_in_bank(r.ranked@, get_text(equipped, r.slot@), bank, 0) {
            let flag = upgrade_flag(r.slot@, r.ranked@[j].code@);
            law_queuing_keeps_what_waits(before, name, flag);
            let a = choose|a: int|
                0 <= a < pending_of(before, name).len() && (
                #[trigger] pending_of(before, name)[a]).action == action;
            let after = flagged(before, name, flag);
            assert(pending_of(after, name)[a] == pending_of(before, name)[a]);
        }
    }
}

/// Whoever waits for food is told once the bank holds some, and no longer waits then; nobody else
/// is told.
pub proof fn law_told_of_food_once_there_is_some(s: StateView)
    ensures
        s.awaiting matches Some(name) ==> {
            &&& food_in_bank(s.data.items@, s.bank) ==> waits_for(
                after_restock(s).pending,
                name,
                ActionView::Heal,
            ) && after_restock(s).awaiting is None
            &&& !food_in_bank(s.data.items@, s.bank) ==> after_restock(s) == s
            &&& forall|other: Seq<char>|
                other != name ==> pending_of(#[trigger] after_restock(s).pending, other)
                    == #[trigger] pending_of(s.pending, other)
        },
        s.awaiting is None ==> after_restock(s) == s,
{
    if let Some(name) = s.awaiting {
        law_queuing_keeps_what_waits(
            s.pending,
            name,
            FlagView { from: "bank"@, action: ActionView::Heal },
        );
    }
}

/// The wishlist's owner is told once the bank holds every ingredient of one craft of something on
/// the list of gear, and otherwise not.
pub proof fn law_told_of_materials_once_they_are_enough(s: StateView)
    ensures
        s.wishlist_owner matches Some(owner) ==> {
            let enough = exists|i: int|
                0 <= i < s.wishlist_equipment.len() && {
                    let code = (#[trigger] s.wishlist_equipment[i])@;
                    recipe_of(s.data.items@, code) is Some && forall|k: int|
                        0 <= k < recipe_of(s.data.items@, code)->0.items@.len() ==> bank_qty(
                            s.bank,
                            (#[trigger] recipe_of(s.data.items@, code)->0.items@[k]).code@,
                        ) >= recipe_of(s.data.items@, code)->0.items@[k].quantity
                };
            &&& enough ==> waits_for(after_wishlist(s).pending, owner, ActionView::CraftGear)
            &&& !enough ==> after_wishlist(s) == s
        },
        s.wishlist_owner is None ==> after_wishlist(s) == s,
{
    if let Some(owner) = s.wishlist_owner {
        law_queuing_keeps_what_waits(
            s.pending,
            owner,
            FlagView { from: "bank"@, action: ActionView::CraftGear },
        );
        let enough = exists|i: int|
            0 <= i < s.wishlist_equipment.len() && {
                let code = (#[trigger] s.wishlist_equipment[i])@;
                recipe_of(s.data.items@, code) is Some && forall|k: int|
                    0 <= k < recipe_of(s.data.items@, code)->0.items@.len() ==> bank_qty(
                        s.bank,
                        (#[trigger] recipe_of(s.data.items@, code)->0.items@[k]).code@,
                    ) >= recipe_of(s.data.items@, code)->0.items@[k].quantity
            };
        if any_craftable(s.data.items@, s.bank, s.wishlist_equipment) {
            let i = choose|i: int|
                0 <= i < s.wishlist_equipment.len() && bank_can_craft(
                    s.data.items@,
                    s.bank,
                    (#[trigger] s.wishlist_equipment[i])@,
                );
            let code = s.wishlist_equipment[i]@;
            assert(bank_can_craft(s.data.items@, s.bank, code));
            assert(enough);
        }
        if enough {
            let i = choose|i: int|
                0 <= i < s.wishlist_equipment.len() && {
                    let code = (#[trigger] s.wishlist_equipment[i])@;
                    recipe_of(s.data.items@, code) is Some && forall|k: int|
                        0 <= k < recipe_of(s.data.items@, code)->0.items@.len() ==> bank_qty(
                            s.bank,
                            (#[trigger] recipe_of(s.data.items@, code)->0.items@[k]).code@,
                        ) >= recipe_of(s.data.items@, code)->0.items@[k].quantity
                };
            assert(bank_can_craft(s.data.items@, s.bank, s.wishlist_equipment[i]@));
        }
    }
}

/// What is worn is taken off, from every slot of an upgrade that is not empty, and from no other.
pub proof fn law_only_filled_slots_are_cleared(
    who: Character,
    upgrades: Seq<(Seq<char>, Seq<char>)>,
    n: int,
    slot: Seq<char>,
)
    requires
        0 <= n <= upgrades.len(),
    ensures
        slots_to_clear(who, upgrades, n).contains(slot) <==> worn_at(who, slot).len() > 0
            && exists|i: int| 0 <= i < n && (#[trigger] upgrades[i]).0 == slot,
    decreases n,
{
    let all = slots_to_clear(who, upgrades, n);
    if n > 0 {
        law_only_filled_slots_are_cleared(who, upgrades, n - 1, slot);
        let before = slots_to_clear(who, upgrades, n - 1);
        if before.contains(slot) {
            let k = before.index_of(slot);
            assert(all[k] == slot);
            let i = choose|i: int| 0 <= i < n - 1 && (#[trigger] upgrades[i]).0 == slot;
            assert(upgrades[i].0 == slot);
        }
        if upgrades[n - 1].0 == slot && worn_at(who, slot).len() > 0 {
            assert(all[before.len() as int] == slot);
        }
        if all.contains(slot) && !before.contains(slot) {
            let k = all.index_of(slot);
            assert(k == before.len());
            assert(upgrades[n - 1].0 == slot);
        }
    }
}

/// How many of the first `n` upgrades are of an item.
pub open spec fn upgrade_count(upgrades: Seq<(Seq<char>, Seq<char>)>, code: Seq<char>, n: int) -> int
    decreases n,
{
    if n <= 0 {
        0
    } else {
        upgrade_count(upgrades, code, n - 1) + if upgrades[n - 1].1 == code {
            1int
        } else {
            0
        }
    }
}

/// An item is withdrawn once for every slot that it goes into.
pub proof fn law_one_is_withdrawn_for_each_slot(
    upgrades: Seq<(Seq<char>, Seq<char>)>,
    n: int,
    code: Seq<char>,
)
    requires
        0 <= n <= upgrades.len(),
        n <= i32::MAX,
    ensures
        wanted(withdrawals_for(upgrades, n), code) == upgrade_count(upgrades, code, n),
        0 <= upgrade_count(upgrades, code, n) <= n,
    decreases n,
{
    if n > 0 {
        law_one_is_withdrawn_for_each_slot(upgrades, n - 1, code);
        super::refining::lemma_bumped(
            withdrawals_for(upgrades, n - 1),
            upgrades[n - 1].1,
            1,
            code,
        );
    }
}

/// What the last of the first `n` upgrades for a slot puts there, if there is one.
pub open spec fn last_for(upgrades: Seq<(Seq<char>, Seq<char>)>, slot: Seq<char>, n: int) -> Option<
    Seq<char>,
>
    decreases n,
{
    if n <= 0 {
        None
    } else if upgrades[n - 1].0 == slot {
        Some(upgrades[n - 1].1)
    } else {
        last_for(upgrades, slot, n - 1)
    }
}

/// What has been put on is on record for the one who put it on, under its slot; everything else on
/// record stays.
pub proof fn law_upgrade_goes_on_record(
    s: StateView,
    name: Seq<char>,
    upgrades: Seq<(Seq<char>, Seq<char>)>,
    n: int,
    slot: Seq<char>,
    other: Seq<char>,
)
    requires
        0 <= n <= upgrades.len(),
        other != name,
    ensures
        get_text(worn_by(recorded(s, name, upgrades, n).equipped, name), slot) == match last_for(
            upgrades,
            slot,
            n,
        ) {
            Some(code) => Some(code),
            None => get_text(worn_by(s.equipped, name), slot),
        },
        worn_by(recorded(s, name, upgrades, n).equipped, other) == worn_by(s.equipped, other),
        recorded(s, name, upgrades, n).pending == s.pending,
        recorded(s, name, upgrades, n).bank == s.bank,
        recorded(s, name, upgrades, n).ratings == s.ratings,
    decreases n,
{
    if n > 0 {
        law_upgrade_goes_on_record(s, name, upgrades, n - 1, slot, other);
    }
}

/// Each kind of flag has its own task.
pub proof fn law_every_flag_has_its_own_task(action: ActionView)
    ensures
        action is Retrieve ==> task_for(action) == FlagTask::FetchItems,
        action is Heal ==> task_for(action) == FlagTask::FetchFood,
        action is CraftGear ==> task_for(action) == FlagTask::Craft,
        action is Merchant ==> task_for(action) == FlagTask::Merchant,
        action is Equip ==> task_for(action) == FlagTask::WithUpgrades,
{
}

/// A character is promoted exactly from the threshold on, in the skill it gathers with.
pub proof fn law_promoted_from_the_threshold_on(who: Character, skill: Seq<char>, fighter: int)
    requires
        fighter >= 0,
    ensures
        is_promoted(who, skill, fighter) <==> level_in(who, skill) >= fighter - fighter % 10 + if fighter
            % 10 < 5 {
            10int
        } else {
            20
        },
{
}

/// Half-tiers are five levels wide and are counted from the bottom.
pub proof fn law_half_tiers_are_five_levels_wide(level: int)
    requires
        level >= 0,
    ensures
        5 * subtier(level) <= level < 5 * (subtier(level) + 1),
{
}

} // verus!
