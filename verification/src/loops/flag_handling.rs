//! Acting on flags. All upgrades that wait are handled on a single trip to the bank: one call to
//! take off, one to withdraw, one to put on.

use vstd::prelude::*;

use super::bank_ops::deposit_views;
use super::refining::{bump, bumped};
use super::utility::equip_views;
use crate::flags::{
    flag_views, worn_by, ActionView, Flag, FlagAction, FlagView, GameState, StateView,
};
use crate::text::same;
use crate::types::{Character, DepositItem, EquipBody, UnequipBody};

verus! {

/// What a character wears in a slot; nothing for a name that is no slot.
pub open spec fn worn_at(who: Character, slot: Seq<char>) -> Seq<char> {
    if slot == "weapon"@ {
        who.weapon_slot@
    } else if slot == "shield"@ {
        who.shield_slot@
    } else if slot == "helmet"@ {
        who.helmet_slot@
    } else if slot == "body_armor"@ {
        who.body_armor_slot@
    } else if slot == "leg_armor"@ {
        who.leg_armor_slot@
    } else if slot == "boots"@ {
        who.boots_slot@
    } else if slot == "ring1"@ {
        who.ring1_slot@
    } else if slot == "ring2"@ {
        who.ring2_slot@
    } else if slot == "amulet"@ {
        who.amulet_slot@
    } else if slot == "artifact1"@ {
        who.artifact1_slot@
    } else if slot == "artifact2"@ {
        who.artifact2_slot@
    } else if slot == "artifact3"@ {
        who.artifact3_slot@
    } else if slot == "utility1"@ {
        who.utility1_slot@
    } else if slot == "utility2"@ {
        who.utility2_slot@
    } else if slot == "rune"@ {
        who.rune_slot@
    } else if slot == "bag"@ {
        who.bag_slot@
    } else {
        ""@
    }
}

/// What a character wears in a slot; nothing for a name that is no slot.
pub fn slot_value<'a>(character: &'a Character, slot: &str) -> (r: &'a str)
    ensures
        r@ == worn_at(*character, slot@),
{
    if same(slot, "weapon") {
        character.weapon_slot.as_str()
    } else if same(slot, "shield") {
        character.shield_slot.as_str()
    } else if same(slot, "helmet") {
        character.helmet_slot.as_str()
    } else if same(slot, "body_armor") {
        character.body_armor_slot.as_str()
    } else if same(slot, "leg_armor") {
        character.leg_armor_slot.as_str()
    } else if same(slot, "boots") {
        character.boots_slot.as_str()
    } else if same(slot, "ring1") {
        character.ring1_slot.as_str()
    } else if same(slot, "ring2") {
        character.ring2_slot.as_str()
    } else if same(slot, "amulet") {
        character.amulet_slot.as_str()
    } else if same(slot, "artifact1") {
        character.artifact1_slot.as_str()
    } else if same(slot, "artifact2") {
        character.artifact2_slot.as_str()
    } else if same(slot, "artifact3") {
        character.artifact3_slot.as_str()
    } else if same(slot, "utility1") {
        character.utility1_slot.as_str()
    } else if same(slot, "utility2") {
        character.utility2_slot.as_str()
    } else if same(slot, "rune") {
        character.rune_slot.as_str()
    } else if same(slot, "bag") {
        character.bag_slot.as_str()
    } else {
        ""
    }
}

/// An upgrade to put on: a slot and an item.
#[derive(Debug)]
pub struct Upgrade {
    pub slot: String,
    pub item_code: String,
}

/// Upgrades, as mathematical values.
pub open spec fn upgrade_pairs(upgrades: Seq<Upgrade>) -> Seq<(Seq<char>, Seq<char>)> {
    upgrades.map_values(|u: Upgrade| (u.slot@, u.item_code@))
}

/// The upgrades among the first `n` flags.
pub open spec fn upgrades_in(flags: Seq<FlagView>, n: int) -> Seq<(Seq<char>, Seq<char>)>
    decreases n,
{
    if n <= 0 {
        Seq::empty()
    } else {
        match flags[n - 1].action {
            ActionView::Equip { slot, item_code } => upgrades_in(flags, n - 1).push(
                (slot, item_code),
            ),
            _ => upgrades_in(flags, n - 1),
        }
    }
}

/// The other flags among the first `n`.
pub open spec fn others_in(flags: Seq<FlagView>, n: int) -> Seq<FlagView>
    decreases n,
{
    if n <= 0 {
        Seq::empty()
    } else if flags[n - 1].action is Equip {
        others_in(flags, n - 1)
    } else {
        others_in(flags, n - 1).push(flags[n - 1])
    }
}

/// Parts the upgrades, which are handled together, from the other flags.
pub fn split_flags(pending: Vec<Flag>) -> (r: (Vec<Upgrade>, Vec<Flag>))
    ensures
        upgrade_pairs(r.0@) == upgrades_in(flag_views(pending@), pending@.len() as int),
        flag_views(r.1@) == others_in(flag_views(pending@), pending@.len() as int),
{
    let ghost all = pending@;
    let ghost views = flag_views(all);
    let mut rest: Vec<Flag> = pending;
    let mut upgrades: Vec<Upgrade> = Vec::new();
    let mut others: Vec<Flag> = Vec::new();
    let n: usize = rest.len();
    let mut i: usize = 0;
    assert(upgrade_pairs(upgrades@) =~= Seq::empty());
    assert(flag_views(others@) =~= Seq::empty());
    assert(rest@ =~= all.skip(0));
    while i < n
        invariant
            i <= n,
            n == all.len(),
            views == flag_views(all),
            rest@ == all.skip(i as int),
            upgrade_pairs(upgrades@) == upgrades_in(views, i as int),
            flag_views(others@) == others_in(views, i as int),
        decreases n - i,
    {
        let flag: Flag = rest.remove(0);
        assert(flag == all[i as int]);
        assert(views[i as int] == flag@);
        assert(rest@ =~= all.skip(i + 1));
        match flag.action {
            FlagAction::EquipUpgrade { slot, item_code } => {
                let ghost had = upgrades@;
                upgrades.push(Upgrade { slot, item_code });
                assert(upgrade_pairs(upgrades@) =~= upgrade_pairs(had).push((slot@, item_code@)));
            },
            other => {
                let ghost had = others@;
                let kept = Flag { from_character: flag.from_character, action: other };
                others.push(kept);
                assert(flag_views(others@) =~= flag_views(had).push(kept@));
            },
        }
        i += 1;
    }
    (upgrades, others)
}

/// No flag is lost: each is either an upgrade or among the others, which hold no upgrade.
pub proof fn law_no_flag_is_lost(flags: Seq<FlagView>, n: int)
    requires
        0 <= n <= flags.len(),
    ensures
        upgrades_in(flags, n).len() + others_in(flags, n).len() == n,
        forall|i: int|
            0 <= i < others_in(flags, n).len() ==> !((#[trigger] others_in(flags, n)[i]).action
                is Equip),
    decreases n,
{
    if n > 0 {
        law_no_flag_is_lost(flags, n - 1);
        let before = others_in(flags, n - 1);
        assert forall|i: int| 0 <= i < others_in(flags, n).len() implies !((
        #[trigger] others_in(flags, n)[i]).action is Equip) by {
            if i < before.len() {
                assert(!(before[i].action is Equip));
            }
        }
    }
}

/// The slots of the first `n` upgrades that are not empty.
pub open spec fn slots_to_clear(
    who: Character,
    upgrades: Seq<(Seq<char>, Seq<char>)>,
    n: int,
) -> Seq<Seq<char>>
    decreases n,
{
    if n <= 0 {
        Seq::empty()
    } else if worn_at(who, upgrades[n - 1].0).len() > 0 {
        slots_to_clear(who, upgrades, n - 1).push(upgrades[n - 1].0)
    } else {
        slots_to_clear(who, upgrades, n - 1)
    }
}

/// What to take off, as mathematical values: slot and quantity.
pub open spec fn unequip_views(bodies: Seq<UnequipBody>) -> Seq<(Seq<char>, int)> {
    bodies.map_values(|b: UnequipBody| (b.slot@, b.quantity as int))
}

/// One from each slot.
pub open spec fn one_each(slots: Seq<Seq<char>>) -> Seq<(Seq<char>, int)> {
    slots.map_values(|s: Seq<char>| (s, 1int))
}

/// What to take off before the upgrades are put on: one item from each of their slots that is not
/// empty.
pub fn unequip_bodies(character: &Character, upgrades: &[Upgrade]) -> (r: Vec<UnequipBody>)
    ensures
        unequip_views(r@) == one_each(
            slots_to_clear(*character, upgrade_pairs(upgrades@), upgrades@.len() as int),
        ),
{
    let ghost pairs = upgrade_pairs(upgrades@);
    let mut out: Vec<UnequipBody> = Vec::new();
    let mut i: usize = 0;
    assert(unequip_views(out@) =~= one_each(Seq::empty()));
    while i < upgrades.len()
        invariant
            i <= upgrades@.len(),
            pairs == upgrade_pairs(upgrades@),
            unequip_views(out@) == one_each(slots_to_clear(*character, pairs, i as int)),
        decreases upgrades@.len() - i,
    {
        assert(pairs[i as int].0 == upgrades@[i as int].slot@);
        if !slot_value(character, &upgrades[i].slot).is_empty() {
            let ghost had = out@;
            let ghost before = slots_to_clear(*character, pairs, i as int);
            out.push(UnequipBody { slot: upgrades[i].slot.clone(), quantity: 1 });
            assert(unequip_views(out@) =~= unequip_views(had).push((pairs[i as int].0, 1int)));
            assert(one_each(before.push(pairs[i as int].0)) =~= one_each(before).push(
                (pairs[i as int].0, 1int),
            ));
        }
        i += 1;
    }
    out
}

/// The withdrawals for the first `n` upgrades: one of each item for each slot it goes into.
pub open spec fn withdrawals_for(upgrades: Seq<(Seq<char>, Seq<char>)>, n: int) -> Seq<
    (Seq<char>, int),
>
    decreases n,
{
    if n <= 0 {
        Seq::empty()
    } else {
        bumped(withdrawals_for(upgrades, n - 1), upgrades[n - 1].1, 1)
    }
}

/// What to withdraw for the upgrades. Items are put on from the inventory, so each has to be
/// fetched first; one that goes into several slots is fetched as often.
pub fn upgrade_withdrawals(upgrades: &[Upgrade]) -> (r: Vec<DepositItem>)
    ensures
        deposit_views(r@) == withdrawals_for(upgrade_pairs(upgrades@), upgrades@.len() as int),
{
    let ghost pairs = upgrade_pairs(upgrades@);
    let mut out: Vec<DepositItem> = Vec::new();
    let mut i: usize = 0;
    assert(deposit_views(out@) =~= Seq::empty());
    while i < upgrades.len()
        invariant
            i <= upgrades@.len(),
            pairs == upgrade_pairs(upgrades@),
            deposit_views(out@) == withdrawals_for(pairs, i as int),
        decreases upgrades@.len() - i,
    {
        assert(pairs[i as int].1 == upgrades@[i as int].item_code@);
        bump(&mut out, &upgrades[i].item_code, 1);
        i += 1;
    }
    out
}

/// What to put on: one item in each slot.
pub fn equip_bodies(upgrades: &[Upgrade]) -> (r: Vec<EquipBody>)
    ensures
        equip_views(r@) == upgrade_pairs(upgrades@).map_values(
            |u: (Seq<char>, Seq<char>)| (u.0, u.1, 1int),
        ),
{
    let ghost target = upgrade_pairs(upgrades@).map_values(
        |u: (Seq<char>, Seq<char>)| (u.0, u.1, 1int),
    );
    let mut out: Vec<EquipBody> = Vec::new();
    let mut i: usize = 0;
    assert(equip_views(out@) =~= target.take(0));
    while i < upgrades.len()
        invariant
            i <= upgrades@.len(),
            target == upgrade_pairs(upgrades@).map_values(
                |u: (Seq<char>, Seq<char>)| (u.0, u.1, 1int),
            ),
            equip_views(out@) == target.take(i as int),
        decreases upgrades@.len() - i,
    {
        let ghost had = out@;
        out.push(
            EquipBody {
                code: upgrades[i].item_code.clone(),
                slot: upgrades[i].slot.clone(),
                quantity: 1,
            },
        );
        assert(equip_views(out@) =~= equip_views(had).push(target[i as int]));
        i += 1;
        assert(target.take(i as int) =~= target.take(i - 1).push(target[i - 1]));
    }
    assert(target.take(i as int) =~= target);
    out
}

/// The state once the first `n` upgrades have been recorded as worn by `name`.
pub open spec fn recorded(
    s: StateView,
    name: Seq<char>,
    upgrades: Seq<(Seq<char>, Seq<char>)>,
    n: int,
) -> StateView
    decreases n,
{
    if n <= 0 {
        s
    } else {
        let before = recorded(s, name, upgrades, n - 1);
        StateView {
            equipped: before.equipped.insert(
                name,
                worn_by(before.equipped, name).insert(upgrades[n - 1].0, upgrades[n - 1].1),
            ),
            ..before
        }
    }
}

/// Records the upgrades as worn right after they were put on, so that a spare copy in the bank is
/// not flagged again.
pub fn record_upgrades(state: &mut GameState, name: &str, upgrades: &[Upgrade])
    requires
        old(state).wf(),
    ensures
        final(state).wf(),
        final(state)@ == recorded(
            old(state)@,
            name@,
            upgrade_pairs(upgrades@),
            upgrades@.len() as int,
        ),
{
    let ghost pairs = upgrade_pairs(upgrades@);
    let ghost before = state@;
    let mut i: usize = 0;
    while i < upgrades.len()
        invariant
            i <= upgrades@.len(),
            pairs == upgrade_pairs(upgrades@),
            state.wf(),
            state@ == recorded(before, name@, pairs, i as int),
        decreases upgrades@.len() - i,
    {
        assert(pairs[i as int] == (upgrades@[i as int].slot@, upgrades@[i as int].item_code@));
        state.set_equipped_slot(name, &upgrades[i].slot, &upgrades[i].item_code);
        i += 1;
    }
}

/// What a flag other than an upgrade has a character do at the bank.
#[derive(Debug, Clone, Copy, PartialEq, Eq, Structural)]
pub enum FlagTask {
    /// Take note of the items that are asked for.
    FetchItems,
    /// Stock up on food.
    FetchFood,
    /// Craft until the materials run out, then share the new wishlist.
    Craft,
    /// Run the merchant's errand.
    Merchant,
    /// Part of the trip for upgrades.
    WithUpgrades,
}

/// What a flag has a character do.
pub open spec fn task_for(action: ActionView) -> FlagTask {
    match action {
        ActionView::Retrieve(_) => FlagTask::FetchItems,
        ActionView::Heal => FlagTask::FetchFood,
        ActionView::CraftGear => FlagTask::Craft,
        ActionView::Merchant => FlagTask::Merchant,
        ActionView::Equip { .. } => FlagTask::WithUpgrades,
    }
}

/// What a flag has a character do.
pub fn flag_task(action: &FlagAction) -> (r: FlagTask)
    ensures
        r == task_for(action@),
{
    match action {
        FlagAction::RetrieveFromBank(_) => FlagTask::FetchItems,
        FlagAction::HealingConsumablesAvailable => FlagTask::FetchFood,
        FlagAction::CraftWishlistGearAvailable => FlagTask::Craft,
        FlagAction::MerchantSummon => FlagTask::Merchant,
        FlagAction::EquipUpgrade { .. } => FlagTask::WithUpgrades,
    }
}

/// Whether a character goes back to where it was before it acted on its flags: not where an upgrade
/// has sent it to a new target, and not where it never left.
pub fn must_return(repositioned: bool, character: &Character, x: i32, y: i32) -> (r: bool)
    ensures
        r == (!repositioned && (character.x != x || character.y != y)),
{
    !repositioned && (character.x != x || character.y != y)
}

} // verus!
