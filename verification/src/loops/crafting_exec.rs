//! Crafting batches: what to withdraw and craft on one trip.

use vstd::prelude::*;

use super::bank_ops::{deposit_views, INVENTORY_SLOTS};
use super::crafting_plan::{
    asked_for, code_views, crafts_from_supply, crafts_in_supply, entry_views, insert_code,
    lemma_has_code, listed, CraftPlanEntry, EntryView, PlanTier,
};
use super::refining::{bump, bumped, is_tidy, lemma_bumped_adds, stacked, wanted};
use super::supply::{take_from, taken_by, with_added};
use crate::arith::{max_int, sat_i32, saturated};
use crate::table::Table;
use crate::text::contains_code;
use crate::types::{find_item, recipe_of, Character, CraftInfo, CraftIngredient, DepositItem, Item};

verus! {

/// A craft that is sure to fit: the item, the skill that makes it, and how many.
#[derive(Debug)]
pub struct FinalizedCraft {
    pub code: String,
    pub skill: String,
    pub quantity: i32,
}

/// Crafts, as mathematical values: code, skill and quantity.
pub open spec fn final_views(plan: Seq<FinalizedCraft>) -> Seq<(Seq<char>, Seq<char>, int)> {
    plan.map_values(|f: FinalizedCraft| (f.code@, f.skill@, f.quantity as int))
}

/// How far a trip has been planned.
#[verifier::ext_equal]
pub struct Trip {
    /// The items that take up a slot.
    pub slots: Seq<Seq<char>>,
    /// How many items are withdrawn.
    pub total: int,
    pub withdraw: Seq<(Seq<char>, int)>,
    pub plan: Seq<(Seq<char>, Seq<char>, int)>,
    /// What the bank has left.
    pub bank: Map<Seq<char>, i32>,
}

/// How many slots more the first `n` ingredients take.
pub open spec fn new_slots(t: Trip, ings: Seq<CraftIngredient>, n: int) -> int
    decreases n,
{
    if n <= 0 {
        0
    } else {
        new_slots(t, ings, n - 1) + if t.slots.contains(ings[n - 1].code@) {
            0int
        } else {
            1int
        }
    }
}

/// How many items the first `n` ingredients of `qty` crafts are.
pub open spec fn needed(ings: Seq<CraftIngredient>, qty: int, n: int) -> int
    decreases n,
{
    if n <= 0 {
        0
    } else {
        needed(ings, qty, n - 1) + ings[n - 1].quantity * qty
    }
}

/// Whether `qty` crafts fit the slots and the capacity, with a slot for what is made.
pub open spec fn trip_fits(
    t: Trip,
    code: Seq<char>,
    ings: Seq<CraftIngredient>,
    qty: int,
    max_qty: int,
) -> bool {
    let own = if t.slots.contains(code) {
        0int
    } else {
        1int
    };
    let n = ings.len() as int;
    t.slots.len() + own + new_slots(t, ings, n) <= INVENTORY_SLOTS && t.total + needed(
        ings,
        qty,
        n,
    ) <= max_qty
}

/// The most crafts, up to `qty`, that fit; 0 where none do.
pub open spec fn most_in_trip(
    t: Trip,
    code: Seq<char>,
    ings: Seq<CraftIngredient>,
    qty: int,
    max_qty: int,
) -> int
    decreases qty,
{
    if qty <= 0 {
        0
    } else if trip_fits(t, code, ings, qty, max_qty) {
        qty
    } else {
        most_in_trip(t, code, ings, qty - 1, max_qty)
    }
}

/// The trip once the first `n` ingredients of `qty` crafts have been loaded. Only fillers draw
/// down the bank here: for the others that has been done when they were planned.
pub open spec fn loaded(
    t: Trip,
    ings: Seq<CraftIngredient>,
    qty: int,
    filler: bool,
    n: int,
) -> Trip
    decreases n,
{
    if n <= 0 {
        t
    } else {
        let a = loaded(t, ings, qty, filler, n - 1);
        let code = ings[n - 1].code@;
        let need = ings[n - 1].quantity * qty;
        Trip {
            slots: listed(a.slots, code),
            total: sat_i32(a.total + need),
            withdraw: bumped(a.withdraw, code, need),
            bank: if filler {
                with_added(a.bank, code, -need)
            } else {
                a.bank
            },
            ..a
        }
    }
}

/// The trip once one planned craft has been considered.
pub open spec fn trip_step(t: Trip, entry: EntryView, items: Seq<Item>, max_qty: int) -> Trip {
    match recipe_of(items, entry.code) {
        Some(craft) => {
            let ings = craft.items@;
            let len = ings.len() as int;
            let filler = entry.tier == PlanTier::Filler;
            let want = if filler {
                crafts_in_supply(t.bank, ings, len)
            } else {
                entry.quantity
            };
            let qty = most_in_trip(t, entry.code, ings, want, max_qty);
            if qty <= 0 {
                t
            } else {
                let own = Trip { slots: listed(t.slots, entry.code), ..t };
                let a = loaded(own, ings, qty, filler, len);
                Trip { plan: a.plan.push((entry.code, entry.skill, qty)), ..a }
            }
        },
        None => t,
    }
}

/// The trip after the first `n` planned crafts.
pub open spec fn trip_steps(
    t: Trip,
    entries: Seq<EntryView>,
    items: Seq<Item>,
    max_qty: int,
    n: int,
) -> Trip
    decreases n,
{
    if n <= 0 {
        t
    } else {
        trip_step(trip_steps(t, entries, items, max_qty, n - 1), entries[n - 1], items, max_qty)
    }
}

/// How many items one trip may carry: one less than fit, so that there is always a free space.
pub open spec fn trip_capacity(who: Character) -> int {
    max_int(sat_i32(who.inventory_max_items - 1), 0)
}

/// A trip before anything is planned.
pub open spec fn empty_trip(bank: Map<Seq<char>, i32>) -> Trip {
    Trip {
        slots: Seq::empty(),
        total: 0,
        withdraw: Seq::empty(),
        plan: Seq::empty(),
        bank,
    }
}

/// A trip under planning.
struct TripState {
    slots: Vec<String>,
    total: i32,
    withdraw: Vec<DepositItem>,
    plan: Vec<FinalizedCraft>,
    bank: Table<i32>,
}

impl View for TripState {
    type V = Trip;

    closed spec fn view(&self) -> Trip {
        Trip {
            slots: code_views(self.slots@),
            total: self.total as int,
            withdraw: deposit_views(self.withdraw@),
            plan: final_views(self.plan@),
            bank: self.bank@,
        }
    }
}

fn takes_slot(t: &TripState, code: &str) -> (r: bool)
    ensures
        r == t@.slots.contains(code@),
{
    proof {
        lemma_has_code(t.slots@, code@);
    }
    contains_code(&t.slots, code)
}

fn has_room(t: &TripState, code: &str, craft: &CraftInfo, qty: i32, max_qty: i32) -> (r: bool)
    requires
        qty > 0,
    ensures
        r == trip_fits(t@, code@, craft.items@, qty as int, max_qty as int),
{
    let n: usize = craft.items.len();
    let ghost ings = craft.items@;
    let mut slots: u128 = 0;
    let mut items: i128 = 0;
    let mut i: usize = 0;
    while i < n
        invariant
            i <= n,
            n == ings.len(),
            ings == craft.items@,
            qty > 0,
            slots <= i,
            slots == new_slots(t@, ings, i as int),
            items == needed(ings, qty as int, i as int),
            -0x4000_0000_0000_0000 * i <= items <= 0x4000_0000_0000_0000 * i,
        decreases n - i,
    {
        if !takes_slot(t, &craft.items[i].code) {
            slots = slots + 1;
        }
        proof {
            let q = ings[i as int].quantity;
            assert(-0x4000_0000_0000_0000 <= q * qty <= 0x4000_0000_0000_0000)
                by (nonlinear_arith)
                requires
                    i32::MIN <= q <= i32::MAX,
                    0 <= qty <= i32::MAX,
            ;
        }
        items = items + (craft.items[i].quantity as i64 * qty as i64) as i128;
        i += 1;
    }
    let own: u128 = if takes_slot(t, code) {
        0
    } else {
        1
    };
    assert(t@.slots.len() == t.slots@.len());
    t.slots.len() as u128 + own + slots <= INVENTORY_SLOTS as u128 && t.total as i128 + items
        <= max_qty as i128
}

fn load(t: &mut TripState, craft: &CraftInfo, qty: i32, filler: bool)
    requires
        old(t).bank.wf(),
        qty > 0,
    ensures
        final(t).bank.wf(),
        final(t)@ == loaded(
            old(t)@,
            craft.items@,
            qty as int,
            filler,
            craft.items@.len() as int,
        ),
{
    let ghost before = t@;
    let mut i: usize = 0;
    while i < craft.items.len()
        invariant
            i <= craft.items@.len(),
            t.bank.wf(),
            qty > 0,
            t@ == loaded(before, craft.items@, qty as int, filler, i as int),
        decreases craft.items@.len() - i,
    {
        let ing: &CraftIngredient = &craft.items[i];
        proof {
            let q = ing.quantity;
            assert(-0x4000_0000_0000_0000 <= q * qty <= 0x4000_0000_0000_0000)
                by (nonlinear_arith)
                requires
                    i32::MIN <= q <= i32::MAX,
                    0 <= qty <= i32::MAX,
            ;
        }
        let need: i64 = ing.quantity as i64 * qty as i64;
        insert_code(&mut t.slots, &ing.code);
        t.total = saturated(t.total as i64 + need);
        if filler {
            take_from(&mut t.bank, &ing.code, need);
        }
        bump(&mut t.withdraw, &ing.code, need);
        i += 1;
        assert(t@ =~= loaded(before, craft.items@, qty as int, filler, i as int));
    }
}

fn consider(t: &mut TripState, entry: &CraftPlanEntry, items: &[Item], max_qty: i32)
    requires
        old(t).bank.wf(),
    ensures
        final(t).bank.wf(),
        final(t)@ == trip_step(old(t)@, entry@, items@, max_qty as int),
{
    let ghost before = t@;
    let k: usize = match find_item(items, &entry.code) {
        Some(k) => k,
        None => {
            return ;
        },
    };
    let craft: &CraftInfo = match &items[k].craft {
        Some(craft) => craft,
        None => {
            return ;
        },
    };
    let filler: bool = entry.tier == PlanTier::Filler;
    let mut qty: i32 = if filler {
        crafts_from_supply(&t.bank, &craft.items)
    } else {
        entry.quantity
    };
    let ghost ings = craft.items@;
    let ghost most = most_in_trip(before, entry.code@, ings, qty as int, max_qty as int);
    while qty > 0 && !has_room(t, &entry.code, craft, qty, max_qty)
        invariant
            t.bank.wf(),
            t@ == before,
            ings == craft.items@,
            most == most_in_trip(before, entry.code@, ings, qty as int, max_qty as int),
        decreases qty,
    {
        qty = qty - 1;
    }
    if qty > 0 {
        assert(most == qty);
        insert_code(&mut t.slots, &entry.code);
        assert(t@ =~= (Trip { slots: listed(before.slots, entry.code@), ..before }));
        load(t, craft, qty, filler);
        let ghost a = t@;
        let ghost had = t.plan@;
        t.plan.push(
            FinalizedCraft {
                code: entry.code.clone(),
                skill: entry.skill.clone(),
                quantity: qty,
            },
        );
        assert(final_views(t.plan@) =~= final_views(had).push(
            (entry.code@, entry.skill@, qty as int),
        ));
        assert(t@ =~= (Trip { plan: a.plan.push((entry.code@, entry.skill@, qty as int)), ..a }));
    }
}

/// What one trip withdraws and crafts.
#[derive(Debug)]
pub struct CraftingTrip {
    pub withdraw: Vec<DepositItem>,
    pub plan: Vec<FinalizedCraft>,
}

/// Plans one crafting trip: each candidate in turn, as many of it as fit, within the slots (one
/// for everything made) and with a free space left. Upgrades and wishlist crafts have been given
/// their materials already; fillers take what `remaining_bank` has left. Where the trip would
/// withdraw nothing there is nothing to do.
pub fn plan_crafting_trip(
    candidates: &[CraftPlanEntry],
    items: &[Item],
    character: &Character,
    remaining_bank: Table<i32>,
) -> (r: CraftingTrip)
    requires
        remaining_bank.wf(),
    ensures
        ({
            let t = trip_steps(
                empty_trip(remaining_bank@),
                entry_views(candidates@),
                items@,
                trip_capacity(*character),
                candidates@.len() as int,
            );
            &&& deposit_views(r.withdraw@) == t.withdraw
            &&& final_views(r.plan@) == t.plan
        }),
{
    let ghost views = entry_views(candidates@);
    let room: i32 = saturated(character.inventory_max_items as i64 - 1);
    let max_qty: i32 = if room >= 0 {
        room
    } else {
        0
    };
    let ghost start = empty_trip(remaining_bank@);
    let mut t = TripState {
        slots: Vec::new(),
        total: 0,
        withdraw: Vec::new(),
        plan: Vec::new(),
        bank: remaining_bank,
    };
    assert(t@ =~= start);
    let mut i: usize = 0;
    while i < candidates.len()
        invariant
            i <= candidates@.len(),
            views == entry_views(candidates@),
            t.bank.wf(),
            t@ == trip_steps(start, views, items@, max_qty as int, i as int),
        decreases candidates@.len() - i,
    {
        assert(views[i as int] == candidates@[i as int]@);
        consider(&mut t, &candidates[i], items, max_qty);
        i += 1;
    }
    CraftingTrip { withdraw: t.withdraw, plan: t.plan }
}

proof fn lemma_most_fits(
    t: Trip,
    code: Seq<char>,
    ings: Seq<CraftIngredient>,
    qty: int,
    max_qty: int,
)
    ensures
        most_in_trip(t, code, ings, qty, max_qty) > 0 ==> trip_fits(
            t,
            code,
            ings,
            most_in_trip(t, code, ings, qty, max_qty),
            max_qty,
        ) && most_in_trip(t, code, ings, qty, max_qty) <= qty,
    decreases qty,
{
    if qty > 0 && !trip_fits(t, code, ings, qty, max_qty) {
        lemma_most_fits(t, code, ings, qty - 1, max_qty);
    }
}

proof fn lemma_loading(
    t: Trip,
    own: Trip,
    code: Seq<char>,
    ings: Seq<CraftIngredient>,
    qty: int,
    filler: bool,
    n: int,
)
    requires
        0 <= n <= ings.len(),
        qty > 0,
        0 <= t.total,
        own == (Trip { slots: listed(t.slots, code), ..t }),
        takes_only(ings),
    ensures
        loaded(own, ings, qty, filler, n).slots.len() <= own.slots.len() + new_slots(t, ings, n),
        0 <= loaded(own, ings, qty, filler, n).total <= t.total + needed(ings, qty, n),
        loaded(own, ings, qty, filler, n).plan == t.plan,
        forall|c: Seq<char>|
            t.slots.contains(c) ==> #[trigger] loaded(own, ings, qty, filler, n).slots.contains(c),
    decreases n,
{
    if n > 0 {
        lemma_loading(t, own, code, ings, qty, filler, n - 1);
        let a = loaded(own, ings, qty, filler, n - 1);
        let after = loaded(own, ings, qty, filler, n);
        let q = ings[n - 1].quantity as int;
        assert(q * qty >= 0) by (nonlinear_arith)
            requires
                q >= 0,
                qty > 0,
        ;
        assert forall|c: Seq<char>| t.slots.contains(c) implies #[trigger] after.slots.contains(c) by {
            assert(a.slots.contains(c));
            let k = a.slots.index_of(c);
            assert(after.slots[k] == c);
        }
        if t.slots.contains(ings[n - 1].code@) {
            assert(a.slots.contains(ings[n - 1].code@));
        }
    } else {
        assert forall|c: Seq<char>| t.slots.contains(c) implies #[trigger] own.slots.contains(c) by {
            let k = t.slots.index_of(c);
            assert(own.slots[k] == c);
        }
    }
}

/// A recipe takes no ingredient less than nothing.
pub open spec fn takes_only(ings: Seq<CraftIngredient>) -> bool {
    forall|i: int| 0 <= i < ings.len() ==> (#[trigger] ings[i]).quantity >= 0
}

/// A trip keeps to the twenty slots, with one for everything it makes, and leaves at least one free
/// space, whatever is planned, as long as no recipe takes less than nothing of an ingredient.
pub proof fn law_trip_keeps_to_the_budget(
    bank: Map<Seq<char>, i32>,
    entries: Seq<EntryView>,
    items: Seq<Item>,
    max_qty: int,
    n: int,
)
    requires
        0 <= n <= entries.len(),
        0 <= max_qty,
        forall|code: Seq<char>|
            #[trigger] recipe_of(items, code) matches Some(craft) ==> takes_only(craft.items@),
    ensures
        ({
            let t = trip_steps(empty_trip(bank), entries, items, max_qty, n);
            &&& t.slots.len() <= INVENTORY_SLOTS
            &&& 0 <= t.total <= max_qty
        }),
    decreases n,
{
    if n > 0 {
        law_trip_keeps_to_the_budget(bank, entries, items, max_qty, n - 1);
        let t = trip_steps(empty_trip(bank), entries, items, max_qty, n - 1);
        let entry = entries[n - 1];
        if let Some(craft) = recipe_of(items, entry.code) {
            let ings = craft.items@;
            let len = ings.len() as int;
            let filler = entry.tier == PlanTier::Filler;
            let want = if filler {
                crafts_in_supply(t.bank, ings, len)
            } else {
                entry.quantity
            };
            let qty = most_in_trip(t, entry.code, ings, want, max_qty);
            if qty > 0 {
                lemma_most_fits(t, entry.code, ings, want, max_qty);
                let own = Trip { slots: listed(t.slots, entry.code), ..t };
                assert(takes_only(ings));
                lemma_loading(t, own, entry.code, ings, qty, filler, len);
            }
        }
    }
}

/// What the first `n` crafts of a trip take of `c`.
pub open spec fn trip_takes(
    plan: Seq<(Seq<char>, Seq<char>, int)>,
    items: Seq<Item>,
    c: Seq<char>,
    n: int,
) -> int
    decreases n,
{
    if n <= 0 {
        0
    } else {
        trip_takes(plan, items, c, n - 1) + plan[n - 1].2 * asked_for(items, plan[n - 1].0, c)
    }
}

proof fn lemma_trip_takes_pushed(
    plan: Seq<(Seq<char>, Seq<char>, int)>,
    more: (Seq<char>, Seq<char>, int),
    items: Seq<Item>,
    c: Seq<char>,
    n: int,
)
    requires
        n <= plan.len(),
    ensures
        trip_takes(plan.push(more), items, c, n) == trip_takes(plan, items, c, n),
    decreases n,
{
    if n > 0 {
        lemma_trip_takes_pushed(plan, more, items, c, n - 1);
    }
}

proof fn lemma_needed_grows(ings: Seq<CraftIngredient>, qty: int, i: int, n: int)
    requires
        0 <= i <= n <= ings.len(),
        qty > 0,
        takes_only(ings),
    ensures
        needed(ings, qty, i) <= needed(ings, qty, n),
    decreases n,
{
    if i < n {
        lemma_needed_grows(ings, qty, i, n - 1);
        let q = ings[n - 1].quantity as int;
        assert(q * qty >= 0) by (nonlinear_arith)
            requires
                q >= 0,
                qty > 0,
        ;
    }
}

proof fn lemma_loading_adds(
    t: Trip,
    ings: Seq<CraftIngredient>,
    qty: int,
    filler: bool,
    n: int,
    c: Seq<char>,
)
    requires
        0 <= n <= ings.len(),
        qty > 0,
        takes_only(ings),
        is_tidy(t.withdraw),
        0 <= t.total == stacked(t.withdraw, t.withdraw.len() as int),
        t.total + needed(ings, qty, n) <= i32::MAX,
    ensures
        ({
            let a = loaded(t, ings, qty, filler, n);
            &&& is_tidy(a.withdraw)
            &&& a.total == stacked(a.withdraw, a.withdraw.len() as int)
            &&& a.total == t.total + needed(ings, qty, n)
            &&& wanted(a.withdraw, c) == wanted(t.withdraw, c) + qty * taken_by(ings, c, n)
            &&& a.plan == t.plan
        }),
    decreases n,
{
    if n > 0 {
        let ing = ings[n - 1];
        let q = ing.quantity as int;
        let before = taken_by(ings, c, n - 1);
        lemma_needed_grows(ings, qty, n - 1, n);
        lemma_needed_grows(ings, qty, 0, n - 1);
        lemma_loading_adds(t, ings, qty, filler, n - 1, c);
        assert(q * qty >= 0) by (nonlinear_arith)
            requires
                q >= 0,
                qty > 0,
        ;
        assert(qty * (before + q) == qty * before + q * qty) by (nonlinear_arith);
        let a = loaded(t, ings, qty, filler, n - 1);
        lemma_bumped_adds(a.withdraw, ing.code@, q * qty, c);
    } else {
        assert(qty * 0 == 0) by (nonlinear_arith);
    }
}

/// A trip withdraws exactly what its crafts take: of every code as much as all of them together ask
/// for, in one stack. The stacks come to what is counted against the capacity.
pub proof fn law_trip_withdraws_what_it_crafts_from(
    bank: Map<Seq<char>, i32>,
    entries: Seq<EntryView>,
    items: Seq<Item>,
    max_qty: int,
    n: int,
    c: Seq<char>,
)
    requires
        0 <= n <= entries.len(),
        0 <= max_qty <= i32::MAX,
        forall|code: Seq<char>|
            #[trigger] recipe_of(items, code) matches Some(craft) ==> takes_only(craft.items@),
    ensures
        ({
            let t = trip_steps(empty_trip(bank), entries, items, max_qty, n);
            &&& is_tidy(t.withdraw)
            &&& wanted(t.withdraw, c) == trip_takes(t.plan, items, c, t.plan.len() as int)
            &&& t.total == stacked(t.withdraw, t.withdraw.len() as int)
        }),
    decreases n,
{
    if n > 0 {
        law_trip_withdraws_what_it_crafts_from(bank, entries, items, max_qty, n - 1, c);
        law_trip_keeps_to_the_budget(bank, entries, items, max_qty, n - 1);
        let t = trip_steps(empty_trip(bank), entries, items, max_qty, n - 1);
        let entry = entries[n - 1];
        if let Some(craft) = recipe_of(items, entry.code) {
            let ings = craft.items@;
            let len = ings.len() as int;
            let filler = entry.tier == PlanTier::Filler;
            let want = if filler {
                crafts_in_supply(t.bank, ings, len)
            } else {
                entry.quantity
            };
            let qty = most_in_trip(t, entry.code, ings, want, max_qty);
            if qty > 0 {
                lemma_most_fits(t, entry.code, ings, want, max_qty);
                let own = Trip { slots: listed(t.slots, entry.code), ..t };
                assert(takes_only(ings));
                lemma_loading_adds(own, ings, qty, filler, len, c);
                let a = loaded(own, ings, qty, filler, len);
                lemma_trip_takes_pushed(
                    a.plan,
                    (entry.code, entry.skill, qty),
                    items,
                    c,
                    a.plan.len() as int,
                );
            }
        }
    }
}

} // verus!
