//! Refining: turning raw materials into bars, planks and meals, as many as one trip allows.

use vstd::prelude::*;

use super::bank_ops::{deposit_views, is_used, INVENTORY_SLOTS};
use super::crafting_plan::{code_views, insert_code, lemma_has_code, listed};
use super::market::{stock, stock_of};
use super::supply::{add_to, is_plain_recipe, lemma_taken_by, taken_by, with_added};
use crate::arith::{
    lemma_quot_bound, max_i32, max_int, min_int, quot, sat_i32, saturated,
};
use crate::formulas::crafting::{crafted_by, is_crafted_by};
use crate::optimize::skills::{level_in, skill_level};
use crate::ranking::{
    by_key, is_ranking, law_ranking, lemma_keys_are_ordered, places, rank_by_key, ranked,
};
use crate::table::Table;
use crate::text::{contains_code, same};
use crate::types::{
    bank_qty, held, quantity_held, quantity_in, BankItem, Character, CraftInfo, CraftIngredient,
    DepositItem, InventorySlot, Item,
};

verus! {

/// The first stack of `code` in a list, from place `from` on.
pub open spec fn stack_of(list: Seq<(Seq<char>, int)>, code: Seq<char>, from: int) -> Option<int>
    decreases list.len() - from,
{
    if from < 0 || from >= list.len() {
        None
    } else if list[from].0 == code {
        Some(from)
    } else {
        stack_of(list, code, from + 1)
    }
}

/// A list of stacks with `qty` more of `code`.
pub open spec fn bumped(list: Seq<(Seq<char>, int)>, code: Seq<char>, qty: int) -> Seq<
    (Seq<char>, int),
> {
    match stack_of(list, code, 0) {
        Some(i) => list.update(i, (code, sat_i32(list[i].1 + qty))),
        None => list.push((code, sat_i32(qty))),
    }
}

/// Adds `qty` of `code` to a list of stacks.
pub fn bump(list: &mut Vec<DepositItem>, code: &str, qty: i64)
    requires
        -0x4000_0000_0000_0000 <= qty <= 0x4000_0000_0000_0000,
    ensures
        deposit_views(final(list)@) == bumped(deposit_views(old(list)@), code@, qty as int),
{
    let ghost before = deposit_views(list@);
    let mut i: usize = 0;
    while i < list.len()
        invariant
            i <= list@.len(),
            *list == *old(list),
            before == deposit_views(list@),
            -0x4000_0000_0000_0000 <= qty <= 0x4000_0000_0000_0000,
            stack_of(before, code@, 0) == stack_of(before, code@, i as int),
        decreases list@.len() - i,
    {
        assert(before[i as int].0 == list@[i as int].code@);
        if same(&list[i].code, code) {
            let sum: i32 = saturated(list[i].quantity as i64 + qty);
            let stack = DepositItem { code: list[i].code.clone(), quantity: sum };
            list.set(i, stack);
            assert(deposit_views(list@) =~= bumped(before, code@, qty as int));
            return ;
        }
        i += 1;
    }
    list.push(DepositItem { code: code.to_owned(), quantity: saturated(qty) });
    assert(deposit_views(list@) =~= bumped(before, code@, qty as int));
}

/// What a batch is planned from.
pub struct Means {
    pub inventory: Seq<InventorySlot>,
    pub bank: Seq<BankItem>,
    pub reserved: Map<Seq<char>, i32>,
    pub max_items: int,
}

/// How far a batch has been planned.
#[verifier::ext_equal]
pub struct Batch {
    /// How much of each item that is carried no recipe of the batch has taken yet.
    pub spare: Map<Seq<char>, i32>,
    /// The items that will take up a slot.
    pub slots: Seq<Seq<char>>,
    /// How many items the inventory will hold.
    pub total: int,
    /// What is left of each ingredient that a recipe of the batch takes.
    pub supply: Map<Seq<char>, i32>,
    /// The reservations that stood in the way of some recipe.
    pub relevant: Map<Seq<char>, i32>,
    pub crafts: Seq<(Seq<char>, int)>,
    pub withdraw: Seq<(Seq<char>, int)>,
}

/// What of `code` may be used at all: held and banked, less what is reserved.
pub open spec fn usable(m: Means, code: Seq<char>) -> int {
    max_int(sat_i32(held(m.inventory, code) + bank_qty(m.bank, code) - stock(m.reserved, code)), 0)
}

/// What of `code` the recipes planned so far leave.
pub open spec fn left(b: Batch, m: Means, code: Seq<char>) -> int {
    if b.supply.contains_key(code) {
        b.supply[code] as int
    } else {
        usable(m, code)
    }
}

/// How many crafts what is left of the first `n` ingredients is enough for; 0 of none.
pub open spec fn crafts_left(b: Batch, m: Means, ings: Seq<CraftIngredient>, n: int) -> int
    decreases n,
{
    let share = quot(left(b, m, ings[n - 1].code@), max_int(ings[n - 1].quantity as int, 1));
    if n <= 0 {
        0
    } else if n == 1 {
        share
    } else {
        min_int(crafts_left(b, m, ings, n - 1), share)
    }
}

/// How many slots and items more the first `n` ingredients of `qty` crafts take, once what the
/// batch has left of what is carried is used up.
pub open spec fn extra(b: Batch, ings: Seq<CraftIngredient>, qty: int, n: int) -> (int, int)
    decreases n,
{
    if n <= 0 {
        (0, 0)
    } else {
        let (slots, items) = extra(b, ings, qty, n - 1);
        let need = ings[n - 1].quantity * qty;
        let have = stock(b.spare, ings[n - 1].code@);
        if need > have {
            (
                slots + if b.slots.contains(ings[n - 1].code@) {
                    0int
                } else {
                    1int
                },
                items + need - have,
            )
        } else {
            (slots, items)
        }
    }
}

/// Whether `qty` crafts of a recipe fit the slots and the capacity, with a slot for what is made.
pub open spec fn fits(b: Batch, m: Means, code: Seq<char>, ings: Seq<CraftIngredient>, qty: int) -> bool {
    let (slots, items) = extra(b, ings, qty, ings.len() as int);
    let own = if b.slots.contains(code) {
        0int
    } else {
        1int
    };
    b.slots.len() + own + slots <= INVENTORY_SLOTS && b.total + items <= m.max_items
}

/// The most crafts, up to `qty`, that fit; 0 where none do.
pub open spec fn most_that_fit(
    b: Batch,
    m: Means,
    code: Seq<char>,
    ings: Seq<CraftIngredient>,
    qty: int,
) -> int
    decreases qty,
{
    if qty <= 0 {
        0
    } else if fits(b, m, code, ings, qty) {
        qty
    } else {
        most_that_fit(b, m, code, ings, qty - 1)
    }
}

/// The batch once the first `n` ingredients of `qty` crafts have been set aside.
pub open spec fn set_aside(b: Batch, m: Means, ings: Seq<CraftIngredient>, qty: int, n: int) -> Batch
    decreases n,
{
    if n <= 0 {
        b
    } else {
        let a = set_aside(b, m, ings, qty, n - 1);
        let code = ings[n - 1].code@;
        let need = ings[n - 1].quantity * qty;
        let have = stock(a.spare, code);
        let drawn = Batch {
            supply: a.supply.insert(code, sat_i32(left(a, m, code) - need) as i32),
            ..a
        };
        if need > have {
            Batch {
                spare: a.spare.insert(code, 0),
                slots: listed(a.slots, code),
                total: sat_i32(a.total + need - have),
                withdraw: bumped(a.withdraw, code, need - have),
                ..drawn
            }
        } else {
            Batch { spare: a.spare.insert(code, sat_i32(have - need) as i32), ..drawn }
        }
    }
}

/// The reservations noted once the first `n` ingredients have been considered.
pub open spec fn noted(
    relevant: Map<Seq<char>, i32>,
    m: Means,
    ings: Seq<CraftIngredient>,
    n: int,
) -> Map<Seq<char>, i32>
    decreases n,
{
    if n <= 0 {
        relevant
    } else {
        let before = noted(relevant, m, ings, n - 1);
        let code = ings[n - 1].code@;
        if stock(m.reserved, code) > 0 {
            before.insert(code, stock(m.reserved, code) as i32)
        } else {
            before
        }
    }
}

/// How many crafts of a recipe materials and room allow, after the recipes planned so far.
pub open spec fn crafts_planned(b: Batch, m: Means, item: Item) -> int {
    let ings = item.craft->0.items@;
    let want = crafts_left(b, m, ings, ings.len() as int);
    most_that_fit(b, m, item.code@, ings, want)
}

/// The batch once a recipe has been considered: as many crafts of it as materials and room allow.
pub open spec fn refine_step(b: Batch, m: Means, item: Item) -> Batch {
    let ings = item.craft->0.items@;
    let len = ings.len() as int;
    let qty = crafts_planned(b, m, item);
    let a = set_aside(b, m, ings, qty, len);
    let done = if qty > 0 {
        Batch {
            slots: listed(a.slots, item.code@),
            crafts: a.crafts.push((item.code@, qty)),
            ..a
        }
    } else {
        b
    };
    Batch { relevant: noted(done.relevant, m, ings, len), ..done }
}

/// The batch after the first `n` recipes in order.
pub open spec fn refine_steps(b: Batch, m: Means, items: Seq<Item>, order: Seq<int>, n: int) -> Batch
    decreases n,
{
    if n <= 0 {
        b
    } else {
        refine_step(refine_steps(b, m, items, order, n - 1), m, items[order[n - 1]])
    }
}

/// Whether a character can follow an item's recipe of `skill`; a recipe without a level asks for
/// none.
pub open spec fn is_refinable(item: Item, skill: Seq<char>, who: Character) -> bool {
    crafted_by(item, skill) && level_in(who, skill) >= match item.craft->0.level {
        Some(level) => level as int,
        None => 0,
    }
}

/// Which of the first `n` items are made by recipes of `skill` that the character can follow.
pub open spec fn refinable(items: Seq<Item>, skill: Seq<char>, who: Character, n: int) -> Seq<int>
    decreases n,
{
    if n <= 0 {
        Seq::empty()
    } else if is_refinable(items[n - 1], skill, who) {
        refinable(items, skill, who, n - 1).push(n - 1)
    } else {
        refinable(items, skill, who, n - 1)
    }
}

/// The levels of the picked items.
pub open spec fn item_levels(picks: Seq<int>, items: Seq<Item>) -> Seq<i64> {
    picks.map_values(|i: int| items[i].level as i64)
}

/// The recipes of `skill` that the character can follow, highest level first.
pub open spec fn refining_order(items: Seq<Item>, skill: Seq<char>, who: Character) -> Seq<int> {
    let picks = refinable(items, skill, who, items.len() as int);
    ranked(by_key(item_levels(picks, items)), picks.len() as int).map_values(|j: int| picks[j])
}

/// What the first `n` slots hold, by code.
pub open spec fn carried_by_code(inventory: Seq<InventorySlot>, n: int) -> Map<Seq<char>, i32>
    decreases n,
{
    if n <= 0 {
        Map::empty()
    } else if is_used(inventory[n - 1]) {
        with_added(
            carried_by_code(inventory, n - 1),
            inventory[n - 1].code@,
            inventory[n - 1].quantity as int,
        )
    } else {
        carried_by_code(inventory, n - 1)
    }
}

/// The codes that the first `n` slots hold.
pub open spec fn carried_codes(inventory: Seq<InventorySlot>, n: int) -> Seq<Seq<char>>
    decreases n,
{
    if n <= 0 {
        Seq::empty()
    } else if is_used(inventory[n - 1]) {
        listed(carried_codes(inventory, n - 1), inventory[n - 1].code@)
    } else {
        carried_codes(inventory, n - 1)
    }
}

/// How many items the first `n` slots hold.
pub open spec fn carried_count(inventory: Seq<InventorySlot>, n: int) -> int
    decreases n,
{
    if n <= 0 {
        0
    } else if is_used(inventory[n - 1]) {
        sat_i32(carried_count(inventory, n - 1) + inventory[n - 1].quantity)
    } else {
        carried_count(inventory, n - 1)
    }
}

/// The batch before anything is planned.
pub open spec fn empty_batch(inventory: Seq<InventorySlot>) -> Batch {
    let n = inventory.len() as int;
    Batch {
        spare: carried_by_code(inventory, n),
        slots: carried_codes(inventory, n),
        total: carried_count(inventory, n),
        supply: Map::empty(),
        relevant: Map::empty(),
        crafts: Seq::empty(),
        withdraw: Seq::empty(),
    }
}

/// The batch that the recipes of `skill` make up.
pub open spec fn refining_batch(items: Seq<Item>, m: Means, who: Character, skill: Seq<char>) -> Batch {
    let order = refining_order(items, skill, who);
    refine_steps(empty_batch(m.inventory), m, items, order, order.len() as int)
}

/// A batch under planning.
struct BatchState {
    spare: Table<i32>,
    slots: Vec<String>,
    total: i32,
    supply: Table<i32>,
    relevant: Table<i32>,
    crafts: Vec<(String, i32)>,
    withdraw: Vec<DepositItem>,
}

/// Crafts, as mathematical values.
pub open spec fn craft_views(crafts: Seq<(String, i32)>) -> Seq<(Seq<char>, int)> {
    crafts.map_values(|c: (String, i32)| (c.0@, c.1 as int))
}

impl View for BatchState {
    type V = Batch;

    closed spec fn view(&self) -> Batch {
        Batch {
            spare: self.spare@,
            slots: code_views(self.slots@),
            total: self.total as int,
            supply: self.supply@,
            relevant: self.relevant@,
            crafts: craft_views(self.crafts@),
            withdraw: deposit_views(self.withdraw@),
        }
    }
}

impl BatchState {
    spec fn wf(&self) -> bool {
        self.spare.wf() && self.supply.wf() && self.relevant.wf()
    }

    fn start(inventory: &[InventorySlot]) -> (b: Self)
        ensures
            b.wf(),
            b@ == empty_batch(inventory@),
    {
        let mut spare: Table<i32> = Table::new();
        let mut slots: Vec<String> = Vec::new();
        let mut total: i32 = 0;
        let mut i: usize = 0;
        assert(code_views(slots@) =~= Seq::empty());
        while i < inventory.len()
            invariant
                i <= inventory@.len(),
                spare.wf(),
                spare@ == carried_by_code(inventory@, i as int),
                code_views(slots@) == carried_codes(inventory@, i as int),
                total == carried_count(inventory@, i as int),
            decreases inventory@.len() - i,
        {
            let slot: &InventorySlot = &inventory[i];
            if slot.quantity > 0 && !slot.code.as_str().is_empty() {
                add_to(&mut spare, &slot.code, slot.quantity);
                insert_code(&mut slots, &slot.code);
                total = saturated(total as i64 + slot.quantity as i64);
            }
            i += 1;
        }
        let b = BatchState {
            spare,
            slots,
            total,
            supply: Table::new(),
            relevant: Table::new(),
            crafts: Vec::new(),
            withdraw: Vec::new(),
        };
        assert(craft_views(b.crafts@) =~= Seq::empty());
        assert(deposit_views(b.withdraw@) =~= Seq::empty());
        assert(b@ =~= empty_batch(inventory@));
        b
    }

    fn has_slot(&self, code: &str) -> (r: bool)
        ensures
            r == self@.slots.contains(code@),
    {
        proof {
            lemma_has_code(self.slots@, code@);
        }
        contains_code(&self.slots, code)
    }
}

/// The inventory, bank and reservations that a batch is planned from.
struct Source<'a> {
    inventory: &'a [InventorySlot],
    bank: &'a [BankItem],
    reserved: &'a Table<i32>,
    max_items: i32,
}

impl<'a> View for Source<'a> {
    type V = Means;

    closed spec fn view(&self) -> Means {
        Means {
            inventory: self.inventory@,
            bank: self.bank@,
            reserved: self.reserved@,
            max_items: self.max_items as int,
        }
    }
}

fn amount_left(b: &BatchState, m: &Source, code: &str) -> (r: i32)
    requires
        b.wf(),
        m.reserved.wf(),
    ensures
        r == left(b@, m@, code@),
{
    match b.supply.get(code) {
        Some(q) => *q,
        None => {
            let sum: i64 = quantity_held(m.inventory, code) as i64 + quantity_in(
                m.bank,
                code,
            ) as i64 - stock_of(m.reserved, code) as i64;
            let amount: i32 = saturated(sum);
            if amount >= 0 {
                amount
            } else {
                0
            }
        },
    }
}

fn count_crafts(b: &BatchState, m: &Source, craft: &CraftInfo) -> (r: i32)
    requires
        b.wf(),
        m.reserved.wf(),
    ensures
        r == crafts_left(b@, m@, craft.items@, craft.items@.len() as int),
{
    let mut low: i32 = 0;
    let mut i: usize = 0;
    while i < craft.items.len()
        invariant
            i <= craft.items@.len(),
            b.wf(),
            m.reserved.wf(),
            low == crafts_left(b@, m@, craft.items@, i as int),
        decreases craft.items@.len() - i,
    {
        let have: i32 = amount_left(b, m, &craft.items[i].code);
        let per: i32 = max_i32(craft.items[i].quantity, 1);
        proof {
            lemma_quot_bound(have as int, per as int);
        }
        let share: i32 = have / per;
        if i == 0 || share < low {
            low = share;
        }
        i += 1;
    }
    low
}

fn note_reservations(b: &mut BatchState, m: &Source, craft: &CraftInfo)
    requires
        old(b).wf(),
        m.reserved.wf(),
    ensures
        final(b).wf(),
        final(b)@ == (Batch {
            relevant: noted(
                old(b)@.relevant,
                m@,
                craft.items@,
                craft.items@.len() as int,
            ),
            ..old(b)@
        }),
{
    let ghost before = b@;
    let mut i: usize = 0;
    while i < craft.items.len()
        invariant
            i <= craft.items@.len(),
            b.wf(),
            m.reserved.wf(),
            b@ == (Batch {
                relevant: noted(before.relevant, m@, craft.items@, i as int),
                ..before
            }),
        decreases craft.items@.len() - i,
    {
        let amount: i32 = stock_of(m.reserved, &craft.items[i].code);
        if amount > 0 {
            b.relevant.insert(craft.items[i].code.clone(), amount);
        }
        i += 1;
        assert(b@ =~= (Batch {
            relevant: noted(before.relevant, m@, craft.items@, i as int),
            ..before
        }));
    }
}

proof fn lemma_extra_range(b: Batch, ings: Seq<CraftIngredient>, qty: int, n: int)
    requires
        0 <= n <= ings.len(),
        0 <= qty <= i32::MAX,
    ensures
        0 <= extra(b, ings, qty, n).0 <= n,
        0 <= extra(b, ings, qty, n).1 <= 0x8000_0000_0000_0000 * n,
    decreases n,
{
    if n > 0 {
        lemma_extra_range(b, ings, qty, n - 1);
        let q = ings[n - 1].quantity as int;
        assert(q * qty <= 0x4000_0000_0000_0000) by (nonlinear_arith)
            requires
                i32::MIN <= q <= i32::MAX,
                0 <= qty <= i32::MAX,
        ;
        let have = stock(b.spare, ings[n - 1].code@);
        assert(have >= i32::MIN);
    }
}

fn has_room(b: &BatchState, m: &Source, item: &Item, craft: &CraftInfo, qty: i32) -> (r: bool)
    requires
        b.wf(),
        m.reserved.wf(),
        qty > 0,
    ensures
        r == fits(b@, m@, item.code@, craft.items@, qty as int),
{
    let n: usize = craft.items.len();
    let mut more_slots: u128 = 0;
    let mut more_items: i128 = 0;
    let mut i: usize = 0;
    let ghost ings = craft.items@;
    while i < n
        invariant
            i <= n,
            n == ings.len(),
            ings == craft.items@,
            b.wf(),
            qty > 0,
            more_slots <= i,
            0 <= more_items <= 0x8000_0000_0000_0000 * i,
            (more_slots as int, more_items as int) == extra(b@, ings, qty as int, i as int),
        decreases n - i,
    {
        let ing: &CraftIngredient = &craft.items[i];
        proof {
            lemma_extra_range(b@, ings, qty as int, i + 1);
            let q = ing.quantity;
            assert(-0x4000_0000_0000_0000 <= q * qty <= 0x4000_0000_0000_0000)
                by (nonlinear_arith)
                requires
                    i32::MIN <= q <= i32::MAX,
                    0 <= qty <= i32::MAX,
            ;
        }
        let need: i64 = ing.quantity as i64 * qty as i64;
        let have: i64 = stock_of(&b.spare, &ing.code) as i64;
        if need > have {
            if !b.has_slot(&ing.code) {
                more_slots = more_slots + 1;
            }
            more_items = more_items + (need as i128 - have as i128);
        }
        i += 1;
    }
    let own: u128 = if b.has_slot(&item.code) {
        0
    } else {
        1
    };
    assert(b@.slots.len() == b.slots@.len());
    b.slots.len() as u128 + own + more_slots <= INVENTORY_SLOTS as u128 && b.total as i128
        + more_items <= m.max_items as i128
}

fn commit(b: &mut BatchState, m: &Source, craft: &CraftInfo, qty: i32)
    requires
        old(b).wf(),
        m.reserved.wf(),
        qty > 0,
    ensures
        final(b).wf(),
        final(b)@ == set_aside(
            old(b)@,
            m@,
            craft.items@,
            qty as int,
            craft.items@.len() as int,
        ),
{
    let ghost before = b@;
    let mut i: usize = 0;
    while i < craft.items.len()
        invariant
            i <= craft.items@.len(),
            b.wf(),
            m.reserved.wf(),
            qty > 0,
            b@ == set_aside(before, m@, craft.items@, qty as int, i as int),
        decreases craft.items@.len() - i,
    {
        let ghost a = b@;
        let ing: &CraftIngredient = &craft.items[i];
        proof {
            let q = ing.quantity;
            assert(-0x4000_0000_0000_0000 <= q * qty <= 0x4000_0000_0000_0000 - 0x8000_0000)
                by (nonlinear_arith)
                requires
                    i32::MIN <= q <= i32::MAX,
                    0 <= qty <= i32::MAX,
            ;
        }
        let need: i64 = ing.quantity as i64 * qty as i64;
        let rest: i32 = saturated(amount_left(b, m, &ing.code) as i64 - need);
        b.supply.insert(ing.code.clone(), rest);
        let have: i64 = stock_of(&b.spare, &ing.code) as i64;
        if need > have {
            let deficit: i64 = need - have;
            b.spare.insert(ing.code.clone(), 0);
            insert_code(&mut b.slots, &ing.code);
            b.total = saturated(b.total as i64 + deficit);
            bump(&mut b.withdraw, &ing.code, deficit);
        } else {
            b.spare.insert(ing.code.clone(), saturated(have - need));
        }
        i += 1;
        assert(b@ =~= set_aside(before, m@, craft.items@, qty as int, i as int));
    }
}

fn consider(b: &mut BatchState, m: &Source, item: &Item)
    requires
        old(b).wf(),
        m.reserved.wf(),
        item.craft is Some,
    ensures
        final(b).wf(),
        final(b)@ == refine_step(old(b)@, m@, *item),
{
    if let Some(craft) = &item.craft {
        let ghost before = b@;
        let ghost ings = craft.items@;
        let mut qty: i32 = count_crafts(b, m, craft);
        let ghost most = most_that_fit(before, m@, item.code@, ings, qty as int);
        while qty > 0 && !has_room(b, m, item, craft, qty)
            invariant
                b.wf(),
                b@ == before,
                m.reserved.wf(),
                ings == craft.items@,
                most == most_that_fit(before, m@, item.code@, ings, qty as int),
            decreases qty,
        {
            qty = qty - 1;
        }
        if qty > 0 {
            assert(most == qty);
            commit(b, m, craft, qty);
            let ghost a = b@;
            insert_code(&mut b.slots, &item.code);
            let ghost had = b.crafts@;
            b.crafts.push((item.code.clone(), qty));
            assert(craft_views(b.crafts@) =~= craft_views(had).push((item.code@, qty as int)));
            assert(b@ =~= (Batch {
                slots: listed(a.slots, item.code@),
                crafts: a.crafts.push((item.code@, qty as int)),
                ..a
            }));
        }
        note_reservations(b, m, craft);
    }
}

/// A batch of recipes to craft on one trip, exactly what has to be withdrawn, because it is not
/// held, to cover all of them together, and the reservations that held some of it back.
#[derive(Debug)]
pub struct RefiningPlan {
    pub crafts: Vec<(String, i32)>,
    pub to_withdraw: Vec<DepositItem>,
    pub reserved: Table<i32>,
}

fn can_refine(item: &Item, skill: &str, character: &Character) -> (r: bool)
    ensures
        r == is_refinable(*item, skill@, *character),
{
    if !is_crafted_by(item, skill) {
        return false;
    }
    match &item.craft {
        Some(craft) => {
            let req: i32 = match craft.level {
                Some(level) => level,
                None => 0,
            };
            skill_level(character, skill) >= req
        },
        None => false,
    }
}

/// Plans the biggest batch of `refine_skill` recipes, highest level first, that the inventory and
/// the bank supply, less what is reserved, and that fits the slots and the capacity. What is held
/// already is used before anything is withdrawn.
pub fn plan_refining_batch(
    items: &[Item],
    bank: &[BankItem],
    character: &Character,
    reserved: &Table<i32>,
    refine_skill: &str,
) -> (r: RefiningPlan)
    requires
        reserved.wf(),
    ensures
        r.reserved.wf(),
        ({
            let m = Means {
                inventory: character.inventory@,
                bank: bank@,
                reserved: reserved@,
                max_items: character.inventory_max_items as int,
            };
            let b = refining_batch(items@, m, *character, refine_skill@);
            &&& craft_views(r.crafts@) == b.crafts
            &&& deposit_views(r.to_withdraw@) == b.withdraw
            &&& r.reserved@ == b.relevant
        }),
{
    let mut picks: Vec<usize> = Vec::new();
    let mut keys: Vec<i64> = Vec::new();
    let mut i: usize = 0;
    assert(places(picks@) =~= Seq::empty());
    assert(keys@ =~= item_levels(places(picks@), items@));
    while i < items.len()
        invariant
            i <= items@.len(),
            places(picks@) == refinable(items@, refine_skill@, *character, i as int),
            keys@ == item_levels(places(picks@), items@),
            keys@.len() == picks@.len(),
            forall|j: int|
                0 <= j < picks@.len() ==> (#[trigger] picks@[j]) < items@.len()
                    && items@[picks@[j] as int].craft is Some,
        decreases items@.len() - i,
    {
        if can_refine(&items[i], refine_skill, character) {
            let ghost had = picks@;
            picks.push(i);
            keys.push(items[i].level as i64);
            assert(places(picks@) =~= places(had).push(i as int));
            assert(keys@ =~= item_levels(places(picks@), items@));
        }
        i += 1;
    }
    let order: Vec<usize> = rank_by_key(&keys);
    let ghost target = refining_order(items@, refine_skill@, *character);
    let m = Source {
        inventory: &character.inventory,
        bank,
        reserved,
        max_items: character.inventory_max_items,
    };
    let mut b: BatchState = BatchState::start(&character.inventory);
    let ghost start = b@;
    let mut j: usize = 0;
    while j < order.len()
        invariant
            j <= order@.len(),
            order@.len() == picks@.len(),
            keys@.len() == picks@.len(),
            places(picks@) == refinable(
                items@,
                refine_skill@,
                *character,
                items@.len() as int,
            ),
            keys@ == item_levels(places(picks@), items@),
            forall|k: int|
                0 <= k < picks@.len() ==> (#[trigger] picks@[k]) < items@.len()
                    && items@[picks@[k] as int].craft is Some,
            places(order@) == ranked(by_key(keys@), keys@.len() as int),
            is_ranking(places(order@), by_key(keys@), keys@.len() as int),
            target == refining_order(items@, refine_skill@, *character),
            b.wf(),
            m.reserved.wf(),
            b@ == refine_steps(start, m@, items@, target, j as int),
        decreases order@.len() - j,
    {
        assert(places(order@)[j as int] == order@[j as int]);
        let pick: usize = picks[order[j]];
        assert(places(picks@)[order@[j as int] as int] == pick);
        assert(target[j as int] == pick);
        consider(&mut b, &m, &items[pick]);
        j += 1;
    }
    RefiningPlan { crafts: b.crafts, to_withdraw: b.withdraw, reserved: b.relevant }
}

// ── What holds of every batch ────────────────────────────────────────────────

/// The batch so far keeps to the slots and the capacity.
pub open spec fn within_budget(b: Batch, m: Means) -> bool {
    b.slots.len() <= INVENTORY_SLOTS && b.total <= m.max_items
}

proof fn lemma_fitting(b: Batch, m: Means, code: Seq<char>, ings: Seq<CraftIngredient>, qty: int)
    ensures
        most_that_fit(b, m, code, ings, qty) > 0 ==> fits(
            b,
            m,
            code,
            ings,
            most_that_fit(b, m, code, ings, qty),
        ) && most_that_fit(b, m, code, ings, qty) <= qty,
    decreases qty,
{
    if qty > 0 && !fits(b, m, code, ings, qty) {
        lemma_fitting(b, m, code, ings, qty - 1);
    }
}

proof fn lemma_slots_grow(b: Batch, m: Means, ings: Seq<CraftIngredient>, qty: int, n: int)
    requires
        0 <= n <= ings.len(),
        qty > 0,
        is_plain_recipe(ings),
        i32::MIN <= b.total,
    ensures
        ({
            let a = set_aside(b, m, ings, qty, n);
            &&& a.slots.len() <= b.slots.len() + extra(b, ings, qty, n).0
            &&& a.total <= b.total + extra(b, ings, qty, n).1
            &&& forall|c: Seq<char>| b.slots.contains(c) ==> #[trigger] a.slots.contains(c)
            &&& forall|c: Seq<char>|
                (forall|i: int| 0 <= i < n ==> (#[trigger] ings[i]).code@ != c) ==> {
                    &&& #[trigger] stock(a.spare, c) == stock(b.spare, c)
                    &&& a.slots.contains(c) == b.slots.contains(c)
                }
            &&& i32::MIN <= a.total
        }),
    decreases n,
{
    if n > 0 {
        lemma_slots_grow(b, m, ings, qty, n - 1);
        let a = set_aside(b, m, ings, qty, n - 1);
        let code = ings[n - 1].code@;
        assert forall|i: int| 0 <= i < n - 1 implies (#[trigger] ings[i]).code@ != code by {
            assert(ings[n - 1].code@ == code);
        }
        assert(stock(a.spare, code) == stock(b.spare, code));
        let after = set_aside(b, m, ings, qty, n);
        assert forall|c: Seq<char>| b.slots.contains(c) implies #[trigger] after.slots.contains(c) by {
            assert(a.slots.contains(c));
            if after.slots != a.slots {
                let k = a.slots.index_of(c);
                assert(after.slots[k] == c);
            }
        }
        assert forall|c: Seq<char>|
            (forall|i: int| 0 <= i < n ==> (#[trigger] ings[i]).code@ != c) implies ({
            &&& #[trigger] stock(after.spare, c) == stock(b.spare, c)
            &&& after.slots.contains(c) == b.slots.contains(c)
        }) by {
            assert(ings[n - 1].code@ != c);
            assert(forall|i: int| 0 <= i < n - 1 ==> (#[trigger] ings[i]).code@ != c);
            assert(stock(a.spare, c) == stock(b.spare, c));
            if after.slots.contains(c) && !a.slots.contains(c) {
                let k = after.slots.index_of(c);
                assert(after.slots[k] == c);
                if k < a.slots.len() {
                    assert(a.slots[k] == c);
                }
            }
            if a.slots.contains(c) {
                let k = a.slots.index_of(c);
                assert(after.slots[k] == c);
            }
        }
    }
}

proof fn lemma_steps_keep_to_the_budget(
    b: Batch,
    m: Means,
    items: Seq<Item>,
    order: Seq<int>,
    n: int,
)
    requires
        0 <= n <= order.len(),
        i32::MIN <= b.total,
        forall|j: int|
            0 <= j < order.len() ==> is_plain_recipe(
                items[#[trigger] order[j]].craft->0.items@,
            ),
    ensures
        i32::MIN <= refine_steps(b, m, items, order, n).total,
        refine_steps(b, m, items, order, n).crafts.len() > b.crafts.len() ==> within_budget(
            refine_steps(b, m, items, order, n),
            m,
        ),
        within_budget(b, m) ==> within_budget(refine_steps(b, m, items, order, n), m),
        refine_steps(b, m, items, order, n).crafts.len() >= b.crafts.len(),
    decreases n,
{
    if n > 0 {
        lemma_steps_keep_to_the_budget(b, m, items, order, n - 1);
        let before = refine_steps(b, m, items, order, n - 1);
        let item = items[order[n - 1]];
        let ings = item.craft->0.items@;
        let len = ings.len() as int;
        let want = crafts_left(before, m, ings, len);
        let qty = crafts_planned(before, m, item);
        if qty > 0 {
            lemma_fitting(before, m, item.code@, ings, want);
            lemma_slots_grow(before, m, ings, qty, len);
            let a = set_aside(before, m, ings, qty, len);
            lemma_crafts_kept(before, m, ings, qty, len);
            if before.slots.contains(item.code@) {
                assert(a.slots.contains(item.code@));
            }
        }
    }
}

proof fn lemma_crafts_kept(b: Batch, m: Means, ings: Seq<CraftIngredient>, qty: int, n: int)
    requires
        0 <= n <= ings.len(),
    ensures
        set_aside(b, m, ings, qty, n).crafts == b.crafts,
    decreases n,
{
    if n > 0 {
        lemma_crafts_kept(b, m, ings, qty, n - 1);
    }
}

proof fn lemma_share_covers(b: Batch, m: Means, ings: Seq<CraftIngredient>, n: int, i: int)
    requires
        0 <= i < n <= ings.len(),
        ings[i].quantity >= 0,
        left(b, m, ings[i].code@) >= 0,
    ensures
        crafts_left(b, m, ings, n) * ings[i].quantity <= left(b, m, ings[i].code@) || crafts_left(
            b,
            m,
            ings,
            n,
        ) < 0,
        crafts_left(b, m, ings, n) <= quot(
            left(b, m, ings[i].code@),
            max_int(ings[i].quantity as int, 1),
        ),
    decreases n,
{
    let have = left(b, m, ings[i].code@);
    let per = max_int(ings[i].quantity as int, 1);
    let low = crafts_left(b, m, ings, n);
    if i < n - 1 {
        lemma_share_covers(b, m, ings, n - 1, i);
    }
    if low >= 0 {
        let q = ings[i].quantity as int;
        assert(low * q <= have) by (nonlinear_arith)
            requires
                0 <= low <= have / per,
                0 <= q <= per,
                per >= 1,
                have >= 0,
        ;
    }
}

/// How much of `code` a list of stacks holds.
pub open spec fn wanted(list: Seq<(Seq<char>, int)>, code: Seq<char>) -> int {
    match stack_of(list, code, 0) {
        Some(i) => list[i].1,
        None => 0,
    }
}

proof fn lemma_stack_of(list: Seq<(Seq<char>, int)>, code: Seq<char>, from: int)
    requires
        0 <= from,
    ensures
        match stack_of(list, code, from) {
            Some(i) => from <= i < list.len() && list[i].0 == code && forall|j: int|
                from <= j < i ==> (#[trigger] list[j]).0 != code,
            None => forall|j: int| from <= j < list.len() ==> (#[trigger] list[j]).0 != code,
        },
    decreases list.len() - from,
{
    if from < list.len() && list[from].0 != code {
        lemma_stack_of(list, code, from + 1);
    }
}

/// Adding to a list adds to what it holds of the code, and of nothing else.
pub proof fn lemma_bumped(list: Seq<(Seq<char>, int)>, code: Seq<char>, qty: int, c: Seq<char>)
    ensures
        wanted(bumped(list, code, qty), c) == if c == code {
            sat_i32(wanted(list, code) + qty)
        } else {
            wanted(list, c)
        },
{
    let after = bumped(list, code, qty);
    lemma_stack_of(list, code, 0);
    lemma_stack_of(list, c, 0);
    lemma_stack_of(after, c, 0);
    match stack_of(list, code, 0) {
        Some(i) => {
            assert(after[i].0 == code);
            if let Some(k) = stack_of(list, c, 0) {
                assert(after[k].0 == c);
                if let Some(k2) = stack_of(after, c, 0) {
                    assert(list[k2].0 == c);
                }
            } else if let Some(k2) = stack_of(after, c, 0) {
                assert(list[k2].0 == c);
            }
        },
        None => {
            assert(after[after.len() - 1].0 == code);
            if let Some(k) = stack_of(list, c, 0) {
                assert(after[k].0 == c);
                if let Some(k2) = stack_of(after, c, 0) {
                    if k2 < list.len() {
                        assert(list[k2].0 == c);
                    }
                }
            } else if let Some(k2) = stack_of(after, c, 0) {
                if k2 < list.len() {
                    assert(list[k2].0 == c);
                }
            }
        },
    }
}

/// How many items the first `n` stacks of a list hold together.
pub open spec fn stacked(list: Seq<(Seq<char>, int)>, n: int) -> int
    decreases n,
{
    if n <= 0 {
        0
    } else {
        stacked(list, n - 1) + list[n - 1].1
    }
}

/// No code has two stacks, and none holds less than nothing.
pub open spec fn is_tidy(list: Seq<(Seq<char>, int)>) -> bool {
    &&& forall|i: int| 0 <= i < list.len() ==> (#[trigger] list[i]).1 >= 0
    &&& forall|i: int, j: int|
        0 <= i < j < list.len() ==> (#[trigger] list[i]).0 != (#[trigger] list[j]).0
}

proof fn lemma_stack_within(list: Seq<(Seq<char>, int)>, i: int, n: int)
    requires
        is_tidy(list),
        0 <= n <= list.len(),
    ensures
        0 <= stacked(list, n),
        0 <= i < n ==> list[i].1 <= stacked(list, n),
    decreases n,
{
    if n > 0 {
        lemma_stack_within(list, i, n - 1);
        assert(list[n - 1].1 >= 0);
    }
}

proof fn lemma_stacked_same(
    a: Seq<(Seq<char>, int)>,
    b: Seq<(Seq<char>, int)>,
    n: int,
)
    requires
        n <= a.len(),
        n <= b.len(),
        forall|j: int| 0 <= j < n ==> #[trigger] a[j] == b[j],
    ensures
        stacked(a, n) == stacked(b, n),
    decreases n,
{
    if n > 0 {
        lemma_stacked_same(a, b, n - 1);
        assert(a[n - 1] == b[n - 1]);
    }
}

proof fn lemma_stacked_changed(
    list: Seq<(Seq<char>, int)>,
    i: int,
    stack: (Seq<char>, int),
    n: int,
)
    requires
        0 <= i < n <= list.len(),
    ensures
        stacked(list.update(i, stack), n) == stacked(list, n) - list[i].1 + stack.1,
    decreases n,
{
    if i < n - 1 {
        lemma_stacked_changed(list, i, stack, n - 1);
    } else {
        lemma_stacked_same(list.update(i, stack), list, n - 1);
    }
}

/// Where the sum fits, adding to a tidy list keeps it tidy, and adds to the sum and to what the list
/// holds of the code, and to nothing else.
pub proof fn lemma_bumped_adds(
    list: Seq<(Seq<char>, int)>,
    code: Seq<char>,
    qty: int,
    c: Seq<char>,
)
    requires
        is_tidy(list),
        qty >= 0,
        stacked(list, list.len() as int) + qty <= i32::MAX,
    ensures
        ({
            let after = bumped(list, code, qty);
            &&& is_tidy(after)
            &&& stacked(after, after.len() as int) == stacked(list, list.len() as int) + qty
            &&& wanted(after, c) == wanted(list, c) + if c == code {
                qty
            } else {
                0
            }
        }),
{
    let after = bumped(list, code, qty);
    let n = list.len() as int;
    lemma_bumped(list, code, qty, c);
    lemma_stack_of(list, code, 0);
    lemma_stack_within(list, 0, n);
    match stack_of(list, code, 0) {
        Some(i) => {
            lemma_stack_within(list, i, n);
            let stack = (code, list[i].1 + qty);
            assert(list[i].1 >= 0);
            assert(after == list.update(i, stack));
            lemma_stacked_changed(list, i, stack, n);
            assert forall|j: int, k: int| 0 <= j < k < after.len() implies (#[trigger] after[j]).0
                != (#[trigger] after[k]).0 by {
                assert(list[j].0 != list[k].0);
            }
        },
        None => {
            lemma_stacked_same(after, list, n);
            assert(after[n].1 == qty);
            assert forall|j: int, k: int| 0 <= j < k < after.len() implies (#[trigger] after[j]).0
                != (#[trigger] after[k]).0 by {
                assert(list[j].0 != code);
                if k < n {
                    assert(list[j].0 != list[k].0);
                }
            }
        },
    }
}

/// The crafts that the first `n` recipes in order come to, each by the place of its item.
pub open spec fn picks(b: Batch, m: Means, items: Seq<Item>, order: Seq<int>, n: int) -> Seq<
    (int, int),
>
    decreases n,
{
    if n <= 0 {
        Seq::empty()
    } else {
        let before = picks(b, m, items, order, n - 1);
        let qty = crafts_planned(
            refine_steps(b, m, items, order, n - 1),
            m,
            items[order[n - 1]],
        );
        if qty > 0 {
            before.push((order[n - 1], qty))
        } else {
            before
        }
    }
}

/// What the first `n` of a list of crafts use up of `c`.
pub open spec fn used_up(crafts: Seq<(int, int)>, items: Seq<Item>, c: Seq<char>, n: int) -> int
    decreases n,
{
    if n <= 0 {
        0
    } else {
        let ings = items[crafts[n - 1].0].craft->0.items@;
        used_up(crafts, items, c, n - 1) + taken_by(ings, c, ings.len() as int) * crafts[n - 1].1
    }
}

/// The crafts of a batch, each by the place of its item.
pub open spec fn batch_picks(items: Seq<Item>, m: Means, who: Character, skill: Seq<char>) -> Seq<
    (int, int),
> {
    let order = refining_order(items, skill, who);
    picks(empty_batch(m.inventory), m, items, order, order.len() as int)
}

/// What is carried of `c`.
pub open spec fn carried(m: Means, c: Seq<char>) -> int {
    stock(carried_by_code(m.inventory, m.inventory.len() as int), c)
}

/// With `used` of `c` taken by crafts, a batch withdraws what they take beyond what is carried,
/// keeps the rest of what is carried, and leaves the rest of what may be used.
pub open spec fn is_balanced(b: Batch, m: Means, c: Seq<char>, used: int) -> bool {
    &&& wanted(b.withdraw, c) == max_int(used - carried(m, c), 0)
    &&& stock(b.spare, c) == max_int(carried(m, c) - used, 0)
    &&& left(b, m, c) == usable(m, c) - used
    &&& 0 <= used <= usable(m, c)
}

proof fn lemma_set_aside_balances(
    b: Batch,
    m: Means,
    ings: Seq<CraftIngredient>,
    qty: int,
    n: int,
    c: Seq<char>,
    used: int,
)
    requires
        0 <= n <= ings.len(),
        qty > 0,
        is_plain_recipe(ings),
        carried(m, c) >= 0,
        is_balanced(b, m, c, used),
        used + taken_by(ings, c, n) * qty <= usable(m, c),
    ensures
        is_balanced(
            set_aside(b, m, ings, qty, n),
            m,
            c,
            used + taken_by(ings, c, n) * qty,
        ),
    decreases n,
{
    if n > 0 {
        let ing = ings[n - 1];
        let need = ing.quantity * qty;
        let before = taken_by(ings, c, n - 1);
        lemma_taken_by(ings, c, n - 1);
        assert(need >= 0) by (nonlinear_arith)
            requires
                need == ing.quantity * qty,
                ing.quantity >= 0,
                qty > 0,
        ;
        assert(before * qty >= 0) by (nonlinear_arith)
            requires
                before >= 0,
                qty > 0,
        ;
        if ing.code@ == c {
            assert(taken_by(ings, c, n) * qty == before * qty + need) by (nonlinear_arith)
                requires
                    taken_by(ings, c, n) == before + ing.quantity,
                    need == ing.quantity * qty,
            ;
        }
        lemma_set_aside_balances(b, m, ings, qty, n - 1, c, used);
        let a = set_aside(b, m, ings, qty, n - 1);
        let have = stock(a.spare, ing.code@);
        if need > have {
            lemma_bumped(a.withdraw, ing.code@, need - have, c);
        }
    } else {
        assert(0 * qty == 0) by (nonlinear_arith);
    }
}

proof fn lemma_steps_balance(m: Means, items: Seq<Item>, order: Seq<int>, n: int, c: Seq<char>)
    requires
        0 <= n <= order.len(),
        forall|j: int|
            0 <= j < order.len() ==> is_plain_recipe(
                items[#[trigger] order[j]].craft->0.items@,
            ),
    ensures
        ({
            let b = empty_batch(m.inventory);
            let crafts = picks(b, m, items, order, n);
            is_balanced(
                refine_steps(b, m, items, order, n),
                m,
                c,
                used_up(crafts, items, c, crafts.len() as int),
            )
        }),
    decreases n,
{
    let b = empty_batch(m.inventory);
    lemma_carried_is_stocked(m.inventory, m.inventory.len() as int);
    assert(carried(m, c) >= 0);
    if n > 0 {
        lemma_steps_balance(m, items, order, n - 1, c);
        let before = refine_steps(b, m, items, order, n - 1);
        let crafts = picks(b, m, items, order, n - 1);
        let used = used_up(crafts, items, c, crafts.len() as int);
        let item = items[order[n - 1]];
        let ings = item.craft->0.items@;
        let len = ings.len() as int;
        let want = crafts_left(before, m, ings, len);
        let qty = crafts_planned(before, m, item);
        if qty > 0 {
            lemma_fitting(before, m, item.code@, ings, want);
            lemma_taken_by(ings, c, len);
            let per = taken_by(ings, c, len);
            if per > 0 {
                let i = choose|i: int|
                    0 <= i < len && (#[trigger] ings[i]).code@ == c && per == ings[i].quantity;
                lemma_share_covers(before, m, ings, len, i);
                assert(per * qty <= want * per) by (nonlinear_arith)
                    requires
                        0 < qty <= want,
                        per >= 0,
                ;
            } else {
                assert(per * qty == 0) by (nonlinear_arith)
                    requires
                        per == 0,
                ;
            }
            lemma_set_aside_balances(before, m, ings, qty, len, c, used);
            let after = crafts.push((order[n - 1], qty));
            assert(picks(b, m, items, order, n) == after);
            lemma_used_up_pushed(crafts, items, c, (order[n - 1], qty), crafts.len() as int);
        }
    }
}

proof fn lemma_used_up_pushed(
    crafts: Seq<(int, int)>,
    items: Seq<Item>,
    c: Seq<char>,
    more: (int, int),
    n: int,
)
    requires
        0 <= n <= crafts.len(),
    ensures
        used_up(crafts.push(more), items, c, n) == used_up(crafts, items, c, n),
    decreases n,
{
    if n > 0 {
        lemma_used_up_pushed(crafts, items, c, more, n - 1);
    }
}

/// No recipe lists an ingredient twice, or takes less than nothing of one.
pub open spec fn are_plain_recipes(items: Seq<Item>) -> bool {
    forall|i: int|
        0 <= i < items.len() && (#[trigger] items[i]).craft is Some ==> is_plain_recipe(
            items[i].craft->0.items@,
        )
}

proof fn lemma_refinable(items: Seq<Item>, skill: Seq<char>, who: Character, n: int)
    requires
        0 <= n <= items.len(),
    ensures
        forall|j: int|
            0 <= j < refinable(items, skill, who, n).len() ==> {
                let i = #[trigger] refinable(items, skill, who, n)[j];
                0 <= i < n && items[i].craft is Some
            },
    decreases n,
{
    if n > 0 {
        lemma_refinable(items, skill, who, n - 1);
        let before = refinable(items, skill, who, n - 1);
        let after = refinable(items, skill, who, n);
        assert forall|j: int| 0 <= j < after.len() implies ({
            let i = #[trigger] after[j];
            0 <= i < n && items[i].craft is Some
        }) by {
            if j < before.len() {
                let i = before[j];
                assert(0 <= i < n - 1);
            }
        }
    }
}

proof fn lemma_order_is_plain(items: Seq<Item>, skill: Seq<char>, who: Character)
    requires
        are_plain_recipes(items),
    ensures
        forall|j: int|
            0 <= j < refining_order(items, skill, who).len() ==> is_plain_recipe(
                items[#[trigger] refining_order(items, skill, who)[j]].craft->0.items@,
            ),
{
    let picks = refinable(items, skill, who, items.len() as int);
    let keys = item_levels(picks, items);
    lemma_refinable(items, skill, who, items.len() as int);
    lemma_keys_are_ordered(keys);
    law_ranking(by_key(keys), keys.len() as int);
    let ranking = ranked(by_key(keys), picks.len() as int);
    let order = refining_order(items, skill, who);
    assert forall|j: int| 0 <= j < order.len() implies is_plain_recipe(
        items[#[trigger] order[j]].craft->0.items@,
    ) by {
        assert(0 <= ranking[j] < picks.len());
        assert(order[j] == picks[ranking[j]]);
        let i = picks[ranking[j]];
        assert(items[i].craft is Some);
    }
}

proof fn lemma_carried_is_stocked(inventory: Seq<InventorySlot>, n: int)
    requires
        0 <= n <= inventory.len(),
    ensures
        forall|c: Seq<char>| #[trigger] stock(carried_by_code(inventory, n), c) >= 0,
        0 <= carried_count(inventory, n) <= i32::MAX,
    decreases n,
{
    if n > 0 {
        lemma_carried_is_stocked(inventory, n - 1);
        assert forall|c: Seq<char>| #[trigger] stock(carried_by_code(inventory, n), c) >= 0 by {
            assert(stock(carried_by_code(inventory, n - 1), c) >= 0);
            assert(stock(carried_by_code(inventory, n - 1), inventory[n - 1].code@) >= 0);
        }
    }
}

/// A batch that plans any craft keeps to the twenty slots and to what the character can carry, with
/// a slot for everything it makes.
pub proof fn law_batch_keeps_to_the_budget(
    items: Seq<Item>,
    m: Means,
    who: Character,
    skill: Seq<char>,
)
    requires
        are_plain_recipes(items),
    ensures
        refining_batch(items, m, who, skill).crafts.len() > 0 ==> within_budget(
            refining_batch(items, m, who, skill),
            m,
        ),
{
    let order = refining_order(items, skill, who);
    lemma_order_is_plain(items, skill, who);
    lemma_carried_is_stocked(m.inventory, m.inventory.len() as int);
    lemma_steps_keep_to_the_budget(
        empty_batch(m.inventory),
        m,
        items,
        order,
        order.len() as int,
    );
}

proof fn lemma_set_aside_totals(b: Batch, m: Means, ings: Seq<CraftIngredient>, qty: int, n: int)
    requires
        0 <= n <= ings.len(),
        qty > 0,
        is_plain_recipe(ings),
        is_tidy(b.withdraw),
        stacked(b.withdraw, b.withdraw.len() as int) <= b.total,
        b.total + extra(b, ings, qty, n).1 <= i32::MAX,
    ensures
        ({
            let a = set_aside(b, m, ings, qty, n);
            &&& is_tidy(a.withdraw)
            &&& a.total == b.total + extra(b, ings, qty, n).1
            &&& a.total - stacked(a.withdraw, a.withdraw.len() as int) == b.total - stacked(
                b.withdraw,
                b.withdraw.len() as int,
            )
        }),
    decreases n,
{
    if n > 0 {
        let code = ings[n - 1].code@;
        let need = ings[n - 1].quantity * qty;
        lemma_set_aside_totals(b, m, ings, qty, n - 1);
        lemma_stack_within(b.withdraw, 0, b.withdraw.len() as int);
        lemma_slots_grow(b, m, ings, qty, n - 1);
        let a = set_aside(b, m, ings, qty, n - 1);
        assert forall|i: int| 0 <= i < n - 1 implies (#[trigger] ings[i]).code@ != code by {
            assert(ings[n - 1].code@ == code);
        }
        let have = stock(a.spare, code);
        assert(have == stock(b.spare, code));
        if need > have {
            lemma_stack_within(a.withdraw, 0, a.withdraw.len() as int);
            lemma_bumped_adds(a.withdraw, code, need - have, code);
        }
    }
}

proof fn lemma_steps_total(m: Means, items: Seq<Item>, order: Seq<int>, n: int)
    requires
        0 <= n <= order.len(),
        m.max_items <= i32::MAX,
        forall|j: int|
            0 <= j < order.len() ==> is_plain_recipe(
                items[#[trigger] order[j]].craft->0.items@,
            ),
    ensures
        ({
            let a = refine_steps(empty_batch(m.inventory), m, items, order, n);
            &&& is_tidy(a.withdraw)
            &&& a.total == carried_count(m.inventory, m.inventory.len() as int) + stacked(
                a.withdraw,
                a.withdraw.len() as int,
            )
        }),
    decreases n,
{
    lemma_carried_is_stocked(m.inventory, m.inventory.len() as int);
    if n > 0 {
        lemma_steps_total(m, items, order, n - 1);
        let before = refine_steps(empty_batch(m.inventory), m, items, order, n - 1);
        let item = items[order[n - 1]];
        let ings = item.craft->0.items@;
        let len = ings.len() as int;
        let qty = crafts_planned(before, m, item);
        if qty > 0 {
            lemma_fitting(before, m, item.code@, ings, crafts_left(before, m, ings, len));
            lemma_set_aside_totals(before, m, ings, qty, len);
        }
    }
}

/// How many items the first `n` slots hold, without a limit.
pub open spec fn carried_sum(inventory: Seq<InventorySlot>, n: int) -> int
    decreases n,
{
    if n <= 0 {
        0
    } else if is_used(inventory[n - 1]) {
        carried_sum(inventory, n - 1) + inventory[n - 1].quantity
    } else {
        carried_sum(inventory, n - 1)
    }
}

proof fn lemma_carried_sum(inventory: Seq<InventorySlot>, n: int)
    requires
        0 <= n <= inventory.len(),
    ensures
        0 <= carried_sum(inventory, n),
        carried_sum(inventory, n) <= i32::MAX ==> carried_count(inventory, n) == carried_sum(
            inventory,
            n,
        ),
    decreases n,
{
    if n > 0 {
        lemma_carried_sum(inventory, n - 1);
    }
}

/// A batch that plans any craft fits the bag: what is carried and all that is withdrawn come to no
/// more than the character can carry. No code is withdrawn in two stacks.
pub proof fn law_batch_fits_the_bag(items: Seq<Item>, m: Means, who: Character, skill: Seq<char>)
    requires
        are_plain_recipes(items),
        m.max_items <= i32::MAX,
        carried_sum(m.inventory, m.inventory.len() as int) <= i32::MAX,
    ensures
        ({
            let b = refining_batch(items, m, who, skill);
            &&& is_tidy(b.withdraw)
            &&& b.crafts.len() > 0 ==> carried_sum(m.inventory, m.inventory.len() as int) + stacked(
                b.withdraw,
                b.withdraw.len() as int,
            ) <= m.max_items
        }),
{
    let order = refining_order(items, skill, who);
    lemma_order_is_plain(items, skill, who);
    lemma_steps_total(m, items, order, order.len() as int);
    lemma_carried_sum(m.inventory, m.inventory.len() as int);
    law_batch_keeps_to_the_budget(items, m, who, skill);
}

proof fn lemma_picks(b: Batch, m: Means, items: Seq<Item>, order: Seq<int>, n: int)
    requires
        0 <= n <= order.len(),
    ensures
        ({
            let crafts = picks(b, m, items, order, n);
            &&& refine_steps(b, m, items, order, n).crafts == b.crafts + crafts.map_values(
                |p: (int, int)| (items[p.0].code@, p.1),
            )
            &&& forall|j: int|
                0 <= j < crafts.len() ==> (#[trigger] crafts[j]).1 > 0 && order.contains(
                    crafts[j].0,
                )
        }),
    decreases n,
{
    let crafts = picks(b, m, items, order, n);
    let code = |p: (int, int)| (items[p.0].code@, p.1);
    if n > 0 {
        lemma_picks(b, m, items, order, n - 1);
        let before = refine_steps(b, m, items, order, n - 1);
        let had = picks(b, m, items, order, n - 1);
        let item = items[order[n - 1]];
        let ings = item.craft->0.items@;
        let qty = crafts_planned(before, m, item);
        if qty > 0 {
            lemma_crafts_kept(before, m, ings, qty, ings.len() as int);
            let pick = (order[n - 1], qty);
            assert(had.push(pick).map_values(code) =~= had.map_values(code).push(code(pick)));
            assert(b.crafts + had.map_values(code).push(code(pick)) =~= (b.crafts
                + had.map_values(code)).push(code(pick)));
            assert forall|j: int| 0 <= j < crafts.len() implies (#[trigger] crafts[j]).1 > 0
                && order.contains(crafts[j].0) by {
                if j < had.len() {
                    assert(crafts[j] == had[j]);
                } else {
                    assert(order[n - 1] == crafts[j].0);
                }
            }
        }
    } else {
        assert(b.crafts + crafts.map_values(code) =~= b.crafts);
    }
}

proof fn lemma_used_up_grows(
    crafts: Seq<(int, int)>,
    items: Seq<Item>,
    c: Seq<char>,
    i: int,
    n: int,
)
    requires
        0 <= i <= n <= crafts.len(),
        forall|j: int|
            0 <= j < crafts.len() ==> (#[trigger] crafts[j]).1 > 0 && is_plain_recipe(
                items[crafts[j].0].craft->0.items@,
            ),
    ensures
        used_up(crafts, items, c, i) <= used_up(crafts, items, c, n),
    decreases n,
{
    if i < n {
        lemma_used_up_grows(crafts, items, c, i, n - 1);
        let (place, qty) = crafts[n - 1];
        let ings = items[place].craft->0.items@;
        assert(crafts[n - 1].1 > 0);
        lemma_taken_by(ings, c, ings.len() as int);
        let per = taken_by(ings, c, ings.len() as int);
        assert(per * qty >= 0) by (nonlinear_arith)
            requires
                per >= 0,
                qty > 0,
        ;
    }
}

/// A batch never uses up more of anything than what is held and banked less what is reserved, even
/// where recipes share ingredients.
pub proof fn law_batch_respects_reservations(
    items: Seq<Item>,
    m: Means,
    who: Character,
    skill: Seq<char>,
    c: Seq<char>,
)
    requires
        are_plain_recipes(items),
    ensures
        ({
            let crafts = batch_picks(items, m, who, skill);
            used_up(crafts, items, c, crafts.len() as int) <= usable(m, c)
        }),
{
    let order = refining_order(items, skill, who);
    lemma_order_is_plain(items, skill, who);
    lemma_steps_balance(m, items, order, order.len() as int, c);
}

/// What is held is used before anything is withdrawn: of each item a batch withdraws exactly what
/// its crafts together use up beyond what is carried, and nothing where that is enough.
pub proof fn law_batch_withdraws_what_is_missing(
    items: Seq<Item>,
    m: Means,
    who: Character,
    skill: Seq<char>,
    c: Seq<char>,
)
    requires
        are_plain_recipes(items),
    ensures
        ({
            let b = refining_batch(items, m, who, skill);
            let crafts = batch_picks(items, m, who, skill);
            let used = used_up(crafts, items, c, crafts.len() as int);
            &&& b.crafts == crafts.map_values(|p: (int, int)| (items[p.0].code@, p.1))
            &&& wanted(b.withdraw, c) == max_int(used - carried(m, c), 0)
        }),
{
    let order = refining_order(items, skill, who);
    let b = empty_batch(m.inventory);
    lemma_order_is_plain(items, skill, who);
    lemma_steps_balance(m, items, order, order.len() as int, c);
    lemma_picks(b, m, items, order, order.len() as int);
    let crafts = batch_picks(items, m, who, skill);
    let codes = crafts.map_values(|p: (int, int)| (items[p.0].code@, p.1));
    assert(b.crafts + codes =~= codes);
}

/// What is carried and what is withdrawn cover a batch: when its crafts are made one after the
/// other, each finds all of every ingredient that it takes.
pub proof fn law_withdrawal_covers_the_batch(
    items: Seq<Item>,
    m: Means,
    who: Character,
    skill: Seq<char>,
    c: Seq<char>,
    j: int,
)
    requires
        are_plain_recipes(items),
        0 <= j < batch_picks(items, m, who, skill).len(),
    ensures
        ({
            let crafts = batch_picks(items, m, who, skill);
            let ings = items[crafts[j].0].craft->0.items@;
            let supply = carried(m, c) + wanted(refining_batch(items, m, who, skill).withdraw, c);
            supply - used_up(crafts, items, c, j) >= taken_by(ings, c, ings.len() as int)
                * crafts[j].1
        }),
{
    let order = refining_order(items, skill, who);
    let crafts = batch_picks(items, m, who, skill);
    lemma_order_is_plain(items, skill, who);
    lemma_picks(empty_batch(m.inventory), m, items, order, order.len() as int);
    assert forall|k: int| 0 <= k < crafts.len() implies (#[trigger] crafts[k]).1 > 0
        && is_plain_recipe(items[crafts[k].0].craft->0.items@) by {
        let place = order.index_of(crafts[k].0);
        assert(order[place] == crafts[k].0);
    }
    law_batch_withdraws_what_is_missing(items, m, who, skill, c);
    lemma_used_up_grows(crafts, items, c, j + 1, crafts.len() as int);
}

proof fn lemma_carried_is_held(inventory: Seq<InventorySlot>, n: int, c: Seq<char>)
    requires
        0 <= n <= inventory.len(),
        c.len() > 0,
        forall|i: int| 0 <= i < inventory.len() ==> (#[trigger] inventory[i]).quantity >= 0,
    ensures
        stock(carried_by_code(inventory, n), c) == held(inventory.take(n), c),
    decreases n,
{
    if n > 0 {
        lemma_carried_is_held(inventory, n - 1, c);
        lemma_carried_is_stocked(inventory, n - 1);
        assert(inventory.take(n).drop_last() =~= inventory.take(n - 1));
        assert(inventory[n - 1].quantity >= 0);
        assert(stock(carried_by_code(inventory, n - 1), c) >= 0);
    }
}

/// A batch never withdraws more than the bank holds beyond what is reserved.
pub proof fn law_withdrawal_leaves_the_reserves(
    items: Seq<Item>,
    m: Means,
    who: Character,
    skill: Seq<char>,
    c: Seq<char>,
)
    requires
        are_plain_recipes(items),
        c.len() > 0,
        forall|i: int| 0 <= i < m.inventory.len() ==> (#[trigger] m.inventory[i]).quantity >= 0,
    ensures
        wanted(refining_batch(items, m, who, skill).withdraw, c) <= max_int(
            bank_qty(m.bank, c) - stock(m.reserved, c),
            0,
        ),
{
    law_batch_withdraws_what_is_missing(items, m, who, skill, c);
    law_batch_respects_reservations(items, m, who, skill, c);
    lemma_carried_is_held(m.inventory, m.inventory.len() as int, c);
    lemma_carried_is_stocked(m.inventory, m.inventory.len() as int);
    assert(m.inventory.take(m.inventory.len() as int) =~= m.inventory);
    assert(stock(carried_by_code(m.inventory, m.inventory.len() as int), c) >= 0);
}

} // verus!
