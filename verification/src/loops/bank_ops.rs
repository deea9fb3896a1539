//! What a character carries and what it leaves at the bank.

use vstd::prelude::*;

use crate::arith::{sat_i32, saturated};
use crate::types::{held, quantity_held, Character, DepositItem, InventorySlot};

verus! {

/// Where the bank is.
pub const BANK_X: i32 = 4;

pub const BANK_Y: i32 = 1;

/// How many inventory slots a character has.
pub const INVENTORY_SLOTS: usize = 20;

/// Whether a character stands at the bank.
pub open spec fn stands_at_bank(who: Character) -> bool {
    who.x == BANK_X && who.y == BANK_Y
}

/// Whether a character stands at the bank.
pub fn is_at_bank(character: &Character) -> (r: bool)
    ensures
        r == stands_at_bank(*character),
{
    character.x == BANK_X && character.y == BANK_Y
}

/// Total quantity of `code` held across `inventory`.
pub fn inventory_qty(inventory: &[InventorySlot], code: &str) -> (r: i32)
    ensures
        r == held(inventory@, code@),
{
    quantity_held(inventory, code)
}

/// What the first `n` slots hold together; the sum stays at the edge of the 32-bit range where it
/// would leave it.
pub open spec fn carried(inventory: Seq<InventorySlot>, n: int) -> int
    decreases n,
{
    if n <= 0 {
        0
    } else {
        sat_i32(carried(inventory, n - 1) + inventory[n - 1].quantity)
    }
}

/// How many items a character carries.
pub fn total_carried(inventory: &[InventorySlot]) -> (r: i32)
    ensures
        r == carried(inventory@, inventory@.len() as int),
{
    let mut sum: i32 = 0;
    let mut i: usize = 0;
    while i < inventory.len()
        invariant
            i <= inventory@.len(),
            sum == carried(inventory@, i as int),
        decreases inventory@.len() - i,
    {
        sum = saturated(sum as i64 + inventory[i].quantity as i64);
        i += 1;
    }
    sum
}

/// Whether a slot is in use.
pub open spec fn is_used(slot: InventorySlot) -> bool {
    slot.quantity > 0 && slot.code@.len() > 0
}

/// How many of the first `n` slots are in use.
pub open spec fn used_count(inventory: Seq<InventorySlot>, n: int) -> nat
    decreases n,
{
    if n <= 0 {
        0
    } else {
        used_count(inventory, n - 1) + if is_used(inventory[n - 1]) {
            1nat
        } else {
            0nat
        }
    }
}

/// How many slots are in use.
pub fn used_slots(inventory: &[InventorySlot]) -> (r: usize)
    ensures
        r == used_count(inventory@, inventory@.len() as int),
{
    let mut count: usize = 0;
    let mut i: usize = 0;
    while i < inventory.len()
        invariant
            i <= inventory@.len(),
            count <= i,
            count == used_count(inventory@, i as int),
        decreases inventory@.len() - i,
    {
        if inventory[i].quantity > 0 && !inventory[i].code.as_str().is_empty() {
            count += 1;
        }
        i += 1;
    }
    count
}

/// The stacks of the first `n` slots that are in use.
pub open spec fn stacks(inventory: Seq<InventorySlot>, n: int) -> Seq<(Seq<char>, int)>
    decreases n,
{
    if n <= 0 {
        Seq::empty()
    } else if is_used(inventory[n - 1]) {
        stacks(inventory, n - 1).push(
            (inventory[n - 1].code@, inventory[n - 1].quantity as int),
        )
    } else {
        stacks(inventory, n - 1)
    }
}

/// A list of stacks, as mathematical values.
pub open spec fn deposit_views(items: Seq<DepositItem>) -> Seq<(Seq<char>, int)> {
    items.map_values(|d: DepositItem| (d.code@, d.quantity as int))
}

/// Everything a character carries, as stacks to deposit.
pub fn stacks_to_deposit(inventory: &[InventorySlot]) -> (r: Vec<DepositItem>)
    ensures
        deposit_views(r@) == stacks(inventory@, inventory@.len() as int),
{
    let mut out: Vec<DepositItem> = Vec::new();
    let mut i: usize = 0;
    assert(deposit_views(out@) =~= Seq::empty());
    while i < inventory.len()
        invariant
            i <= inventory@.len(),
            deposit_views(out@) == stacks(inventory@, i as int),
        decreases inventory@.len() - i,
    {
        let slot: &InventorySlot = &inventory[i];
        if slot.quantity > 0 && !slot.code.as_str().is_empty() {
            let ghost had = out@;
            out.push(DepositItem { code: slot.code.clone(), quantity: slot.quantity });
            assert(deposit_views(out@) =~= deposit_views(had).push(
                (slot.code@, slot.quantity as int),
            ));
        }
        i += 1;
    }
    out
}

/// The gold a character has to deposit.
pub fn gold_to_deposit(character: &Character) -> (r: Option<i32>)
    ensures
        r == if character.gold > 0 {
            Some(character.gold)
        } else {
            None
        },
{
    if character.gold > 0 {
        Some(character.gold)
    } else {
        None
    }
}

} // verus!
