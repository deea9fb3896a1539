//! Bodies of the action requests.

use vstd::prelude::*;

use super::item::Item;

verus! {

/// One stack of a bank deposit.
#[derive(Debug)]
pub struct DepositItem {
    pub code: String,
    pub quantity: i32,
}

impl Clone for DepositItem {
    fn clone(&self) -> (r: Self)
        ensures
            r == *self,
    {
        DepositItem { code: self.code.clone(), quantity: self.quantity }
    }
}

/// One item to put on.
#[derive(Debug)]
pub struct EquipBody {
    pub code: String,
    pub slot: String,
    pub quantity: i32,
}

impl Clone for EquipBody {
    fn clone(&self) -> (r: Self)
        ensures
            r == *self,
    {
        EquipBody { code: self.code.clone(), slot: self.slot.clone(), quantity: self.quantity }
    }
}

/// One slot to take off.
#[derive(Debug)]
pub struct UnequipBody {
    pub slot: String,
    pub quantity: i32,
}

impl Clone for UnequipBody {
    fn clone(&self) -> (r: Self)
        ensures
            r == *self,
    {
        UnequipBody { slot: self.slot.clone(), quantity: self.quantity }
    }
}

/// What the server says now sits in a slot.
#[derive(Debug)]
pub struct EquipSlotInfo {
    pub slot: String,
    pub item: Item,
}

/// One craft request.
#[derive(Debug)]
pub struct CraftBody {
    pub code: String,
    pub quantity: i32,
}

impl Clone for CraftBody {
    fn clone(&self) -> (r: Self)
        ensures
            r == *self,
    {
        CraftBody { code: self.code.clone(), quantity: self.quantity }
    }
}

} // verus!
