//! The values the game's API speaks of.

mod action_bodies;
mod bank;
mod character;
mod envelope;
mod grand_exchange;
mod item;
mod map;
mod monster;
mod resource;

pub use action_bodies::{CraftBody, DepositItem, EquipBody, EquipSlotInfo, UnequipBody};
pub use bank::{bank_qty, copy_bank, quantity_in, BankDetails, BankItem, GoldBody};
pub use character::{
    copy_character, copy_inventory, held, quantity_held, same_character, Character, Effect, InventorySlot,
};
pub use envelope::{ApiError, ApiResponse, PagedResponse};
pub use grand_exchange::GEOrder;
pub use item::{
    find_item, is_first_item, item_index, item_named, recipe_of, CraftInfo, CraftIngredient, Item,
    ItemCondition, ItemEffect,
};
pub use map::{
    Destination, MapAccess, MapCondition, MapContent, MapInteractions, MapTile, MapTransition,
    MoveBody,
};
pub use monster::{Drop, Fight, FightCharacter, Monster, MonsterDrop, MonsterEffect};
pub use resource::{GatherDetails, GatherDrop, Resource};
