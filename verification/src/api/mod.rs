//! The game's reference data and the protocol around the server's replies.

pub mod client;
pub mod game_data;
pub mod getters;

pub use game_data::{GameData, EQUIPMENT_TYPES};
pub use getters::is_inventory_full;
