//! The decisions behind each character's loop.

pub mod acquisition;
pub mod acquisition_laws;
pub mod bag_laws;
pub mod bank_ops;
pub mod bank_round;
pub mod consumables;
pub mod craft_laws;
pub mod crafting_exec;
pub mod crafting_plan;
pub mod crafting_round;
pub mod fight;
pub mod filler_laws;
pub mod flag_handling;
pub mod flag_round;
pub mod food_round;
pub mod gather;
pub mod gear_laws;
pub mod grand_exchange;
pub mod init;
pub mod market;
pub mod movement;
pub mod plan_laws;
pub mod price_queries;
pub mod promotion;
pub mod purchase_laws;
pub mod query_laws;
pub mod refine_laws;
pub mod refining;
pub mod refining_round;
pub mod repositioning;
pub mod round_laws;
pub mod supply;
pub mod upgrade_steps;
pub mod utility;
pub mod utility_round;
pub mod wish_laws;
pub mod wishlist_plan;

pub use grand_exchange::{plan_ge_purchases, GEPurchasePlan};
pub use init::seed_shared_state;
