//! What to wear, what to fight and what to gather.

pub mod brute_force;
pub mod combat_laws;
pub mod combat_sim;
pub mod eligibility;
pub mod gathering_sim;
pub mod loadout_laws;
pub mod loadout_search;
pub mod skill_laws;
pub mod skills;
pub mod slot_rating;
pub mod start_laws;
pub mod stat_laws;
pub mod target_laws;
pub mod targeting;

pub use eligibility::is_healing_consumable;
pub use skills::{refining_skill_for, skill_level, skill_xp_progress};
pub use slot_rating::{current_slot_rating, equipped_codes, ItemRole, RankedItem, SlotRating};
