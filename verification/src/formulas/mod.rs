//! The game's formulas.

pub mod crafting;
pub mod laws;
pub mod recycling;
pub mod tiers;
pub mod xp;

pub use crafting::{craftable_quantity, crafting_xp_terms, xp_to_next_level, CraftXpTerms};
pub use recycling::{
    is_recyclable_for_wishlist, recycle_return_quantity, recycle_returns_per_ingredient,
};
pub use tiers::{gather_promotion_threshold, global_subtier, is_lower_subtier, tier};
pub use xp::{
    calculate_gathering_cooldown, calculate_gathering_xp, level_penalty_tier, monster_multiplier,
};
