//! Decision logic of a bot that plays ArtifactsMMO with five cooperating characters: what to
//! fight, gather, craft, buy, equip and flag, as functions over plain values.

pub mod api;
pub mod arith;
pub mod flag_laws;
pub mod flags;
pub mod formulas;
pub mod loops;
pub mod optimize;
pub mod ranking;
pub mod table;
pub mod text;
pub mod types;
