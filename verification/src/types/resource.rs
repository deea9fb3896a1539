//! Gatherable resources.

use vstd::prelude::*;

use super::monster::MonsterDrop;

verus! {

/// A resource that can be gathered.
#[derive(Debug)]
pub struct Resource {
    pub name: String,
    pub code: String,
    pub skill: String,
    pub level: i32,
    pub drops: Vec<MonsterDrop>,
}

/// A gathered stack.
#[derive(Debug)]
pub struct GatherDrop {
    pub code: String,
    pub quantity: i32,
}

impl Clone for GatherDrop {
    fn clone(&self) -> (r: Self)
        ensures
            r == *self,
    {
        GatherDrop { code: self.code.clone(), quantity: self.quantity }
    }
}

/// What a gather or craft gave.
#[derive(Debug)]
pub struct GatherDetails {
    pub xp: i32,
    pub items: Vec<GatherDrop>,
}

} // verus!
