//! Monsters and fights.

use vstd::prelude::*;

verus! {

/// A stack dropped by a beaten monster.
#[derive(Debug)]
pub struct Drop {
    pub quantity: u32,
    pub code: String,
}

impl Clone for Drop {
    fn clone(&self) -> (r: Self)
        ensures
            r == *self,
    {
        Drop { quantity: self.quantity, code: self.code.clone() }
    }
}

/// What one character takes from a fight.
#[derive(Debug)]
pub struct FightCharacter {
    pub character_name: String,
    pub xp: i32,
    pub gold: i32,
    pub drops: Option<Vec<Drop>>,
    pub final_hp: i32,
}

/// A fight as the server reports it.
#[derive(Debug)]
pub struct Fight {
    pub result: String,
    pub turns: i32,
    pub opponent: String,
    pub logs: Vec<String>,
    pub characters: Vec<FightCharacter>,
}

/// An effect a monster has in a fight.
#[derive(Debug)]
pub struct MonsterEffect {
    pub code: String,
    pub value: i32,
    pub description: String,
}

impl Clone for MonsterEffect {
    fn clone(&self) -> (r: Self)
        ensures
            r == *self,
    {
        MonsterEffect { code: self.code.clone(), value: self.value, description: self.description.clone() }
    }
}

/// One line of a drop table: one chance in `rate` of between `min_quantity` and `max_quantity`.
#[derive(Debug)]
pub struct MonsterDrop {
    pub code: String,
    pub rate: i32,
    pub min_quantity: i32,
    pub max_quantity: i32,
}

impl Clone for MonsterDrop {
    fn clone(&self) -> (r: Self)
        ensures
            r == *self,
    {
        MonsterDrop { code: self.code.clone(), rate: self.rate, min_quantity: self.min_quantity, max_quantity: self.max_quantity }
    }
}

/// A monster.
#[derive(Debug)]
pub struct Monster {
    pub name: String,
    pub code: String,
    pub level: i32,
    pub monster_type: String,
    pub hp: i32,
    pub attack_fire: i32,
    pub attack_earth: i32,
    pub attack_water: i32,
    pub attack_air: i32,
    pub res_fire: i32,
    pub res_earth: i32,
    pub res_water: i32,
    pub res_air: i32,
    pub critical_strike: i32,
    pub initiative: i32,
    pub effects: Vec<MonsterEffect>,
    pub min_gold: i32,
    pub max_gold: i32,
    pub drops: Vec<MonsterDrop>,
}

} // verus!
