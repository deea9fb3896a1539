//! The characters.

use vstd::prelude::*;

use crate::arith::{sat_i32, saturated};
use crate::text::same;

verus! {

/// One slot of a character's inventory; an unused one has an empty code.
#[derive(Debug)]
pub struct InventorySlot {
    pub slot: i32,
    pub code: String,
    pub quantity: i32,
}

impl Clone for InventorySlot {
    fn clone(&self) -> (r: Self)
        ensures
            r == *self,
    {
        InventorySlot { slot: self.slot, code: self.code.clone(), quantity: self.quantity }
    }
}

/// An effect that is on a character.
#[derive(Debug)]
pub struct Effect {
    pub code: String,
    pub value: i32,
    pub description: String,
}

impl Clone for Effect {
    fn clone(&self) -> (r: Self)
        ensures
            r == *self,
    {
        Effect { code: self.code.clone(), value: self.value, description: self.description.clone() }
    }
}

/// A character, as the server reports it after every action.
#[derive(Debug)]
pub struct Character {
    pub name: String,
    pub account: String,
    pub skin: String,
    pub level: i32,
    pub xp: i32,
    pub max_xp: i32,
    pub gold: i32,
    pub speed: i32,
    pub mining_level: i32,
    pub mining_xp: i32,
    pub mining_max_xp: i32,
    pub woodcutting_level: i32,
    pub woodcutting_xp: i32,
    pub woodcutting_max_xp: i32,
    pub fishing_level: i32,
    pub fishing_xp: i32,
    pub fishing_max_xp: i32,
    pub weaponcrafting_level: i32,
    pub weaponcrafting_xp: i32,
    pub weaponcrafting_max_xp: i32,
    pub gearcrafting_level: i32,
    pub gearcrafting_xp: i32,
    pub gearcrafting_max_xp: i32,
    pub jewelrycrafting_level: i32,
    pub jewelrycrafting_xp: i32,
    pub jewelrycrafting_max_xp: i32,
    pub cooking_level: i32,
    pub cooking_xp: i32,
    pub cooking_max_xp: i32,
    pub alchemy_level: i32,
    pub alchemy_xp: i32,
    pub alchemy_max_xp: i32,
    pub hp: i32,
    pub max_hp: i32,
    pub haste: i32,
    pub critical_strike: i32,
    pub wisdom: i32,
    pub prospecting: i32,
    pub initiative: i32,
    pub threat: i32,
    pub attack_fire: i32,
    pub attack_earth: i32,
    pub attack_water: i32,
    pub attack_air: i32,
    pub dmg: i32,
    pub dmg_fire: i32,
    pub dmg_earth: i32,
    pub dmg_water: i32,
    pub dmg_air: i32,
    pub res_fire: i32,
    pub res_earth: i32,
    pub res_water: i32,
    pub res_air: i32,
    pub effects: Vec<Effect>,
    pub x: i32,
    pub y: i32,
    pub layer: String,
    pub map_id: i32,
    pub cooldown: i32,
    pub cooldown_expiration: Option<String>,
    pub weapon_slot: String,
    pub rune_slot: String,
    pub shield_slot: String,
    pub helmet_slot: String,
    pub body_armor_slot: String,
    pub leg_armor_slot: String,
    pub boots_slot: String,
    pub ring1_slot: String,
    pub ring2_slot: String,
    pub amulet_slot: String,
    pub artifact1_slot: String,
    pub artifact2_slot: String,
    pub artifact3_slot: String,
    pub utility1_slot: String,
    pub utility1_slot_quantity: i32,
    pub utility2_slot: String,
    pub utility2_slot_quantity: i32,
    pub bag_slot: String,
    pub task: String,
    pub task_type: String,
    pub task_progress: i32,
    pub task_total: i32,
    pub inventory_max_items: i32,
    pub inventory: Vec<InventorySlot>,
}

/// How many of `code` the slots hold together; the sum stays at the edge of the 32-bit range where
/// it would leave it.
pub open spec fn held(inventory: Seq<InventorySlot>, code: Seq<char>) -> int
    decreases inventory.len(),
{
    if inventory.len() == 0 {
        0
    } else if inventory.last().code@ == code {
        sat_i32(held(inventory.drop_last(), code) + inventory.last().quantity)
    } else {
        held(inventory.drop_last(), code)
    }
}

/// How many of `code` the slots hold together.
pub fn quantity_held(inventory: &[InventorySlot], code: &str) -> (r: i32)
    ensures
        r == held(inventory@, code@),
{
    let mut total: i32 = 0;
    let mut i: usize = 0;
    while i < inventory.len()
        invariant
            i <= inventory.len(),
            total == held(inventory@.take(i as int), code@),
        decreases inventory.len() - i,
    {
        proof {
            assert(inventory@.take(i + 1).drop_last() =~= inventory@.take(i as int));
        }
        if same(&inventory[i].code, code) {
            total = saturated(total as i64 + inventory[i].quantity as i64);
        }
        i += 1;
    }
    assert(inventory@.take(i as int) =~= inventory@);
    total
}

/// Two characters are the same in everything; their lists hold the same.
pub open spec fn same_character(a: Character, b: Character) -> bool {
    &&& a == (Character { effects: a.effects, inventory: a.inventory, ..b })
    &&& a.effects@ == b.effects@
    &&& a.inventory@ == b.inventory@
}

/// A copy of an inventory.
pub fn copy_inventory(inventory: &[InventorySlot]) -> (r: Vec<InventorySlot>)
    ensures
        r@ == inventory@,
{
    let mut out: Vec<InventorySlot> = Vec::new();
    let mut i: usize = 0;
    while i < inventory.len()
        invariant
            i <= inventory.len(),
            out@ == inventory@.take(i as int),
        decreases inventory.len() - i,
    {
        out.push(inventory[i].clone());
        i += 1;
        assert(inventory@.take(i as int) =~= inventory@.take(i - 1).push(inventory@[i - 1]));
    }
    assert(inventory@.take(i as int) =~= inventory@);
    out
}

/// A copy of a character.
pub fn copy_character(c: &Character) -> (r: Character)
    ensures
        same_character(r, *c),
{
    let mut effects: Vec<Effect> = Vec::new();
    let mut i: usize = 0;
    while i < c.effects.len()
        invariant
            i <= c.effects@.len(),
            effects@ == c.effects@.take(i as int),
        decreases c.effects@.len() - i,
    {
        effects.push(c.effects[i].clone());
        i += 1;
        assert(c.effects@.take(i as int) =~= c.effects@.take(i - 1).push(c.effects@[i - 1]));
    }
    assert(c.effects@.take(i as int) =~= c.effects@);
    let inventory: Vec<InventorySlot> = copy_inventory(&c.inventory);
    let cooldown_expiration: Option<String> = match &c.cooldown_expiration {
        Some(t) => Some(t.clone()),
        None => None,
    };
    Character {
        name: c.name.clone(),
        account: c.account.clone(),
        skin: c.skin.clone(),
        level: c.level,
        xp: c.xp,
        max_xp: c.max_xp,
        gold: c.gold,
        speed: c.speed,
        mining_level: c.mining_level,
        mining_xp: c.mining_xp,
        mining_max_xp: c.mining_max_xp,
        woodcutting_level: c.woodcutting_level,
        woodcutting_xp: c.woodcutting_xp,
        woodcutting_max_xp: c.woodcutting_max_xp,
        fishing_level: c.fishing_level,
        fishing_xp: c.fishing_xp,
        fishing_max_xp: c.fishing_max_xp,
        weaponcrafting_level: c.weaponcrafting_level,
        weaponcrafting_xp: c.weaponcrafting_xp,
        weaponcrafting_max_xp: c.weaponcrafting_max_xp,
        gearcrafting_level: c.gearcrafting_level,
        gearcrafting_xp: c.gearcrafting_xp,
        gearcrafting_max_xp: c.gearcrafting_max_xp,
        jewelrycrafting_level: c.jewelrycrafting_level,
        jewelrycrafting_xp: c.jewelrycrafting_xp,
        jewelrycrafting_max_xp: c.jewelrycrafting_max_xp,
        cooking_level: c.cooking_level,
        cooking_xp: c.cooking_xp,
        cooking_max_xp: c.cooking_max_xp,
        alchemy_level: c.alchemy_level,
        alchemy_xp: c.alchemy_xp,
        alchemy_max_xp: c.alchemy_max_xp,
        hp: c.hp,
        max_hp: c.max_hp,
        haste: c.haste,
        critical_strike: c.critical_strike,
        wisdom: c.wisdom,
        prospecting: c.prospecting,
        initiative: c.initiative,
        threat: c.threat,
        attack_fire: c.attack_fire,
        attack_earth: c.attack_earth,
        attack_water: c.attack_water,
        attack_air: c.attack_air,
        dmg: c.dmg,
        dmg_fire: c.dmg_fire,
        dmg_earth: c.dmg_earth,
        dmg_water: c.dmg_water,
        dmg_air: c.dmg_air,
        res_fire: c.res_fire,
        res_earth: c.res_earth,
        res_water: c.res_water,
        res_air: c.res_air,
        effects,
        x: c.x,
        y: c.y,
        layer: c.layer.clone(),
        map_id: c.map_id,
        cooldown: c.cooldown,
        cooldown_expiration,
        weapon_slot: c.weapon_slot.clone(),
        rune_slot: c.rune_slot.clone(),
        shield_slot: c.shield_slot.clone(),
        helmet_slot: c.helmet_slot.clone(),
        body_armor_slot: c.body_armor_slot.clone(),
        leg_armor_slot: c.leg_armor_slot.clone(),
        boots_slot: c.boots_slot.clone(),
        ring1_slot: c.ring1_slot.clone(),
        ring2_slot: c.ring2_slot.clone(),
        amulet_slot: c.amulet_slot.clone(),
        artifact1_slot: c.artifact1_slot.clone(),
        artifact2_slot: c.artifact2_slot.clone(),
        artifact3_slot: c.artifact3_slot.clone(),
        utility1_slot: c.utility1_slot.clone(),
        utility1_slot_quantity: c.utility1_slot_quantity,
        utility2_slot: c.utility2_slot.clone(),
        utility2_slot_quantity: c.utility2_slot_quantity,
        bag_slot: c.bag_slot.clone(),
        task: c.task.clone(),
        task_type: c.task_type.clone(),
        task_progress: c.task_progress,
        task_total: c.task_total,
        inventory_max_items: c.inventory_max_items,
        inventory,
    }
}

} // verus!
