//! Reference data, loaded once at startup.

use vstd::prelude::*;

use crate::text::same;
use crate::types::{Item, MapTile, Monster, Resource};

verus! {

/// Static game data, shared for the lifetime of the program.
#[derive(Debug)]
pub struct GameData {
    pub monsters: Vec<Monster>,
    pub items: Vec<Item>,
    pub resources: Vec<Resource>,
    pub maps: Vec<MapTile>,
    pub craftable_equip: Vec<Item>,
}

/// The item types that can be worn.
pub const EQUIPMENT_TYPES: [&'static str; 12] = [
    "weapon",
    "shield",
    "helmet",
    "body_armor",
    "leg_armor",
    "boots",
    "ring",
    "amulet",
    "artifact",
    "utility",
    "rune",
    "bag",
];

/// Whether an item type is one that can be worn.
pub open spec fn is_equipment_type(item_type: Seq<char>) -> bool {
    exists|i: int| 0 <= i < 12 && #[trigger] EQUIPMENT_TYPES@[i]@ == item_type
}

/// Whether an item belongs among the craftable equipment: it has a recipe and can be worn.
pub fn is_craftable_equipment(item: &Item) -> (r: bool)
    ensures
        r == (item.craft is Some && is_equipment_type(item.item_type@)),
{
    if item.craft.is_none() {
        return false;
    }
    let types: [&'static str; 12] = EQUIPMENT_TYPES;
    let mut i: usize = 0;
    while i < 12
        invariant
            i <= 12,
            item.craft is Some,
            types == EQUIPMENT_TYPES,
            forall|j: int| 0 <= j < i ==> #[trigger] EQUIPMENT_TYPES@[j]@ != item.item_type@,
        decreases 12 - i,
    {
        if same(types[i], &item.item_type) {
            assert(EQUIPMENT_TYPES@[i as int]@ == item.item_type@);
            return true;
        }
        i += 1;
    }
    false
}

/// What can be worn: weapons, shields, armor, jewelry, artifacts, utilities, runes and bags.
pub proof fn law_what_can_be_worn(t: Seq<char>)
    ensures
        is_equipment_type(t) <==> t == "weapon"@ || t == "shield"@ || t == "helmet"@ || t
            == "body_armor"@ || t == "leg_armor"@ || t == "boots"@ || t == "ring"@ || t
            == "amulet"@ || t == "artifact"@ || t == "utility"@ || t == "rune"@ || t == "bag"@,
{
    let types = EQUIPMENT_TYPES@;
    assert(types[0]@ == "weapon"@ && types[1]@ == "shield"@ && types[2]@ == "helmet"@);
    assert(types[3]@ == "body_armor"@ && types[4]@ == "leg_armor"@ && types[5]@ == "boots"@);
    assert(types[6]@ == "ring"@ && types[7]@ == "amulet"@ && types[8]@ == "artifact"@);
    assert(types[9]@ == "utility"@ && types[10]@ == "rune"@ && types[11]@ == "bag"@);
}

} // verus!
