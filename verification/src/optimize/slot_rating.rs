//! The gear slots of a character and the ranking of items for them.
//!
//! A rating is a number by which items for one slot are ordered: above zero for an item that is
//! better than leaving the slot empty, zero for one that ties with empty.

use vstd::prelude::*;

use crate::api::GameData;
use crate::table::{Duplicate, Table};
use crate::text::same;
use crate::types::{find_item, item_named, Character, Item, Resource};

verus! {

/// What a character is being fitted out for.
pub enum ItemRole<'a> {
    /// Fighting whichever monster turns out best; no monster is given beforehand.
    Combat,
    /// Gathering one resource.
    Gathering { skill: &'a str, resource: &'a Resource },
}

/// One item and its rating for a slot.
#[derive(Debug)]
pub struct RankedItem {
    pub code: String,
    pub rating: i64,
}

impl Clone for RankedItem {
    fn clone(&self) -> (r: Self)
        ensures
            r == *self,
    {
        RankedItem { code: self.code.clone(), rating: self.rating }
    }
}

/// The items worth wearing in one slot, best first. Walk the list in order and act on the first
/// entry that can be had right now.
#[derive(Debug)]
pub struct SlotRating {
    pub slot: &'static str,
    pub category: &'static str,
    pub ranked: Vec<RankedItem>,
}

impl SlotRating {
    /// The code of the best item.
    pub fn best_code(&self) -> (r: Option<&str>)
        ensures
            match r {
                Some(code) => self.ranked@.len() > 0 && code@ == self.ranked@[0].code@,
                None => self.ranked@.len() == 0,
            },
    {
        if self.ranked.len() > 0 {
            Some(self.ranked[0].code.as_str())
        } else {
            None
        }
    }

    /// The rating of the best item; 0 where there is none.
    pub fn best_rating(&self) -> (r: i64)
        ensures
            r == if self.ranked@.len() > 0 {
                self.ranked@[0].rating
            } else {
                0
            },
    {
        if self.ranked.len() > 0 {
            self.ranked[0].rating
        } else {
            0
        }
    }
}

/// The slots that make up a loadout: label, item category and what is worn there.
pub open spec fn slots_of(character: Character) -> Seq<(Seq<char>, Seq<char>, Seq<char>)> {
    seq![
        ("weapon"@, "weapon"@, character.weapon_slot@),
        ("shield"@, "shield"@, character.shield_slot@),
        ("helmet"@, "helmet"@, character.helmet_slot@),
        ("body_armor"@, "body_armor"@, character.body_armor_slot@),
        ("leg_armor"@, "leg_armor"@, character.leg_armor_slot@),
        ("boots"@, "boots"@, character.boots_slot@),
        ("ring1"@, "ring"@, character.ring1_slot@),
        ("ring2"@, "ring"@, character.ring2_slot@),
        ("amulet"@, "amulet"@, character.amulet_slot@),
        ("artifact1"@, "artifact"@, character.artifact1_slot@),
        ("artifact2"@, "artifact"@, character.artifact2_slot@),
        ("artifact3"@, "artifact"@, character.artifact3_slot@),
        ("rune"@, "rune"@, character.rune_slot@),
    ]
}

/// The thirteen slots that make up a loadout: label, item category, code of what is worn there.
/// Utility slots hold consumables and the bag holds no gear, so neither is among them.
pub fn slot_definitions(character: &Character) -> (r: [(&'static str, &'static str, &str); 13])
    ensures
        r@.len() == 13,
        slots_of(*character).len() == 13,
        forall|i: int|
            0 <= i < 13 ==> {
                &&& (#[trigger] r@[i]).0@ == slots_of(*character)[i].0
                &&& r@[i].1@ == slots_of(*character)[i].1
                &&& r@[i].2@ == slots_of(*character)[i].2
            },
{
    [
        ("weapon", "weapon", character.weapon_slot.as_str()),
        ("shield", "shield", character.shield_slot.as_str()),
        ("helmet", "helmet", character.helmet_slot.as_str()),
        ("body_armor", "body_armor", character.body_armor_slot.as_str()),
        ("leg_armor", "leg_armor", character.leg_armor_slot.as_str()),
        ("boots", "boots", character.boots_slot.as_str()),
        ("ring1", "ring", character.ring1_slot.as_str()),
        ("ring2", "ring", character.ring2_slot.as_str()),
        ("amulet", "amulet", character.amulet_slot.as_str()),
        ("artifact1", "artifact", character.artifact1_slot.as_str()),
        ("artifact2", "artifact", character.artifact2_slot.as_str()),
        ("artifact3", "artifact", character.artifact3_slot.as_str()),
        ("rune", "rune", character.rune_slot.as_str()),
    ]
}

/// What the first `n` slots hold, by label; empty slots are left out.
pub open spec fn worn(slots: Seq<(Seq<char>, Seq<char>, Seq<char>)>, n: int) -> Map<
    Seq<char>,
    Seq<char>,
>
    decreases n,
{
    if n <= 0 {
        Map::empty()
    } else if slots[n - 1].2.len() == 0 {
        worn(slots, n - 1)
    } else {
        worn(slots, n - 1).insert(slots[n - 1].0, slots[n - 1].2)
    }
}

/// A table of strings, as a map of their characters.
pub open spec fn texts(t: Map<Seq<char>, String>) -> Map<Seq<char>, Seq<char>> {
    t.map_values(|s: String| s@)
}

impl Duplicate for String {
    open spec fn alike(a: Self, b: Self) -> bool {
        a == b
    }

    fn duplicate(&self) -> (r: Self) {
        self.clone()
    }
}

/// Every slot's currently equipped item code, keyed by slot label; empty slots are omitted.
pub fn equipped_codes(character: &Character) -> (r: Table<String>)
    ensures
        r.wf(),
        texts(r@) == worn(slots_of(*character), 13),
{
    let slots = slot_definitions(character);
    let mut out: Table<String> = Table::new();
    proof {
        assert(texts(out@) =~= worn(slots_of(*character), 0));
    }
    let mut i: usize = 0;
    while i < 13
        invariant
            i <= 13,
            out.wf(),
            texts(out@) == worn(slots_of(*character), i as int),
            slots@.len() == 13,
            slots_of(*character).len() == 13,
            forall|k: int|
                0 <= k < 13 ==> {
                    &&& (#[trigger] slots@[k]).0@ == slots_of(*character)[k].0
                    &&& slots@[k].1@ == slots_of(*character)[k].1
                    &&& slots@[k].2@ == slots_of(*character)[k].2
                },
        decreases 13 - i,
    {
        let code: &str = slots[i].2;
        assert(slots@[i as int].2@ == slots_of(*character)[i as int].2);
        if !code.is_empty() {
            let ghost before = out@;
            let value: String = code.to_owned();
            out.insert(slots[i].0.to_owned(), value);
            assert(texts(out@) =~= texts(before).insert(slots@[i as int].0@, code@));
        }
        i += 1;
    }
    out
}

/// The item worn under a code; none for an empty slot or an unknown code.
pub open spec fn worn_item(items: Seq<Item>, code: Seq<char>) -> Option<Item> {
    if code.len() == 0 {
        None
    } else {
        item_named(items, code)
    }
}

/// The item worn under a code; none for an empty slot or an unknown code.
pub fn current_item<'a>(data: &'a GameData, code: &str) -> (r: Option<&'a Item>)
    ensures
        match r {
            Some(item) => worn_item(data.items@, code@) == Some(*item),
            None => worn_item(data.items@, code@) is None,
        },
{
    if code.is_empty() {
        None
    } else {
        match find_item(&data.items, code) {
            Some(i) => Some(&data.items[i]),
            None => None,
        }
    }
}

/// The rating of the first entry with the given code, from place `from` on; 0 where there is
/// none.
pub open spec fn listed_rating(ranked: Seq<RankedItem>, code: Seq<char>, from: int) -> int
    decreases ranked.len() - from,
{
    if from < 0 || from >= ranked.len() {
        0
    } else if ranked[from].code@ == code {
        ranked[from].rating as int
    } else {
        listed_rating(ranked, code, from + 1)
    }
}

/// The rating of what is worn in a slot: none for an empty slot, which every ranked item beats.
pub open spec fn rating_worn(ranked: Seq<RankedItem>, equipped: Option<Seq<char>>) -> Option<int> {
    match equipped {
        None => None,
        Some(code) => Some(listed_rating(ranked, code, 0)),
    }
}

/// The rating of whatever is currently equipped in a slot, by which a genuine upgrade over
/// current gear is told from a mere upgrade over nothing. None for an empty slot, so that any
/// ranked candidate counts as a pickup; 0, the rating of an empty slot, for gear that `ranked`
/// does not list.
pub fn current_slot_rating(ranked: &[RankedItem], equipped_code: Option<&str>) -> (r: Option<i64>)
    ensures
        match equipped_code {
            None => r is None,
            Some(code) => r matches Some(c) && c == listed_rating(ranked@, code@, 0),
        },
{
    match equipped_code {
        None => None,
        Some(code) => {
            let mut i: usize = 0;
            while i < ranked.len()
                invariant
                    i <= ranked.len(),
                    equipped_code == Some(code),
                    listed_rating(ranked@, code@, 0) == listed_rating(ranked@, code@, i as int),
                decreases ranked.len() - i,
            {
                if same(&ranked[i].code, code) {
                    return Some(ranked[i].rating);
                }
                i += 1;
            }
            Some(0)
        },
    }
}

/// Whether a rating beats that of what is worn.
pub open spec fn outranks(rating: int, current: Option<int>) -> bool {
    match current {
        None => true,
        Some(c) => rating > c,
    }
}

/// `item` is a genuine upgrade over what the slot holds, and not the very item worn there.
pub open spec fn is_upgrade(item: RankedItem, ranked: Seq<RankedItem>, equipped: Option<Seq<char>>) -> bool {
    &&& outranks(item.rating as int, rating_worn(ranked, equipped))
    &&& equipped != Some(item.code@)
}

/// Whether the `i`-th entry of a ranking is a genuine upgrade over what the slot holds.
pub fn upgrades(ranked: &[RankedItem], i: usize, current: Option<i64>, equipped: Option<&str>) -> (r: bool)
    requires
        i < ranked@.len(),
        match equipped {
            None => current is None,
            Some(code) => current is Some && current->0 == listed_rating(ranked@, code@, 0),
        },
    ensures
        r == is_upgrade(ranked@[i as int], ranked@, opt_text(equipped)),
{
    let above: bool = match current {
        None => true,
        Some(c) => ranked[i].rating > c,
    };
    let other: bool = match equipped {
        None => true,
        Some(code) => !same(code, &ranked[i].code),
    };
    above && other
}

/// The characters of an optional string.
pub open spec fn opt_text(s: Option<&str>) -> Option<Seq<char>> {
    match s {
        None => None,
        Some(t) => Some(t@),
    }
}

} // verus!
