//! Items, their effects and conditions, and recipes.

use vstd::prelude::*;

use crate::text::same;

verus! {

/// A condition a character must meet to use an item.
#[derive(Debug)]
pub struct ItemCondition {
    pub code: String,
    pub operator: String,
    pub value: i32,
}

impl Clone for ItemCondition {
    fn clone(&self) -> (r: Self)
        ensures
            r == *self,
    {
        ItemCondition { code: self.code.clone(), operator: self.operator.clone(), value: self.value }
    }
}

/// An effect an item grants while worn or when used.
#[derive(Debug)]
pub struct ItemEffect {
    pub code: String,
    pub value: i32,
    pub description: String,
}

impl Clone for ItemEffect {
    fn clone(&self) -> (r: Self)
        ensures
            r == *self,
    {
        ItemEffect { code: self.code.clone(), value: self.value, description: self.description.clone() }
    }
}

/// One ingredient of a recipe.
#[derive(Debug)]
pub struct CraftIngredient {
    pub code: String,
    pub quantity: i32,
}

impl Clone for CraftIngredient {
    fn clone(&self) -> (r: Self)
        ensures
            r == *self,
    {
        CraftIngredient { code: self.code.clone(), quantity: self.quantity }
    }
}

/// A recipe: the skill and level it asks for, what it takes, and how many it yields.
#[derive(Debug)]
pub struct CraftInfo {
    pub skill: Option<String>,
    pub level: Option<i32>,
    pub items: Vec<CraftIngredient>,
    pub quantity: i32,
}

/// An item of the game.
#[derive(Debug)]
pub struct Item {
    pub name: String,
    pub code: String,
    pub level: i32,
    pub item_type: String,
    pub subtype: String,
    pub description: String,
    pub conditions: Vec<ItemCondition>,
    pub effects: Vec<ItemEffect>,
    pub craft: Option<CraftInfo>,
    pub tradeable: bool,
    pub recyclable: bool,
}

/// The first item of `items` with the given code, by index.
pub open spec fn item_index(items: Seq<Item>, code: Seq<char>) -> Option<int> {
    if exists|i: int| is_first_item(items, code, i) {
        Some(choose|i: int| is_first_item(items, code, i))
    } else {
        None
    }
}

/// `i` is the first place of `items` at which `code` stands.
pub open spec fn is_first_item(items: Seq<Item>, code: Seq<char>, i: int) -> bool {
    &&& 0 <= i < items.len()
    &&& items[i].code@ == code
    &&& forall|j: int| 0 <= j < i ==> (#[trigger] items[j]).code@ != code
}

/// The index of the first item with the given code.
pub fn find_item(items: &[Item], code: &str) -> (r: Option<usize>)
    ensures
        match r {
            Some(i) => is_first_item(items@, code@, i as int) && item_index(items@, code@) == Some(i as int),
            None => item_index(items@, code@) is None && forall|j: int|
                0 <= j < items@.len() ==> (#[trigger] items@[j]).code@ != code@,
        },
{
    let mut i: usize = 0;
    while i < items.len()
        invariant
            i <= items.len(),
            forall|j: int| 0 <= j < i ==> (#[trigger] items@[j]).code@ != code@,
        decreases items.len() - i,
    {
        if same(&items[i].code, code) {
            assert(is_first_item(items@, code@, i as int));
            assert forall|k: int| is_first_item(items@, code@, k) implies k == i by {
                if k < i {
                    assert(items@[k].code@ == code@);
                } else if i < k {
                    assert(items@[i as int].code@ != code@);
                }
            }
            return Some(i);
        }
        i += 1;
    }
    None
}

/// The item that an index found by `item_index` stands for.
pub open spec fn item_named(items: Seq<Item>, code: Seq<char>) -> Option<Item> {
    match item_index(items, code) {
        Some(i) => Some(items[i]),
        None => None,
    }
}

/// The recipe of the item with the given code, where it has one.
pub open spec fn recipe_of(items: Seq<Item>, code: Seq<char>) -> Option<CraftInfo> {
    match item_named(items, code) {
        Some(item) => item.craft,
        None => None,
    }
}

} // verus!
