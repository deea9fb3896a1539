//! What the server's replies mean.

use vstd::prelude::*;

use crate::loops::bank_ops::{carried, total_carried, used_count, used_slots, INVENTORY_SLOTS};
use crate::types::{ApiResponse, Character, PagedResponse};

verus! {

/// Whether a character can carry no more: all slots are in use, or it carries as many items as it
/// can.
pub fn is_inventory_full(character: &Character) -> (r: bool)
    ensures
        r == (used_count(character.inventory@, character.inventory@.len() as int)
            >= INVENTORY_SLOTS || carried(
            character.inventory@,
            character.inventory@.len() as int,
        ) >= character.inventory_max_items),
{
    used_slots(&character.inventory) >= INVENTORY_SLOTS || total_carried(&character.inventory)
        >= character.inventory_max_items
}

/// The value a reply holds. An error takes precedence, and a reply with neither is one too.
pub fn reply_value<T>(resp: ApiResponse<T>) -> (r: Result<T, String>)
    ensures
        match resp.error {
            Some(e) => r matches Err(message) && message@ == e.message@,
            None => match resp.data {
                Some(value) => r matches Ok(v) && v == value,
                None => r matches Err(message) && message@ == "no data in response"@,
            },
        },
{
    if let Some(e) = resp.error {
        return Err(e.message);
    }
    match resp.data {
        Some(value) => Ok(value),
        None => Err("no data in response".to_owned()),
    }
}

/// The values on one page; a page without any is empty. An error takes precedence.
pub fn page_values<T>(resp: PagedResponse<T>) -> (r: Result<Vec<T>, String>)
    ensures
        match resp.error {
            Some(e) => r matches Err(message) && message@ == e.message@,
            None => r matches Ok(values) && match resp.data {
                Some(data) => values == data,
                None => values@.len() == 0,
            },
        },
{
    if let Some(e) = resp.error {
        return Err(e.message);
    }
    match resp.data {
        Some(values) => Ok(values),
        None => Ok(Vec::new()),
    }
}

/// The page to ask for after `page`, of `pages` in all (one where the server does not say); none
/// after the last.
pub fn next_page(page: i32, pages: Option<i32>) -> (r: Option<i32>)
    ensures
        ({
            let last = match pages {
                Some(n) => n,
                None => 1,
            };
            if page < last {
                r matches Some(next) && next == page + 1
            } else {
                r is None
            }
        }),
{
    let last: i32 = match pages {
        Some(n) => n,
        None => 1,
    };
    if page < last {
        Some(page + 1)
    } else {
        None
    }
}

/// The first of a list that must not be empty.
pub fn first_of<T>(values: Vec<T>, missing: &str) -> (r: Result<T, String>)
    ensures
        if values@.len() > 0 {
            r matches Ok(v) && v == values@[0]
        } else {
            r matches Err(message) && message@ == missing@
        },
{
    let mut values = values;
    if values.len() > 0 {
        Ok(values.remove(0))
    } else {
        Err(missing.to_owned())
    }
}

} // verus!
