//! Going to the nearest of several places.

use vstd::prelude::*;

use crate::optimize::targeting::Location;
use crate::ranking::{find_first_best, first_best, law_first_best};
use crate::text::same;
use crate::types::Character;

verus! {

/// The distance in steps between two places on one layer.
pub open spec fn distance(x: int, y: int, to_x: int, to_y: int) -> int {
    (if to_x >= x {
        to_x - x
    } else {
        x - to_x
    }) + (if to_y >= y {
        to_y - y
    } else {
        y - to_y
    })
}

/// Whether one of the first `n` places is on a layer.
pub open spec fn any_on_layer(locs: Seq<Location>, layer: Seq<char>, n: int) -> bool {
    exists|i: int| 0 <= i < n && (#[trigger] locs[i]).0@ == layer
}

/// How near each place is, the nearer the greater; places on other layers only count where none
/// is on the character's own.
pub open spec fn nearness(locs: Seq<Location>, layer: Seq<char>, x: int, y: int) -> Seq<Option<i64>> {
    Seq::new(
        locs.len(),
        |i: int|
            if locs[i].0@ == layer || !any_on_layer(locs, layer, locs.len() as int) {
                Some((-distance(x, y, locs[i].1 as int, locs[i].2 as int)) as i64)
            } else {
                None
            },
    )
}

fn is_on_layer(locs: &[Location], layer: &str) -> (r: bool)
    ensures
        r == any_on_layer(locs@, layer@, locs@.len() as int),
{
    let mut i: usize = 0;
    while i < locs.len()
        invariant
            i <= locs@.len(),
            forall|j: int| 0 <= j < i ==> (#[trigger] locs@[j]).0@ != layer@,
        decreases locs@.len() - i,
    {
        if same(&locs[i].0, layer) {
            return true;
        }
        i += 1;
    }
    false
}

/// The nearest place, by its position in the list: on the character's own layer where there is
/// one, the first one where several are as near.
pub fn nearest_location(char_layer: &str, char_x: i32, char_y: i32, locs: &[Location]) -> (r: Option<
    usize,
>)
    ensures
        match first_best(
            nearness(locs@, char_layer@, char_x as int, char_y as int),
            locs@.len() as int,
        ) {
            Some(b) => r matches Some(i) && i == b && i < locs@.len(),
            None => r is None,
        },
{
    let home: bool = is_on_layer(locs, char_layer);
    let ghost target = nearness(locs@, char_layer@, char_x as int, char_y as int);
    let mut keys: Vec<Option<i64>> = Vec::new();
    let mut i: usize = 0;
    while i < locs.len()
        invariant
            i <= locs@.len(),
            home == any_on_layer(locs@, char_layer@, locs@.len() as int),
            target == nearness(locs@, char_layer@, char_x as int, char_y as int),
            keys@ == target.take(i as int),
        decreases locs@.len() - i,
    {
        if !home || same(&locs[i].0, char_layer) {
            let dx: i64 = locs[i].1 as i64 - char_x as i64;
            let dy: i64 = locs[i].2 as i64 - char_y as i64;
            let ax: i64 = if dx >= 0 {
                dx
            } else {
                -dx
            };
            let ay: i64 = if dy >= 0 {
                dy
            } else {
                -dy
            };
            keys.push(Some(-(ax + ay)));
        } else {
            keys.push(None);
        }
        i += 1;
        assert(target.take(i as int) =~= target.take(i - 1).push(target[i - 1]));
    }
    assert(target.take(i as int) =~= target);
    find_first_best(&keys)
}

/// The place found is on the character's own layer where any place is, and no place there is
/// nearer. Where no place is on that layer, it is the nearest of all by its coordinates. Of places
/// as near it is the first. A place is found wherever there is one.
pub proof fn law_nearest_is_nearest(locs: Seq<Location>, layer: Seq<char>, x: i32, y: i32)
    ensures
        match first_best(nearness(locs, layer, x as int, y as int), locs.len() as int) {
            Some(b) => {
                &&& 0 <= b < locs.len()
                &&& any_on_layer(locs, layer, locs.len() as int) ==> locs[b].0@ == layer
                &&& forall|i: int|
                    0 <= i < locs.len() && ((#[trigger] locs[i]).0@ == layer || !any_on_layer(
                        locs,
                        layer,
                        locs.len() as int,
                    )) ==> {
                        let best = distance(x as int, y as int, locs[b].1 as int, locs[b].2 as int);
                        let other = distance(x as int, y as int, locs[i].1 as int, locs[i].2 as int);
                        best <= other && (i < b ==> best < other)
                    }
            },
            None => locs.len() == 0,
        },
{
    let keys = nearness(locs, layer, x as int, y as int);
    let home = any_on_layer(locs, layer, locs.len() as int);
    law_first_best(keys, locs.len() as int);
    if first_best(keys, locs.len() as int) is None && locs.len() > 0 {
        if home {
            let i = choose|i: int| 0 <= i < locs.len() && (#[trigger] locs[i]).0@ == layer;
            assert(keys[i] is Some);
        } else {
            assert(keys[0] is Some);
        }
    }
    if let Some(b) = first_best(keys, locs.len() as int) {
        assert forall|i: int|
            0 <= i < locs.len() && ((#[trigger] locs[i]).0@ == layer || !home) implies ({
            let best = distance(x as int, y as int, locs[b].1 as int, locs[b].2 as int);
            let other = distance(x as int, y as int, locs[i].1 as int, locs[i].2 as int);
            best <= other && (i < b ==> best < other)
        }) by {
            assert(keys[i] is Some);
        }
    }
}

/// What to do to get to one of several places.
#[derive(Debug)]
pub enum Move {
    /// The character is there.
    Stay,
    /// Go to these coordinates.
    Go { x: i32, y: i32 },
    /// The nearest place is on another layer: do not move.
    OtherLayer { layer: String },
    /// There is no such place.
    Nowhere,
}

/// Whether a character stands at one of the first `n` places.
pub open spec fn stands_at(who: Character, locs: Seq<Location>, n: int) -> bool {
    exists|i: int|
        0 <= i < n && (#[trigger] locs[i]).0@ == who.layer@ && locs[i].1 == who.x && locs[i].2
            == who.y
}

/// What to do to get to the nearest of several places.
pub fn plan_move(character: &Character, locs: &[Location]) -> (r: Move)
    ensures
        if stands_at(*character, locs@, locs@.len() as int) {
            r is Stay
        } else {
            match first_best(
                nearness(locs@, character.layer@, character.x as int, character.y as int),
                locs@.len() as int,
            ) {
                Some(b) => if locs@[b].0@ == character.layer@ {
                    r matches Move::Go { x, y } && x == locs@[b].1 && y == locs@[b].2
                } else {
                    r matches Move::OtherLayer { layer } && layer@ == locs@[b].0@
                },
                None => r is Nowhere,
            }
        },
{
    let mut i: usize = 0;
    while i < locs.len()
        invariant
            i <= locs@.len(),
            forall|j: int|
                0 <= j < i ==> !((#[trigger] locs@[j]).0@ == character.layer@ && locs@[j].1
                    == character.x && locs@[j].2 == character.y),
        decreases locs@.len() - i,
    {
        if locs[i].1 == character.x && locs[i].2 == character.y && same(
            &locs[i].0,
            &character.layer,
        ) {
            return Move::Stay;
        }
        i += 1;
    }
    match nearest_location(&character.layer, character.x, character.y, locs) {
        Some(b) => if same(&locs[b].0, &character.layer) {
            Move::Go { x: locs[b].1, y: locs[b].2 }
        } else {
            Move::OtherLayer { layer: locs[b].0.clone() }
        },
        None => Move::Nowhere,
    }
}

} // verus!
