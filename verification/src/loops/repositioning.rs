//! What a character goes after next.

use vstd::prelude::*;

use super::price_queries::{is_ingredient, push_ingredients};
use crate::flags::{GameState, StateView};
use crate::formulas::tiers::{global_subtier, in_lower_half, tier_of};
use crate::optimize::combat_sim::{worth_fighting, BaseDamage};
use crate::optimize::targeting::{
    find_best_material_drop_target, find_optimal_monster, is_monster_target, location_views,
    material_yields, yields_cover, GatherTarget, Location, MonsterTarget,
};
use crate::ranking::last_best;
use crate::text::has_code;
use crate::types::{Character, Item};

verus! {

/// The half-tier a level lies in.
pub open spec fn subtier(level: int) -> int {
    2 * tier_of(level) + if in_lower_half(level) {
        0int
    } else {
        1int
    }
}

/// Whether a fighting character goes after materials for the wishlist rather than XP: its own level
/// lies in a higher half-tier than the crafter's lowest gear-crafting level.
pub fn should_farm_wishlist_drops(character: &Character, state: &GameState) -> (r: bool)
    ensures
        r == (subtier(character.level as int) > subtier(state@.crafter_min_gear_level as int)),
{
    global_subtier(character.level) > global_subtier(state.crafter_min_gear_level())
}

/// Whether one of the first `n` wishlisted items takes `c` as a direct ingredient.
pub open spec fn is_wanted(items: Seq<Item>, wishes: Seq<String>, n: int, c: Seq<char>) -> bool {
    exists|i: int| 0 <= i < n && is_ingredient(items, (#[trigger] wishes[i])@, c)
}

/// Every direct ingredient of the wishlisted items.
pub fn wishlist_material_codes(state: &GameState, item_codes: &[String]) -> (r: Vec<String>)
    requires
        state.wf(),
    ensures
        forall|c: Seq<char>|
            #[trigger] has_code(r@, c) == is_wanted(
                state@.data.items@,
                item_codes@,
                item_codes@.len() as int,
                c,
            ),
{
    let items: &Vec<Item> = &state.data().items;
    let mut codes: Vec<String> = Vec::new();
    let mut i: usize = 0;
    while i < item_codes.len()
        invariant
            i <= item_codes@.len(),
            items@ == state@.data.items@,
            forall|c: Seq<char>|
                #[trigger] has_code(codes@, c) == is_wanted(items@, item_codes@, i as int, c),
        decreases item_codes@.len() - i,
    {
        let ghost before = codes@;
        push_ingredients(&item_codes[i], items, &mut codes);
        proof {
            assert forall|c: Seq<char>|
                #[trigger] has_code(codes@, c) == is_wanted(items@, item_codes@, i + 1, c) by {
                assert(has_code(codes@, c) == (has_code(before, c) || is_ingredient(
                    items@,
                    item_codes@[i as int]@,
                    c,
                )));
                if is_ingredient(items@, item_codes@[i as int]@, c) {
                    assert(is_wanted(items@, item_codes@, i + 1, c));
                }
                if is_wanted(items@, item_codes@, i as int, c) {
                    let j = choose|j: int|
                        0 <= j < i && is_ingredient(items@, (#[trigger] item_codes@[j])@, c);
                    assert(is_ingredient(items@, item_codes@[j]@, c));
                    assert(is_wanted(items@, item_codes@, i + 1, c));
                }
                if is_wanted(items@, item_codes@, i + 1, c) {
                    let j = choose|j: int|
                        0 <= j < i + 1 && is_ingredient(items@, (#[trigger] item_codes@[j])@, c);
                    if j < i {
                        assert(is_wanted(items@, item_codes@, i as int, c));
                    }
                }
            }
        }
        i += 1;
    }
    codes
}

/// What a fight target was picked for.
#[derive(Debug, Clone, Copy, PartialEq, Eq, Structural)]
pub enum Pursuit {
    /// Materials for wishlisted gear.
    GearMaterials,
    /// Materials for wishlisted potions.
    AlchemyMaterials,
    /// Plain XP per hour.
    Xp,
}

/// Picks what to fight: once past the threshold for farming, the monster that yields the most
/// materials for wishlisted gear, then for wishlisted potions, and otherwise, or where no beatable
/// monster drops any, the one that gives the most XP per hour. `damage`, `xph` and `yields` give
/// what the monsters deal and are worth.
pub fn find_fight_target(
    character: &Character,
    state: &GameState,
    damage: &[BaseDamage],
    xph: &[i64],
    yields: &[Vec<i64>],
) -> (r: Option<(Pursuit, MonsterTarget)>)
    requires
        state.wf(),
        damage@.len() == state@.data.monsters@.len(),
        xph@.len() == state@.data.monsters@.len(),
        yields_cover(state@.data, yields@),
    ensures
        ({
            let s = state@;
            let n = s.data.monsters@.len() as int;
            let farm = subtier(character.level as int) > subtier(s.crafter_min_gear_level as int);
            exists|gear: Seq<String>, alchemy: Seq<String>|
                {
                    &&& #[trigger] materials_for(s, s.wishlist_equipment, gear)
                    &&& #[trigger] materials_for(s, s.wishlist_alchemy, alchemy)
                    &&& ({
                        let first = last_best(
                            material_yields(*character, s.data, damage@, yields@, gear),
                            n,
                        );
                        let second = last_best(
                            material_yields(*character, s.data, damage@, yields@, alchemy),
                            n,
                        );
                        let plain = last_best(
                            worth_fighting(*character, s.data, damage@, xph@),
                            n,
                        );
                        if farm && first is Some {
                            r matches Some((Pursuit::GearMaterials, t)) && is_monster_target(
                                t,
                                *character,
                                s.data,
                                damage@,
                                xph@,
                                first->0,
                            )
                        } else if farm && second is Some {
                            r matches Some((Pursuit::AlchemyMaterials, t)) && is_monster_target(
                                t,
                                *character,
                                s.data,
                                damage@,
                                xph@,
                                second->0,
                            )
                        } else if plain is Some {
                            r matches Some((Pursuit::Xp, t)) && is_monster_target(
                                t,
                                *character,
                                s.data,
                                damage@,
                                xph@,
                                plain->0,
                            )
                        } else {
                            r is None
                        }
                    })
                }
        }),
{
    let gear: Vec<String> = wishlist_material_codes(state, &state.wishlist_equipment_codes());
    let alchemy: Vec<String> = wishlist_material_codes(state, &state.wishlist_alchemy_codes());
    assert(materials_for(state@, state@.wishlist_equipment, gear@));
    assert(materials_for(state@, state@.wishlist_alchemy, alchemy@));
    if should_farm_wishlist_drops(character, state) {
        if let Some(target) = find_best_material_drop_target(
            character,
            state.data(),
            &gear,
            damage,
            xph,
            yields,
        ) {
            return Some((Pursuit::GearMaterials, target));
        }
        if let Some(target) = find_best_material_drop_target(
            character,
            state.data(),
            &alchemy,
            damage,
            xph,
            yields,
        ) {
            return Some((Pursuit::AlchemyMaterials, target));
        }
    }
    match find_optimal_monster(character, state.data(), damage, xph) {
        Some(target) => Some((Pursuit::Xp, target)),
        None => None,
    }
}

/// `codes` lists exactly the direct ingredients of the wishlisted items.
pub open spec fn materials_for(s: StateView, wishes: Seq<String>, codes: Seq<String>) -> bool {
    forall|c: Seq<char>|
        #[trigger] has_code(codes, c) == is_wanted(s.data.items@, wishes, wishes.len() as int, c)
}

/// The places of the first `n` targets.
pub open spec fn places_of(targets: Seq<GatherTarget>, n: int) -> Seq<(Seq<char>, i32, i32)>
    decreases n,
{
    if n <= 0 {
        Seq::empty()
    } else {
        places_of(targets, n - 1) + location_views(targets[n - 1].locations@)
    }
}

/// Every place where one of the targets is.
pub fn all_locations(targets: &[GatherTarget]) -> (r: Vec<Location>)
    ensures
        location_views(r@) == places_of(targets@, targets@.len() as int),
{
    let mut out: Vec<Location> = Vec::new();
    let mut i: usize = 0;
    assert(location_views(out@) =~= Seq::empty());
    while i < targets.len()
        invariant
            i <= targets@.len(),
            location_views(out@) == places_of(targets@, i as int),
        decreases targets@.len() - i,
    {
        let locs: &Vec<Location> = &targets[i].locations;
        let ghost before = location_views(out@);
        let mut j: usize = 0;
        assert(before + location_views(locs@).take(0) =~= before);
        while j < locs.len()
            invariant
                j <= locs@.len(),
                location_views(out@) == before + location_views(locs@).take(j as int),
            decreases locs@.len() - j,
        {
            let ghost had = out@;
            out.push((locs[j].0.clone(), locs[j].1, locs[j].2));
            assert(location_views(out@) =~= location_views(had).push(location_views(locs@)[j as int]));
            j += 1;
            assert(location_views(out@) =~= before + location_views(locs@).take(j as int));
        }
        assert(location_views(locs@).take(j as int) =~= location_views(locs@));
        i += 1;
    }
    out
}

} // verus!
