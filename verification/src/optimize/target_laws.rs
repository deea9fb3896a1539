//! What holds of the monster to fight and the resource to gather: it is within reach, and nothing
//! within reach is better.

use vstd::prelude::*;

use super::combat_sim::{duel, safe_hp, worth_fighting, BaseDamage};
use super::gathering_sim::{
    drops_code, gear_cooldown, gathering_effects, raw_needed, refines, refining_levels,
};
use super::eligibility::plain_sum;
use super::loadout_laws::lemma_contains_pushed;
use super::skill_laws::law_level_is_the_skills_own_field;
use super::skills::level_in;
use super::slot_rating::{slots_of, worn_item};
use super::stat_laws::law_effect_value_is_the_sum;
use super::targeting::{
    best_yield, crafting_order, craft_picks, gatherable, gathering_order, is_gather_target,
    is_monster_target, location_views, locations, marked, optimal_gathering, picked_keys, tie_marks,
    GatherTarget, MonsterTarget,
};
use crate::api::GameData;
use crate::arith::fits_i32;
use crate::loops::crafting_plan::{efficiency, materials};
use crate::formulas::crafting::crafted_by;
use crate::ranking::{
    by_fraction, by_key, last_best, law_last_best, law_ranking, lemma_fractions_are_ordered,
    lemma_keys_are_ordered, ranked,
};
use crate::text::has_code;
use crate::types::{
    is_first_item, item_index, item_named, Character, CraftIngredient, Item, MapTile, Monster,
    MonsterDrop, Resource,
};

verus! {

proof fn lemma_gatherable(resources: Seq<Resource>, skill: Seq<char>, level: int, n: int)
    requires
        0 <= n <= resources.len(),
    ensures
        forall|i: int| #[trigger]
            gatherable(resources, skill, level, n).contains(i) <==> 0 <= i < n
                && resources[i].skill@ == skill && resources[i].level <= level,
        forall|a: int, b: int|
            0 <= a < b < gatherable(resources, skill, level, n).len() ==> #[trigger] gatherable(
                resources,
                skill,
                level,
                n,
            )[a] < #[trigger] gatherable(resources, skill, level, n)[b],
        forall|a: int|
            0 <= a < gatherable(resources, skill, level, n).len() ==> #[trigger] gatherable(
                resources,
                skill,
                level,
                n,
            )[a] < n,
    decreases n,
{
    let all = gatherable(resources, skill, level, n);
    if n > 0 {
        lemma_gatherable(resources, skill, level, n - 1);
        let before = gatherable(resources, skill, level, n - 1);
        assert forall|i: int| #[trigger] all.contains(i) <==> 0 <= i < n && resources[i].skill@
            == skill && resources[i].level <= level by {
            lemma_contains_pushed(before, n - 1, i);
        }
    }
}

/// A resource of the skill that a level is enough for.
pub open spec fn in_reach(resources: Seq<Resource>, skill: Seq<char>, level: int, i: int) -> bool {
    0 <= i < resources.len() && resources[i].skill@ == skill && resources[i].level <= level
}

/// The candidates for gathering are exactly the resources of the skill that the level is enough
/// for, each once, the best first, and of those that rank alike the one that comes first on the
/// list.
pub proof fn law_candidates_are_in_reach_best_first(
    resources: Seq<Resource>,
    skill: Seq<char>,
    level: int,
    xph: Seq<i64>,
)
    requires
        xph.len() == resources.len(),
    ensures
        ({
            let order = gathering_order(resources, skill, level, xph);
            &&& forall|i: int| #[trigger]
                order.contains(i) <==> in_reach(resources, skill, level, i)
            &&& forall|a: int, b: int|
                0 <= a < b < order.len() ==> {
                    &&& xph[#[trigger] order[a]] >= xph[#[trigger] order[b]]
                    &&& xph[order[a]] == xph[order[b]] ==> order[a] < order[b]
                    &&& order[a] != order[b]
                }
        }),
{
    let n = resources.len() as int;
    let picks = gatherable(resources, skill, level, n);
    let keys = picked_keys(picks, xph);
    let order = gathering_order(resources, skill, level, xph);
    lemma_gatherable(resources, skill, level, n);
    lemma_keys_are_ordered(keys);
    law_ranking(by_key(keys), keys.len() as int);
    let places = ranked(by_key(keys), picks.len() as int);
    assert forall|i: int| #[trigger] order.contains(i) <==> in_reach(
        resources,
        skill,
        level,
        i,
    ) by {
        if order.contains(i) {
            let a = order.index_of(i);
            assert(0 <= places[a] < picks.len());
            assert(picks[places[a]] == i);
            assert(picks.contains(i));
        }
        if in_reach(resources, skill, level, i) {
            assert(picks.contains(i));
            let j = picks.index_of(i);
            assert(places.contains(j));
            let a = places.index_of(j);
            assert(order[a] == i);
        }
    }
    assert forall|a: int, b: int| 0 <= a < b < order.len() implies ({
        &&& xph[#[trigger] order[a]] >= xph[#[trigger] order[b]]
        &&& xph[order[a]] == xph[order[b]] ==> order[a] < order[b]
        &&& order[a] != order[b]
    }) by {
        let (p, q) = (places[a], places[b]);
        assert(p != q && !by_key(keys)(p, q) && (!by_key(keys)(q, p) ==> p < q));
        assert(0 <= p < picks.len() && 0 <= q < picks.len());
        assert(keys[p] == xph[picks[p]] && keys[q] == xph[picks[q]]);
        if p < q {
            assert(picks[p] < picks[q]);
        } else {
            assert(picks[q] < picks[p]);
        }
    }
}

/// A gatherer is held against its own level in the skill it gathers with: wood against its
/// woodcutting, ore against its mining, fish against its fishing, herbs against its alchemy.
pub proof fn law_resources_are_held_against_the_skills_own_level(
    resources: Seq<Resource>,
    c: Character,
    xph: Seq<i64>,
    i: int,
)
    requires
        xph.len() == resources.len(),
        0 <= i < resources.len(),
    ensures
        gathering_order(resources, "woodcutting"@, level_in(c, "woodcutting"@), xph).contains(i)
            <==> resources[i].skill@ == "woodcutting"@ && resources[i].level
            <= c.woodcutting_level,
        gathering_order(resources, "mining"@, level_in(c, "mining"@), xph).contains(i)
            <==> resources[i].skill@ == "mining"@ && resources[i].level <= c.mining_level,
        gathering_order(resources, "fishing"@, level_in(c, "fishing"@), xph).contains(i)
            <==> resources[i].skill@ == "fishing"@ && resources[i].level <= c.fishing_level,
        gathering_order(resources, "alchemy"@, level_in(c, "alchemy"@), xph).contains(i)
            <==> resources[i].skill@ == "alchemy"@ && resources[i].level <= c.alchemy_level,
{
    law_level_is_the_skills_own_field(c);
    law_candidates_are_in_reach_best_first(
        resources,
        "woodcutting"@,
        c.woodcutting_level as int,
        xph,
    );
    law_candidates_are_in_reach_best_first(resources, "mining"@, c.mining_level as int, xph);
    law_candidates_are_in_reach_best_first(resources, "fishing"@, c.fishing_level as int, xph);
    law_candidates_are_in_reach_best_first(resources, "alchemy"@, c.alchemy_level as int, xph);
}

proof fn lemma_marked(order: Seq<int>, marks: Seq<bool>, n: int)
    requires
        0 <= n <= order.len(),
        marks.len() == order.len(),
    ensures
        forall|i: int| #[trigger]
            marked(order, marks, n).contains(i) <==> exists|a: int|
                0 <= a < n && #[trigger] order[a] == i && marks[a],
    decreases n,
{
    let all = marked(order, marks, n);
    if n > 0 {
        lemma_marked(order, marks, n - 1);
        let before = marked(order, marks, n - 1);
        assert forall|i: int| #[trigger] all.contains(i) <==> exists|a: int|
            0 <= a < n && #[trigger] order[a] == i && marks[a] by {
            lemma_contains_pushed(before, order[n - 1], i);
            if before.contains(i) {
                let a = choose|a: int| 0 <= a < n - 1 && #[trigger] order[a] == i && marks[a];
                assert(order[a] == i);
            }
            if i == order[n - 1] && marks[n - 1] {
                assert(order[n - 1] == i);
            }
            if exists|a: int| 0 <= a < n && #[trigger] order[a] == i && marks[a] {
                let a = choose|a: int| 0 <= a < n && #[trigger] order[a] == i && marks[a];
                if a < n - 1 {
                    assert(order[a] == i);
                }
            }
        }
    }
}

/// `b` is the resource in reach that ranks highest, the first of those that do.
pub open spec fn is_best_in_reach(
    resources: Seq<Resource>,
    skill: Seq<char>,
    level: int,
    xph: Seq<i64>,
    b: int,
) -> bool {
    &&& in_reach(resources, skill, level, b)
    &&& forall|j: int|
        #[trigger] in_reach(resources, skill, level, j) ==> xph[j] < xph[b] || (xph[j] == xph[b]
            && b <= j)
}

/// What is worth gathering is everything in reach that is tied with the best in reach, and nothing
/// else. Where nothing is in reach there is none; and the best comes first where it is tied with
/// itself.
pub proof fn law_best_gathering_is_all_that_tie_with_the_best(
    resources: Seq<Resource>,
    skill: Seq<char>,
    level: int,
    xph: Seq<i64>,
    g: spec_fn(int, int) -> bool,
    b: int,
)
    requires
        xph.len() == resources.len(),
    ensures
        ({
            let picks = optimal_gathering(resources, skill, level, xph, g);
            &&& is_best_in_reach(resources, skill, level, xph, b) ==> forall|i: int| #[trigger]
                picks.contains(i) <==> in_reach(resources, skill, level, i) && g(b, i)
            &&& (forall|j: int| !#[trigger] in_reach(resources, skill, level, j)) ==> picks.len()
                == 0
        }),
{
    let order = gathering_order(resources, skill, level, xph);
    let marks = tie_marks(order, g);
    let picks = optimal_gathering(resources, skill, level, xph, g);
    law_candidates_are_in_reach_best_first(resources, skill, level, xph);
    lemma_marked(order, marks, order.len() as int);
    if is_best_in_reach(resources, skill, level, xph, b) {
        assert(order.contains(b));
        let a = order.index_of(b);
        assert(order.contains(order[0]));
        assert(in_reach(resources, skill, level, order[0]));
        if a > 0 {
            assert(xph[order[0]] >= xph[order[a]]);
        }
        assert(order[0] == b);
        assert forall|i: int| #[trigger] picks.contains(i) <==> in_reach(
            resources,
            skill,
            level,
            i,
        ) && g(b, i) by {
            assert(order.contains(i) <==> in_reach(resources, skill, level, i));
            if picks.contains(i) {
                let k = choose|k: int|
                    0 <= k < order.len() && #[trigger] order[k] == i && marks[k];
                assert(order.contains(i));
            }
            if order.contains(i) && g(b, i) {
                let k = order.index_of(i);
                assert(marks[k]);
                assert(order[k] == i);
            }
        }
    }
    if forall|j: int| !#[trigger] in_reach(resources, skill, level, j) {
        if order.len() > 0 {
            assert(order.contains(order[0]));
        }
        if picks.len() > 0 {
            assert(picks.contains(picks[0]));
            let k = choose|k: int|
                0 <= k < order.len() && #[trigger] order[k] == picks[0] && marks[k];
        }
    }
}

proof fn lemma_locations(
    maps: Seq<MapTile>,
    content_type: Seq<char>,
    code: Seq<char>,
    n: int,
    p: (Seq<char>, i32, i32),
)
    requires
        0 <= n <= maps.len(),
    ensures
        locations(maps, content_type, code, n).contains(p) <==> exists|i: int|
            0 <= i < n && is_found_at(#[trigger] maps[i], content_type, code, p),
    decreases n,
{
    let all = locations(maps, content_type, code, n);
    if n > 0 {
        lemma_locations(maps, content_type, code, n - 1, p);
        let before = locations(maps, content_type, code, n - 1);
        let m = maps[n - 1];
        if before.contains(p) {
            let k = before.index_of(p);
            assert(all[k] == p);
            let i = choose|i: int|
                0 <= i < n - 1 && is_found_at(#[trigger] maps[i], content_type, code, p);
            assert(is_found_at(maps[i], content_type, code, p));
        }
        if is_found_at(m, content_type, code, p) {
            assert(all[before.len() as int] == p);
        }
        if all.contains(p) {
            let k = all.index_of(p);
            if k < before.len() {
                assert(before[k] == p);
            } else {
                assert(is_found_at(maps[n - 1], content_type, code, p));
            }
        }
    }
}

/// A tile lies at `p` and holds what is looked for.
pub open spec fn is_found_at(
    m: MapTile,
    content_type: Seq<char>,
    code: Seq<char>,
    p: (Seq<char>, i32, i32),
) -> bool {
    &&& p == (m.layer@, m.x, m.y)
    &&& m.interactions is Some
    &&& m.interactions->0.content is Some
    &&& m.interactions->0.content->0.content_type@ == content_type
    &&& m.interactions->0.content->0.code@ == code
}

/// What is looked for is found exactly where a tile of the map holds it.
pub proof fn law_places_are_the_tiles_that_hold_it(
    maps: Seq<MapTile>,
    content_type: Seq<char>,
    code: Seq<char>,
)
    ensures
        forall|p: (Seq<char>, i32, i32)| #[trigger]
            locations(maps, content_type, code, maps.len() as int).contains(p) <==> exists|i: int|
                0 <= i < maps.len() && is_found_at(#[trigger] maps[i], content_type, code, p),
{
    assert forall|p: (Seq<char>, i32, i32)| #[trigger]
        locations(maps, content_type, code, maps.len() as int).contains(p) <==> exists|i: int|
            0 <= i < maps.len() && is_found_at(#[trigger] maps[i], content_type, code, p) by {
        lemma_locations(maps, content_type, code, maps.len() as int, p);
    }
}

/// A target for gathering names its resource, its rank, its drops, and every place where that
/// resource is.
pub proof fn law_gather_target_describes_its_resource(
    t: GatherTarget,
    data: GameData,
    xph: Seq<i64>,
    i: int,
)
    requires
        is_gather_target(t, data, xph, i),
    ensures
        t.code@ == data.resources@[i].code@,
        t.name@ == data.resources@[i].name@,
        t.drops@ == data.resources@[i].drops@,
        t.avg_xp_per_hour == xph[i],
        forall|p: (Seq<char>, i32, i32)| #[trigger]
            location_views(t.locations@).contains(p) <==> exists|k: int|
                0 <= k < data.maps@.len() && is_found_at(
                    #[trigger] data.maps@[k],
                    "resource"@,
                    data.resources@[i].code@,
                    p,
                ),
{
    law_places_are_the_tiles_that_hold_it(
        data.maps@,
        "resource"@,
        data.resources@[i].code@,
    );
}

/// A target for fighting names its monster, its rank, every place where that monster is, and the
/// hit points from which the fight is safe.
pub proof fn law_monster_target_describes_its_monster(
    t: MonsterTarget,
    c: Character,
    data: GameData,
    damage: Seq<BaseDamage>,
    xph: Seq<i64>,
    i: int,
)
    requires
        is_monster_target(t, c, data, damage, xph, i),
    ensures
        t.code@ == data.monsters@[i].code@,
        t.name@ == data.monsters@[i].name@,
        t.avg_xp_per_hour == xph[i],
        safe_hp(duel(c, data.monsters@[i], damage[i], data.items@)) == Some(
            t.min_hp_threshold as int,
        ),
        forall|p: (Seq<char>, i32, i32)| #[trigger]
            location_views(t.locations@).contains(p) <==> exists|k: int|
                0 <= k < data.maps@.len() && is_found_at(
                    #[trigger] data.maps@[k],
                    "monster"@,
                    data.monsters@[i].code@,
                    p,
                ),
{
    law_places_are_the_tiles_that_hold_it(data.maps@, "monster"@, data.monsters@[i].code@);
}

/// Whether the character, at full hit points, has as many as a safe fight takes.
pub open spec fn is_safe_at_full_hp(c: Character, m: Monster, base: BaseDamage, items: Seq<Item>) -> bool {
    safe_hp(duel(c, m, base, items)) is Some && safe_hp(duel(c, m, base, items))->0 <= c.max_hp
}

/// The monster to fight is safe to fight at full hit points, and no monster that is gives more XP
/// per hour; of several that give as much it is the last. There is none only where none is safe.
pub proof fn law_monster_to_fight_is_the_best_that_is_safe(
    c: Character,
    data: GameData,
    damage: Seq<BaseDamage>,
    xph: Seq<i64>,
)
    requires
        damage.len() == data.monsters@.len(),
        xph.len() == data.monsters@.len(),
    ensures
        match last_best(worth_fighting(c, data, damage, xph), data.monsters@.len() as int) {
            Some(b) => {
                &&& 0 <= b < data.monsters@.len()
                &&& is_safe_at_full_hp(c, data.monsters@[b], damage[b], data.items@)
                &&& forall|i: int|
                    0 <= i < data.monsters@.len() && #[trigger] is_safe_at_full_hp(
                        c,
                        data.monsters@[i],
                        damage[i],
                        data.items@,
                    ) ==> xph[i] <= xph[b] && (xph[i] == xph[b] ==> i <= b)
            },
            None => forall|i: int|
                0 <= i < data.monsters@.len() ==> !#[trigger] is_safe_at_full_hp(
                    c,
                    data.monsters@[i],
                    damage[i],
                    data.items@,
                ),
        },
{
    let keys = worth_fighting(c, data, damage, xph);
    let n = data.monsters@.len() as int;
    law_last_best(keys, n);
    assert forall|i: int| 0 <= i < n implies (#[trigger] keys[i] is Some
        <==> is_safe_at_full_hp(c, data.monsters@[i], damage[i], data.items@)) && (keys[i] is Some
        ==> keys[i]->0 == xph[i]) by {}
    match last_best(keys, n) {
        Some(b) => {
            assert(keys[b] is Some);
            assert forall|i: int|
                0 <= i < n && #[trigger] is_safe_at_full_hp(
                    c,
                    data.monsters@[i],
                    damage[i],
                    data.items@,
                ) implies xph[i] <= xph[b] && (xph[i] == xph[b] ==> i <= b) by {
                assert(keys[i] is Some);
            }
        },
        None => {
            assert forall|i: int| 0 <= i < n implies !#[trigger] is_safe_at_full_hp(
                c,
                data.monsters@[i],
                damage[i],
                data.items@,
            ) by {
                assert(keys[i] is None);
            }
        },
    }
}

/// What a monster yields of wanted materials is the yield of its best wanted drop: no wanted drop
/// yields more, and it is one of them unless nothing wanted yields anything.
pub proof fn law_yield_is_that_of_the_best_wanted_drop(
    drops: Seq<MonsterDrop>,
    yields: Seq<i64>,
    wanted: Seq<String>,
    n: int,
)
    requires
        0 <= n <= drops.len(),
        yields.len() == drops.len(),
    ensures
        best_yield(drops, yields, wanted, n) >= 0,
        forall|i: int|
            0 <= i < n && has_code(wanted, (#[trigger] drops[i]).code@) ==> yields[i] <= best_yield(
                drops,
                yields,
                wanted,
                n,
            ),
        best_yield(drops, yields, wanted, n) > 0 ==> exists|i: int|
            0 <= i < n && has_code(wanted, (#[trigger] drops[i]).code@) && yields[i] == best_yield(
                drops,
                yields,
                wanted,
                n,
            ),
    decreases n,
{
    if n > 0 {
        law_yield_is_that_of_the_best_wanted_drop(drops, yields, wanted, n - 1);
        let top = best_yield(drops, yields, wanted, n);
        if top > 0 {
            if top == best_yield(drops, yields, wanted, n - 1) {
                let i = choose|i: int|
                    0 <= i < n - 1 && has_code(wanted, (#[trigger] drops[i]).code@) && yields[i]
                        == top;
                assert(has_code(wanted, drops[i].code@));
            } else {
                assert(has_code(wanted, drops[n - 1].code@));
            }
        }
    }
}

/// A recipe by which what a resource gives is refined: made by the skill, at a level that the
/// character has, and it takes something that the resource gives.
pub open spec fn can_refine_with(
    item: Item,
    skill: Seq<char>,
    level: int,
    resource: Resource,
) -> bool {
    &&& item.craft is Some
    &&& item.craft->0.skill is Some
    &&& item.craft->0.skill->0@ == skill
    &&& item.craft->0.level matches Some(req) ==> level >= req
    &&& exists|i: int, j: int|
        #![trigger item.craft->0.items@[i], resource.drops@[j]]
        0 <= i < item.craft->0.items@.len() && 0 <= j < resource.drops@.len()
            && item.craft->0.items@[i].code@ == resource.drops@[j].code@
}

/// The recipe that refines a resource is of the highest level among those that can, the last of
/// several; there is none only where none can.
pub proof fn law_refining_recipe_is_the_highest(
    items: Seq<Item>,
    skill: Seq<char>,
    level: int,
    resource: Resource,
)
    ensures
        match last_best(refining_levels(items, skill, level, resource), items.len() as int) {
            Some(b) => {
                &&& 0 <= b < items.len()
                &&& can_refine_with(items[b], skill, level, resource)
                &&& forall|i: int|
                    0 <= i < items.len() && can_refine_with(
                        #[trigger] items[i],
                        skill,
                        level,
                        resource,
                    ) ==> items[i].level <= items[b].level && (items[i].level == items[b].level
                        ==> i <= b)
            },
            None => forall|i: int|
                0 <= i < items.len() ==> !can_refine_with(
                    #[trigger] items[i],
                    skill,
                    level,
                    resource,
                ),
        },
{
    let keys = refining_levels(items, skill, level, resource);
    let n = items.len() as int;
    law_last_best(keys, n);
    assert forall|i: int| 0 <= i < n implies (can_refine_with(
        #[trigger] items[i],
        skill,
        level,
        resource,
    ) <==> keys[i] is Some) && (keys[i] is Some ==> keys[i]->0 == items[i].level) by {
        let item = items[i];
        if refines(item, skill, level, resource) {
            let ings = item.craft->0.items@;
            let a = choose|a: int|
                0 <= a < ings.len() && drops_code(resource.drops@, (#[trigger] ings[a]).code@);
            let b = choose|b: int|
                0 <= b < resource.drops@.len() && (#[trigger] resource.drops@[b]).code@
                    == ings[a].code@;
            assert(item.craft->0.items@[a].code@ == resource.drops@[b].code@);
        }
        if can_refine_with(item, skill, level, resource) {
            let (a, b) = choose|a: int, b: int|
                #![trigger item.craft->0.items@[a], resource.drops@[b]]
                0 <= a < item.craft->0.items@.len() && 0 <= b < resource.drops@.len()
                    && item.craft->0.items@[a].code@ == resource.drops@[b].code@;
            assert(drops_code(resource.drops@, item.craft->0.items@[a].code@));
            assert(refines(item, skill, level, resource));
        }
    }
    match last_best(keys, n) {
        Some(b) => {
            assert(keys[b] is Some);
            assert(can_refine_with(items[b], skill, level, resource));
            assert forall|i: int|
                0 <= i < n && can_refine_with(
                    #[trigger] items[i],
                    skill,
                    level,
                    resource,
                ) implies items[i].level <= items[b].level && (items[i].level == items[b].level
                ==> i <= b) by {
                assert(keys[i] is Some);
            }
        },
        None => {
            assert forall|i: int| 0 <= i < n implies !can_refine_with(
                #[trigger] items[i],
                skill,
                level,
                resource,
            ) by {
                assert(keys[i] is None);
            }
        },
    }
}

/// The quantities of the first `n` ingredients that a drop table has, added up.
pub open spec fn raw_sum(ings: Seq<CraftIngredient>, drops: Seq<MonsterDrop>, n: int) -> int
    decreases n,
{
    if n <= 0 {
        0
    } else {
        raw_sum(ings, drops, n - 1) + if exists|j: int|
            0 <= j < drops.len() && (#[trigger] drops[j]).code@ == ings[n - 1].code@ {
            ings[n - 1].quantity as int
        } else {
            0
        }
    }
}

/// One refining takes of a resource all ingredients that the resource gives, and only those.
pub proof fn law_refining_takes_what_the_resource_gives(
    ings: Seq<CraftIngredient>,
    drops: Seq<MonsterDrop>,
    n: int,
)
    requires
        0 <= n <= ings.len(),
        forall|k: int| 0 <= k <= n ==> fits_i32(#[trigger] raw_sum(ings, drops, k)),
    ensures
        raw_needed(ings, drops, n) == raw_sum(ings, drops, n),
    decreases n,
{
    if n > 0 {
        law_refining_takes_what_the_resource_gives(ings, drops, n - 1);
        assert(fits_i32(raw_sum(ings, drops, n)));
        assert(drops_code(drops, ings[n - 1].code@) <==> exists|j: int|
            0 <= j < drops.len() && (#[trigger] drops[j]).code@ == ings[n - 1].code@);
    }
}

/// What the gear in the first `n` slots does for a gathering skill, added up.
pub open spec fn gear_sum(who: Character, items: Seq<Item>, skill: Seq<char>, n: int) -> int
    decreases n,
{
    if n <= 0 {
        0
    } else {
        gear_sum(who, items, skill, n - 1) + match worn_item(items, slots_of(who)[n - 1].2) {
            Some(item) => plain_sum(item.effects@, skill, item.effects@.len() as int),
            None => 0,
        }
    }
}

/// All worn gear counts towards the cooldown of a gathering skill: the effects that are named like
/// the skill, added up over all slots, as long as no sum leaves the 32-bit range.
pub proof fn law_gathering_gear_adds_up(who: Character, items: Seq<Item>, skill: Seq<char>, n: int)
    requires
        0 <= n <= 13,
        forall|k: int| 0 <= k <= n ==> fits_i32(#[trigger] gear_sum(who, items, skill, k)),
        forall|i: int, k: int|
            #![trigger plain_sum(items[i].effects@, skill, k)]
            0 <= i < items.len() && 0 <= k <= items[i].effects@.len() ==> fits_i32(
                plain_sum(items[i].effects@, skill, k),
            ),
    ensures
        gear_cooldown(who, items, skill, n) == gear_sum(who, items, skill, n),
    decreases n,
{
    if n > 0 {
        law_gathering_gear_adds_up(who, items, skill, n - 1);
        assert(fits_i32(gear_sum(who, items, skill, n)));
        let code = slots_of(who)[n - 1].2;
        if let Some(item) = worn_item(items, code) {
            lemma_named_is_listed(items, code);
            let i = choose|i: int| 0 <= i < items.len() && #[trigger] items[i] == item;
            assert forall|k: int| 0 <= k <= item.effects@.len() implies fits_i32(
                #[trigger] plain_sum(item.effects@, skill, k),
            ) by {
                assert(fits_i32(plain_sum(items[i].effects@, skill, k)));
            }
            law_effect_value_is_the_sum(item, skill);
        }
    }
}

proof fn lemma_named_is_listed(items: Seq<Item>, code: Seq<char>)
    ensures
        item_named(items, code) matches Some(item) ==> item.code@ == code && exists|i: int|
            0 <= i < items.len() && #[trigger] items[i] == item,
{
    if let Some(i) = item_index(items, code) {
        assert(is_first_item(items, code, i));
        assert(items[i] == item_named(items, code)->0);
    }
}

/// An item helps gathering by its wisdom, by its effect on the skill itself, and by its
/// prospecting.
pub proof fn law_gear_helps_gathering_in_three_ways(item: Item, skill: Seq<char>)
    requires
        forall|code: Seq<char>, k: int|
            #![trigger plain_sum(item.effects@, code, k)]
            0 <= k <= item.effects@.len() ==> fits_i32(plain_sum(item.effects@, code, k)),
    ensures
        ({
            let n = item.effects@.len() as int;
            gathering_effects(item, skill) == (
                plain_sum(item.effects@, "wisdom"@, n),
                plain_sum(item.effects@, skill, n),
                plain_sum(item.effects@, "prospecting"@, n),
            )
        }),
{
    law_effect_value_is_the_sum(item, "wisdom"@);
    law_effect_value_is_the_sum(item, skill);
    law_effect_value_is_the_sum(item, "prospecting"@);
}

proof fn lemma_craft_picks(items: Seq<Item>, skill: Seq<char>, xp: Seq<i32>, n: int)
    requires
        0 <= n <= items.len(),
    ensures
        forall|i: int| #[trigger]
            craft_picks(items, skill, xp, n).contains(i) <==> 0 <= i < n && crafted_by(
                items[i],
                skill,
            ) && xp[i] > 0 && materials(items[i]) > 0,
    decreases n,
{
    let all = craft_picks(items, skill, xp, n);
    if n > 0 {
        lemma_craft_picks(items, skill, xp, n - 1);
        let before = craft_picks(items, skill, xp, n - 1);
        assert forall|i: int| #[trigger] all.contains(i) <==> 0 <= i < n && crafted_by(
            items[i],
            skill,
        ) && xp[i] > 0 && materials(items[i]) > 0 by {
            lemma_contains_pushed(before, n - 1, i);
        }
    }
}

/// The items that a skill makes are listed by what they give for their materials, the most first:
/// all that give XP and take materials, and none besides.
pub proof fn law_crafts_are_listed_by_xp_per_material(
    items: Seq<Item>,
    skill: Seq<char>,
    xp: Seq<i32>,
)
    requires
        xp.len() == items.len(),
    ensures
        ({
            let list = crafting_order(items, skill, xp);
            &&& forall|i: int| #[trigger]
                list.contains(i) <==> 0 <= i < items.len() && crafted_by(items[i], skill) && xp[i]
                    > 0 && materials(items[i]) > 0
            &&& forall|a: int, b: int|
                0 <= a < b < list.len() ==> xp[#[trigger] list[a]] * materials(
                    items[#[trigger] list[b]],
                ) >= xp[list[b]] * materials(items[list[a]])
        }),
{
    let n = items.len() as int;
    let picks = craft_picks(items, skill, xp, n);
    let keys = efficiency(picks, items, xp);
    let list = crafting_order(items, skill, xp);
    lemma_craft_picks(items, skill, xp, n);
    assert forall|j: int| 0 <= j < keys.len() implies (#[trigger] keys[j]).1 > 0 by {
        assert(picks.contains(picks[j]));
    }
    lemma_fractions_are_ordered(keys);
    law_ranking(by_fraction(keys), keys.len() as int);
    let order = ranked(by_fraction(keys), picks.len() as int);
    assert forall|i: int| #[trigger] list.contains(i) <==> 0 <= i < n && crafted_by(
        items[i],
        skill,
    ) && xp[i] > 0 && materials(items[i]) > 0 by {
        if list.contains(i) {
            let a = list.index_of(i);
            assert(0 <= order[a] < picks.len());
            assert(picks[order[a]] == i);
            assert(picks.contains(i));
        }
        if picks.contains(i) {
            let j = picks.index_of(i);
            assert(order.contains(j));
            let a = order.index_of(j);
            assert(list[a] == i);
        }
    }
    assert forall|a: int, b: int| 0 <= a < b < list.len() implies xp[#[trigger] list[a]]
        * materials(items[#[trigger] list[b]]) >= xp[list[b]] * materials(items[list[a]]) by {
        let (p, q) = (order[a], order[b]);
        assert(0 <= p < picks.len() && 0 <= q < picks.len());
        assert(!by_fraction(keys)(p, q));
        assert(picks.contains(picks[p]) && picks.contains(picks[q]));
        assert(keys[p] == (xp[list[a]] as i64, materials(items[list[a]]) as i64));
        assert(keys[q] == (xp[list[b]] as i64, materials(items[list[b]]) as i64));
    }
}

} // verus!
