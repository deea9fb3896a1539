//! Which monster to fight, which resource to gather, which item to craft, and where they are.

use vstd::prelude::*;

use super::combat_sim::{
    best_fightable, duel, is_beatable, minimum_hp_threshold, safe_hp, worth_fighting, BaseDamage,
};
use super::skills::{level_in, skill_level};
use crate::api::GameData;
use crate::formulas::crafting::{crafted_by, is_crafted_by};
use crate::loops::crafting_plan::{efficiency, materials, materials_of};
use crate::ranking::{
    by_fraction, by_key, find_last_best, is_ranking, last_best, law_last_best, places,
    rank_by_fraction, rank_by_key, ranked,
};
use crate::text::{contains_code, has_code, same};
use crate::types::{Character, Item, MapTile, Monster, MonsterDrop, Resource};

verus! {

/// A place: layer and coordinates.
pub type Location = (String, i32, i32);

/// Locations, as mathematical values.
pub open spec fn location_views(locs: Seq<Location>) -> Seq<(Seq<char>, i32, i32)> {
    locs.map_values(|l: Location| (l.0@, l.1, l.2))
}

/// Whether a tile has the given content.
pub open spec fn tile_has(m: MapTile, content_type: Seq<char>, code: Seq<char>) -> bool {
    m.interactions matches Some(i) && i.content matches Some(c) && c.content_type@ == content_type
        && c.code@ == code
}

/// Where the first `n` tiles have the given content.
pub open spec fn locations(
    maps: Seq<MapTile>,
    content_type: Seq<char>,
    code: Seq<char>,
    n: int,
) -> Seq<(Seq<char>, i32, i32)>
    decreases n,
{
    if n <= 0 {
        Seq::empty()
    } else {
        let before = locations(maps, content_type, code, n - 1);
        let m = maps[n - 1];
        if tile_has(m, content_type, code) {
            before.push((m.layer@, m.x, m.y))
        } else {
            before
        }
    }
}

/// Every place with the given content, in the order of the map.
pub fn locations_raw_for(maps: &[MapTile], content_type: &str, code: &str) -> (r: Vec<Location>)
    ensures
        location_views(r@) == locations(maps@, content_type@, code@, maps@.len() as int),
{
    let mut out: Vec<Location> = Vec::new();
    let mut i: usize = 0;
    assert(location_views(out@) =~= Seq::empty());
    while i < maps.len()
        invariant
            i <= maps@.len(),
            location_views(out@) == locations(maps@, content_type@, code@, i as int),
        decreases maps@.len() - i,
    {
        let m: &MapTile = &maps[i];
        let hit: bool = match &m.interactions {
            Some(inter) => match &inter.content {
                Some(c) => same(&c.content_type, content_type) && same(&c.code, code),
                None => false,
            },
            None => false,
        };
        if hit {
            let ghost had = out@;
            out.push((m.layer.clone(), m.x, m.y));
            assert(location_views(out@) =~= location_views(had).push((m.layer@, m.x, m.y)));
        }
        i += 1;
    }
    out
}

/// A monster worth fighting: how it ranks by XP per hour, from how many hit points a win is
/// guaranteed, and where it is.
#[derive(Debug)]
pub struct MonsterTarget {
    pub code: String,
    pub name: String,
    pub avg_xp_per_hour: i64,
    pub min_hp_threshold: i32,
    pub locations: Vec<Location>,
}

/// `t` is the target that the `i`-th monster makes.
pub open spec fn is_monster_target(
    t: MonsterTarget,
    character: Character,
    data: GameData,
    damage: Seq<BaseDamage>,
    xph: Seq<i64>,
    i: int,
) -> bool {
    let m = data.monsters@[i];
    &&& t.code@ == m.code@
    &&& t.name@ == m.name@
    &&& t.avg_xp_per_hour == xph[i]
    &&& safe_hp(duel(character, m, damage[i], data.items@)) == Some(t.min_hp_threshold as int)
    &&& location_views(t.locations@) == locations(
        data.maps@,
        "monster"@,
        m.code@,
        data.maps@.len() as int,
    )
}

fn monster_target(
    character: &Character,
    data: &GameData,
    damage: &[BaseDamage],
    xph: &[i64],
    i: usize,
) -> (r: MonsterTarget)
    requires
        damage@.len() == data.monsters@.len(),
        xph@.len() == data.monsters@.len(),
        i < data.monsters@.len(),
        is_beatable(*character, data.monsters@[i as int], damage@[i as int], data.items@),
    ensures
        is_monster_target(r, *character, *data, damage@, xph@, i as int),
{
    let m: &Monster = &data.monsters[i];
    let threshold: i32 = match minimum_hp_threshold(character, m, data, damage[i]) {
        Some(t) => t,
        None => 0,
    };
    MonsterTarget {
        code: m.code.clone(),
        name: m.name.clone(),
        avg_xp_per_hour: xph[i],
        min_hp_threshold: threshold,
        locations: locations_raw_for(&data.maps, "monster", &m.code),
    }
}

/// The monster most worth fighting among those the character is sure to beat; none where no win is
/// guaranteed. `damage` gives what one hit of each side does and `xph` how the monsters rank by XP
/// per hour.
pub fn find_optimal_monster(
    character: &Character,
    data: &GameData,
    damage: &[BaseDamage],
    xph: &[i64],
) -> (r: Option<MonsterTarget>)
    requires
        damage@.len() == data.monsters@.len(),
        xph@.len() == data.monsters@.len(),
    ensures
        match last_best(
            worth_fighting(*character, *data, damage@, xph@),
            data.monsters@.len() as int,
        ) {
            Some(b) => r matches Some(t) && is_monster_target(
                t,
                *character,
                *data,
                damage@,
                xph@,
                b,
            ),
            None => r is None,
        },
{
    match best_fightable(character, data, damage, xph) {
        Some(i) => {
            proof {
                law_last_best(
                    worth_fighting(*character, *data, damage@, xph@),
                    data.monsters@.len() as int,
                );
            }
            Some(monster_target(character, data, damage, xph, i))
        },
        None => None,
    }
}

/// The best yield of a wanted material among the first `n` drops; at least 0.
pub open spec fn best_yield(
    drops: Seq<MonsterDrop>,
    yields: Seq<i64>,
    wanted: Seq<String>,
    n: int,
) -> i64
    decreases n,
{
    if n <= 0 {
        0
    } else {
        let before = best_yield(drops, yields, wanted, n - 1);
        if has_code(wanted, drops[n - 1].code@) && yields[n - 1] > before {
            yields[n - 1]
        } else {
            before
        }
    }
}

/// How much of the wanted materials each monster yields; nothing where a win is not guaranteed or
/// it drops none of them.
pub open spec fn material_yields(
    character: Character,
    data: GameData,
    damage: Seq<BaseDamage>,
    yields: Seq<Vec<i64>>,
    wanted: Seq<String>,
) -> Seq<Option<i64>> {
    Seq::new(
        data.monsters@.len(),
        |i: int|
            {
                let m = data.monsters@[i];
                let y = best_yield(m.drops@, yields[i]@, wanted, m.drops@.len() as int);
                if is_beatable(character, m, damage[i], data.items@) && y > 0 {
                    Some(y)
                } else {
                    None
                }
            },
    )
}

/// Every drop of every monster has its yield.
pub open spec fn yields_cover(data: GameData, yields: Seq<Vec<i64>>) -> bool {
    &&& yields.len() == data.monsters@.len()
    &&& forall|i: int|
        0 <= i < yields.len() ==> (#[trigger] yields[i])@.len() == data.monsters@[i].drops@.len()
}

fn best_wanted_yield(drops: &[MonsterDrop], yields: &[i64], wanted: &[String]) -> (r: i64)
    requires
        yields@.len() == drops@.len(),
    ensures
        r == best_yield(drops@, yields@, wanted@, drops@.len() as int),
{
    let mut best: i64 = 0;
    let mut i: usize = 0;
    while i < drops.len()
        invariant
            i <= drops@.len(),
            yields@.len() == drops@.len(),
            best == best_yield(drops@, yields@, wanted@, i as int),
        decreases drops@.len() - i,
    {
        if yields[i] > best && contains_code(wanted, &drops[i].code) {
            best = yields[i];
        }
        i += 1;
    }
    best
}

/// Among the monsters the character is sure to beat, the one that yields the most of any wanted
/// material, each judged by its single best drop; the last one where several yield the same. None
/// where nothing is wanted or no such monster drops any of it. `yields` gives, for each drop of
/// each monster, how it ranks by expected yield.
pub fn find_best_material_drop_target(
    character: &Character,
    data: &GameData,
    material_codes: &[String],
    damage: &[BaseDamage],
    xph: &[i64],
    yields: &[Vec<i64>],
) -> (r: Option<MonsterTarget>)
    requires
        damage@.len() == data.monsters@.len(),
        xph@.len() == data.monsters@.len(),
        yields_cover(*data, yields@),
    ensures
        match last_best(
            material_yields(*character, *data, damage@, yields@, material_codes@),
            data.monsters@.len() as int,
        ) {
            Some(b) => r matches Some(t) && is_monster_target(
                t,
                *character,
                *data,
                damage@,
                xph@,
                b,
            ),
            None => r is None,
        },
        material_codes@.len() == 0 ==> r is None,
{
    let ghost target = material_yields(*character, *data, damage@, yields@, material_codes@);
    let mut keys: Vec<Option<i64>> = Vec::new();
    let mut i: usize = 0;
    while i < data.monsters.len()
        invariant
            i <= data.monsters@.len(),
            damage@.len() == data.monsters@.len(),
            yields_cover(*data, yields@),
            target == material_yields(*character, *data, damage@, yields@, material_codes@),
            keys@ == target.take(i as int),
        decreases data.monsters@.len() - i,
    {
        let m: &Monster = &data.monsters[i];
        assert(yields@[i as int]@.len() == m.drops@.len());
        let y: i64 = best_wanted_yield(&m.drops, &yields[i], material_codes);
        let beatable: bool = match minimum_hp_threshold(character, m, data, damage[i]) {
            Some(t) => t <= character.max_hp,
            None => false,
        };
        if beatable && y > 0 {
            keys.push(Some(y));
        } else {
            keys.push(None);
        }
        i += 1;
        assert(target.take(i as int) =~= target.take(i - 1).push(target[i - 1]));
    }
    assert(target.take(i as int) =~= target);
    proof {
        law_last_best(target, data.monsters@.len() as int);
        if material_codes@.len() == 0 {
            assert forall|k: int| 0 <= k < target.len() implies (#[trigger] target[k]) is None by {
                let m = data.monsters@[k];
                lemma_nothing_wanted(
                    m.drops@,
                    yields@[k]@,
                    material_codes@,
                    m.drops@.len() as int,
                );
            }
        }
    }
    match find_last_best(&keys) {
        Some(b) => Some(monster_target(character, data, damage, xph, b)),
        None => None,
    }
}

proof fn lemma_nothing_wanted(
    drops: Seq<MonsterDrop>,
    yields: Seq<i64>,
    wanted: Seq<String>,
    n: int,
)
    requires
        wanted.len() == 0,
        0 <= n <= drops.len(),
    ensures
        best_yield(drops, yields, wanted, n) == 0,
    decreases n,
{
    if n > 0 {
        lemma_nothing_wanted(drops, yields, wanted, n - 1);
    }
}

/// A target that fits is a monster the character is sure to beat, and no beatable monster yields
/// more of what is wanted.
pub proof fn law_drop_target_is_best(
    character: Character,
    data: GameData,
    damage: Seq<BaseDamage>,
    yields: Seq<Vec<i64>>,
    wanted: Seq<String>,
    i: int,
)
    requires
        0 <= i < data.monsters@.len(),
    ensures
        last_best(
            material_yields(character, data, damage, yields, wanted),
            data.monsters@.len() as int,
        ) matches Some(b) ==> {
            let best = data.monsters@[b];
            let m = data.monsters@[i];
            &&& 0 <= b < data.monsters@.len()
            &&& is_beatable(character, best, damage[b], data.items@)
            &&& is_beatable(character, m, damage[i], data.items@) ==> best_yield(
                m.drops@,
                yields[i]@,
                wanted,
                m.drops@.len() as int,
            ) <= best_yield(best.drops@, yields[b]@, wanted, best.drops@.len() as int)
        },
{
    let keys = material_yields(character, data, damage, yields, wanted);
    law_last_best(keys, data.monsters@.len() as int);
    assert(keys[i] == keys[i]);
}

/// A resource worth gathering: how it ranks by XP per hour, where it is, and what it gives.
#[derive(Debug)]
pub struct GatherTarget {
    pub code: String,
    pub name: String,
    pub avg_xp_per_hour: i64,
    pub locations: Vec<Location>,
    pub drops: Vec<MonsterDrop>,
}

/// Which of the first `n` resources the skill level is enough for.
pub open spec fn gatherable(resources: Seq<Resource>, skill: Seq<char>, level: int, n: int) -> Seq<int>
    decreases n,
{
    if n <= 0 {
        Seq::empty()
    } else if resources[n - 1].skill@ == skill && resources[n - 1].level <= level {
        gatherable(resources, skill, level, n - 1).push(n - 1)
    } else {
        gatherable(resources, skill, level, n - 1)
    }
}

/// The keys of the picked places.
pub open spec fn picked_keys(picks: Seq<int>, keys: Seq<i64>) -> Seq<i64> {
    picks.map_values(|i: int| keys[i])
}

/// The resources the skill level is enough for, best first.
pub open spec fn gathering_order(
    resources: Seq<Resource>,
    skill: Seq<char>,
    level: int,
    xph: Seq<i64>,
) -> Seq<int> {
    let picks = gatherable(resources, skill, level, resources.len() as int);
    ranked(by_key(picked_keys(picks, xph)), picks.len() as int).map_values(|j: int| picks[j])
}

/// The resources of a skill that the character's level is enough for, by their places, best first.
/// `xph` gives how each resource ranks by XP per hour.
pub fn gathering_candidates(
    data: &GameData,
    character: &Character,
    skill: &str,
    xph: &[i64],
) -> (r: Vec<usize>)
    requires
        xph@.len() == data.resources@.len(),
    ensures
        places(r@) == gathering_order(
            data.resources@,
            skill@,
            level_in(*character, skill@),
            xph@,
        ),
        forall|j: int| 0 <= j < r@.len() ==> (#[trigger] r@[j]) < data.resources@.len(),
{
    let level: i32 = skill_level(character, skill);
    let mut picks: Vec<usize> = Vec::new();
    let mut keys: Vec<i64> = Vec::new();
    let mut i: usize = 0;
    assert(places(picks@) =~= Seq::empty());
    assert(keys@ =~= picked_keys(places(picks@), xph@));
    while i < data.resources.len()
        invariant
            i <= data.resources@.len(),
            xph@.len() == data.resources@.len(),
            places(picks@) == gatherable(data.resources@, skill@, level as int, i as int),
            keys@ == picked_keys(places(picks@), xph@),
            keys@.len() == picks@.len(),
            forall|j: int| 0 <= j < picks@.len() ==> (#[trigger] picks@[j]) < data.resources@.len(),
        decreases data.resources@.len() - i,
    {
        if data.resources[i].level <= level && same(&data.resources[i].skill, skill) {
            let ghost had = picks@;
            picks.push(i);
            keys.push(xph[i]);
            assert(places(picks@) =~= places(had).push(i as int));
            assert(keys@ =~= picked_keys(places(picks@), xph@));
        }
        i += 1;
    }
    pick_in_order(&picks, &rank_by_key(&keys), Ghost(by_key(keys@)), Ghost(data.resources@.len()))
}

/// The picks in the order of a ranking.
fn pick_in_order(
    picks: &Vec<usize>,
    order: &Vec<usize>,
    below: Ghost<spec_fn(int, int) -> bool>,
    bound: Ghost<nat>,
) -> (r: Vec<usize>)
    requires
        order@.len() == picks@.len(),
        places(order@) == ranked(below@, picks@.len() as int),
        is_ranking(places(order@), below@, picks@.len() as int),
        forall|j: int| 0 <= j < picks@.len() ==> (#[trigger] picks@[j]) < bound@,
    ensures
        places(r@) == ranked(below@, picks@.len() as int).map_values(|j: int| places(picks@)[j]),
        forall|j: int| 0 <= j < r@.len() ==> (#[trigger] r@[j]) < bound@,
{
    let ghost target = ranked(below@, picks@.len() as int).map_values(|j: int| places(picks@)[j]);
    let mut out: Vec<usize> = Vec::new();
    let mut j: usize = 0;
    assert(places(out@) =~= target.take(0));
    while j < order.len()
        invariant
            j <= order@.len(),
            order@.len() == picks@.len(),
            places(order@) == ranked(below@, picks@.len() as int),
            is_ranking(places(order@), below@, picks@.len() as int),
            forall|m: int| 0 <= m < picks@.len() ==> (#[trigger] picks@[m]) < bound@,
            forall|m: int| 0 <= m < out@.len() ==> (#[trigger] out@[m]) < bound@,
            target == ranked(below@, picks@.len() as int).map_values(
                |j: int| places(picks@)[j],
            ),
            places(out@) == target.take(j as int),
        decreases order@.len() - j,
    {
        assert(places(order@)[j as int] == order@[j as int]);
        let ghost had = out@;
        out.push(picks[order[j]]);
        assert(places(out@) =~= places(had).push(picks@[order@[j as int] as int] as int));
        j += 1;
        assert(target.take(j as int) =~= target.take(j - 1).push(target[j - 1]));
    }
    assert(target.take(j as int) =~= target);
    out
}

/// `t` is the target that the `i`-th resource makes.
pub open spec fn is_gather_target(t: GatherTarget, data: GameData, xph: Seq<i64>, i: int) -> bool {
    let r = data.resources@[i];
    &&& t.code@ == r.code@
    &&& t.name@ == r.name@
    &&& t.avg_xp_per_hour == xph[i]
    &&& t.drops@ == r.drops@
    &&& location_views(t.locations@) == locations(
        data.maps@,
        "resource"@,
        r.code@,
        data.maps@.len() as int,
    )
}

fn copy_drops(drops: &[MonsterDrop]) -> (r: Vec<MonsterDrop>)
    ensures
        r@ == drops@,
{
    let mut out: Vec<MonsterDrop> = Vec::new();
    let mut i: usize = 0;
    while i < drops.len()
        invariant
            i <= drops@.len(),
            out@ == drops@.take(i as int),
        decreases drops@.len() - i,
    {
        out.push(drops[i].clone());
        i += 1;
        assert(drops@.take(i as int) =~= drops@.take(i - 1).push(drops@[i - 1]));
    }
    assert(drops@.take(i as int) =~= drops@);
    out
}

/// The target that one resource makes.
pub fn gather_target(data: &GameData, xph: &[i64], i: usize) -> (t: GatherTarget)
    requires
        xph@.len() == data.resources@.len(),
        i < data.resources@.len(),
    ensures
        is_gather_target(t, *data, xph@, i as int),
{
    let r: &Resource = &data.resources[i];
    GatherTarget {
        code: r.code.clone(),
        name: r.name.clone(),
        avg_xp_per_hour: xph[i],
        locations: locations_raw_for(&data.maps, "resource", &r.code),
        drops: copy_drops(&r.drops),
    }
}

/// Which of the first `n` places of an order are marked.
pub open spec fn marked(order: Seq<int>, marks: Seq<bool>, n: int) -> Seq<int>
    decreases n,
{
    if n <= 0 {
        Seq::empty()
    } else if marks[n - 1] {
        marked(order, marks, n - 1).push(order[n - 1])
    } else {
        marked(order, marks, n - 1)
    }
}

proof fn lemma_first_is_marked(order: Seq<int>, marks: Seq<bool>, n: int)
    requires
        0 < n <= order.len(),
        marks.len() == order.len(),
        marks[0],
    ensures
        marked(order, marks, n).len() > 0,
        marked(order, marks, n)[0] == order[0],
    decreases n,
{
    if n > 1 {
        lemma_first_is_marked(order, marks, n - 1);
    } else {
        assert(marked(order, marks, 0) =~= Seq::empty());
    }
}

/// The targets that the marked candidates make. `order` lists the candidates, best first, and `tied`
/// marks those that give as much XP per hour as the first.
pub fn tied_targets(data: &GameData, xph: &[i64], order: &[usize], tied: &[bool]) -> (r: Vec<
    GatherTarget,
>)
    requires
        xph@.len() == data.resources@.len(),
        tied@.len() == order@.len(),
        forall|j: int| 0 <= j < order@.len() ==> (#[trigger] order@[j]) < data.resources@.len(),
    ensures
        ({
            let picks = marked(places(order@), tied@, order@.len() as int);
            &&& r@.len() == picks.len()
            &&& forall|k: int|
                0 <= k < r@.len() ==> is_gather_target(#[trigger] r@[k], *data, xph@, picks[k])
        }),
        order@.len() > 0 && tied@[0] ==> r@.len() > 0 && is_gather_target(
            r@[0],
            *data,
            xph@,
            order@[0] as int,
        ),
{
    let mut out: Vec<GatherTarget> = Vec::new();
    let mut i: usize = 0;
    while i < order.len()
        invariant
            i <= order@.len(),
            xph@.len() == data.resources@.len(),
            tied@.len() == order@.len(),
            forall|j: int| 0 <= j < order@.len() ==> (#[trigger] order@[j]) < data.resources@.len(),
            ({
                let picks = marked(places(order@), tied@, i as int);
                &&& out@.len() == picks.len()
                &&& forall|k: int|
                    0 <= k < out@.len() ==> is_gather_target(
                        #[trigger] out@[k],
                        *data,
                        xph@,
                        picks[k],
                    )
            }),
        decreases order@.len() - i,
    {
        assert(places(order@)[i as int] == order@[i as int]);
        if tied[i] {
            out.push(gather_target(data, xph, order[i]));
        }
        i += 1;
    }
    proof {
        if order@.len() > 0 && tied@[0] {
            lemma_first_is_marked(places(order@), tied@, order@.len() as int);
            assert(places(order@)[0] == order@[0]);
            assert(is_gather_target(out@[0], *data, xph@, order@[0] as int));
        }
    }
    out
}

/// It can be said of any two resources whether they are tied.
pub open spec fn can_tie<F: Fn(usize, usize) -> bool>(tied: F, resources: Seq<Resource>) -> bool {
    forall|a: usize, b: usize|
        a < resources.len() && b < resources.len() ==> #[trigger] call_requires(tied, (a, b))
}

/// `tied` says what `g` does: whether two resources, by their places, give as much XP per hour.
pub open spec fn ties_by<F: Fn(usize, usize) -> bool>(
    tied: F,
    g: spec_fn(int, int) -> bool,
) -> bool {
    forall|a: usize, b: usize, r: bool| #[trigger]
        call_ensures(tied, (a, b), r) ==> r == g(a as int, b as int)
}

/// Which places of an order are tied with the first.
pub open spec fn tie_marks(order: Seq<int>, g: spec_fn(int, int) -> bool) -> Seq<bool> {
    Seq::new(order.len(), |j: int| g(order[0], order[j]))
}

/// The resources of a skill worth gathering: of those that the level is enough for, best first, all
/// that are tied with the first.
pub open spec fn optimal_gathering(
    resources: Seq<Resource>,
    skill: Seq<char>,
    level: int,
    xph: Seq<i64>,
    g: spec_fn(int, int) -> bool,
) -> Seq<int> {
    let order = gathering_order(resources, skill, level, xph);
    marked(order, tie_marks(order, g), order.len() as int)
}

/// The resources of a skill worth gathering: of those that the character's level is enough for, all
/// that are tied for the most XP per hour. `xph` gives how each resource ranks by XP per hour, and
/// `tied` says whether two of them give as much, the best one first.
pub fn find_optimal_gathering<F: Fn(usize, usize) -> bool>(
    data: &GameData,
    character: &Character,
    skill: &str,
    xph: &[i64],
    tied: &F,
) -> (r: Vec<GatherTarget>)
    requires
        xph@.len() == data.resources@.len(),
        can_tie(*tied, data.resources@),
    ensures
        forall|g: spec_fn(int, int) -> bool| #[trigger]
            ties_by(*tied, g) ==> {
                let level = level_in(*character, skill@);
                let picks = optimal_gathering(data.resources@, skill@, level, xph@, g);
                let order = gathering_order(data.resources@, skill@, level, xph@);
                &&& r@.len() == picks.len()
                &&& forall|k: int|
                    0 <= k < r@.len() ==> is_gather_target(#[trigger] r@[k], *data, xph@, picks[k])
                &&& order.len() > 0 && g(order[0], order[0]) ==> r@.len() > 0 && is_gather_target(
                    r@[0],
                    *data,
                    xph@,
                    order[0],
                )
            },
{
    let order: Vec<usize> = gathering_candidates(data, character, skill, xph);
    let ghost best_first = places(order@);
    let mut marks: Vec<bool> = Vec::new();
    let mut i: usize = 0;
    while i < order.len()
        invariant
            i <= order@.len(),
            marks@.len() == i,
            best_first == places(order@),
            can_tie(*tied, data.resources@),
            forall|j: int| 0 <= j < order@.len() ==> (#[trigger] order@[j]) < data.resources@.len(),
            forall|g: spec_fn(int, int) -> bool| #[trigger]
                ties_by(*tied, g) ==> marks@ == tie_marks(best_first, g).take(i as int),
        decreases order@.len() - i,
    {
        let ghost had = marks@;
        let best: usize = order[0];
        let other: usize = order[i];
        let mark: bool = tied(best, other);
        marks.push(mark);
        assert forall|g: spec_fn(int, int) -> bool| #[trigger] ties_by(*tied, g) implies marks@
            == tie_marks(best_first, g).take(i + 1) by {
            assert(best_first[0] == best && best_first[i as int] == other);
            assert(mark == g(best as int, other as int));
            assert(had == tie_marks(best_first, g).take(i as int));
            assert(marks@ =~= tie_marks(best_first, g).take(i + 1));
        }
        i += 1;
    }
    let r: Vec<GatherTarget> = tied_targets(data, xph, &order, &marks);
    assert forall|g: spec_fn(int, int) -> bool| #[trigger] ties_by(*tied, g) implies marks@
        == tie_marks(best_first, g) by {
        assert(tie_marks(best_first, g).take(i as int) =~= tie_marks(best_first, g));
    }
    assert(order@.len() > 0 ==> best_first[0] == order@[0]);
    r
}

/// Which of the first `n` items `skill` makes to any gain of XP.
pub open spec fn craft_picks(items: Seq<Item>, skill: Seq<char>, xp: Seq<i32>, n: int) -> Seq<int>
    decreases n,
{
    if n <= 0 {
        Seq::empty()
    } else if crafted_by(items[n - 1], skill) && xp[n - 1] > 0 && materials(items[n - 1]) > 0 {
        craft_picks(items, skill, xp, n - 1).push(n - 1)
    } else {
        craft_picks(items, skill, xp, n - 1)
    }
}

/// The items `skill` makes, most XP per ingredient first.
pub open spec fn crafting_order(items: Seq<Item>, skill: Seq<char>, xp: Seq<i32>) -> Seq<int> {
    let picks = craft_picks(items, skill, xp, items.len() as int);
    ranked(by_fraction(efficiency(picks, items, xp)), picks.len() as int).map_values(
        |j: int| picks[j],
    )
}

/// The items that `skill` makes to any gain of XP, by their places, most XP per ingredient first.
/// `craft_xp` gives what one craft of each item is worth.
pub fn find_optimal_crafting(data: &GameData, skill: &str, craft_xp: &[i32]) -> (r: Vec<usize>)
    requires
        craft_xp@.len() == data.items@.len(),
    ensures
        places(r@) == crafting_order(data.items@, skill@, craft_xp@),
        forall|j: int| 0 <= j < r@.len() ==> (#[trigger] r@[j]) < data.items@.len(),
{
    let mut picks: Vec<usize> = Vec::new();
    let mut keys: Vec<(i64, i64)> = Vec::new();
    let mut i: usize = 0;
    assert(places(picks@) =~= Seq::empty());
    assert(keys@ =~= efficiency(places(picks@), data.items@, craft_xp@));
    while i < data.items.len()
        invariant
            i <= data.items@.len(),
            craft_xp@.len() == data.items@.len(),
            places(picks@) == craft_picks(data.items@, skill@, craft_xp@, i as int),
            keys@ == efficiency(places(picks@), data.items@, craft_xp@),
            keys@.len() == picks@.len(),
            forall|j: int| 0 <= j < keys@.len() ==> (#[trigger] keys@[j]).1 > 0,
            forall|j: int| 0 <= j < picks@.len() ==> (#[trigger] picks@[j]) < data.items@.len(),
        decreases data.items@.len() - i,
    {
        if craft_xp[i] > 0 && is_crafted_by(&data.items[i], skill) {
            let total: i32 = materials_of(&data.items[i]);
            if total > 0 {
                let ghost had = picks@;
                picks.push(i);
                keys.push((craft_xp[i] as i64, total as i64));
                assert(places(picks@) =~= places(had).push(i as int));
                assert(keys@ =~= efficiency(places(picks@), data.items@, craft_xp@));
            }
        }
        i += 1;
    }
    pick_in_order(
        &picks,
        &rank_by_fraction(&keys),
        Ghost(by_fraction(keys@)),
        Ghost(data.items@.len()),
    )
}

} // verus!
