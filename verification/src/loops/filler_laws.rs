//! What holds of filler: which gear may fill idle crafting time, and in which order.

use vstd::prelude::*;

use super::crafting_plan::{
    efficiency, filler_picks, fillers, fillers_of, lag, materials, EntryView, PlanTier,
    CRAFTING_SKILLS,
};
use crate::arith::fits_i32;
use crate::formulas::recycling::ingredient_total;
use crate::optimize::loadout_laws::lemma_contains_pushed;
use crate::optimize::skill_laws::{law_level_is_the_skills_own_field, lemma_skill_names};
use crate::optimize::skills::level_in;
use crate::ranking::{
    by_fraction, by_key, law_ranking, lemma_fractions_are_ordered, lemma_keys_are_ordered, ranked,
};
use crate::types::{Character, CraftIngredient, Item};

verus! {

/// The quantities of the first `n` ingredients, added up.
pub open spec fn quantity_sum(ings: Seq<CraftIngredient>, n: int) -> int
    decreases n,
{
    if n <= 0 {
        0
    } else {
        quantity_sum(ings, n - 1) + ings[n - 1].quantity
    }
}

proof fn lemma_ingredient_total(ings: Seq<CraftIngredient>, n: int)
    requires
        0 <= n <= ings.len(),
    ensures
        ingredient_total(ings.take(n)) == quantity_sum(ings, n),
    decreases n,
{
    if n > 0 {
        lemma_ingredient_total(ings, n - 1);
        assert(ings.take(n).drop_last() =~= ings.take(n - 1));
    }
}

/// A recipe takes as many materials as the quantities of its ingredients come to; an item without a
/// recipe takes none.
pub proof fn law_materials_are_all_ingredients(item: Item)
    ensures
        item.craft is None ==> materials(item) == 0,
        item.craft matches Some(craft) ==> {
            let sum = quantity_sum(craft.items@, craft.items@.len() as int);
            &&& fits_i32(sum) ==> materials(item) == sum
            &&& sum > 0 <==> materials(item) > 0
        },
{
    if let Some(craft) = item.craft {
        lemma_ingredient_total(craft.items@, craft.items@.len() as int);
        assert(craft.items@.take(craft.items@.len() as int) =~= craft.items@);
    }
}

/// The skills that make gear.
pub open spec fn is_gear_craft(skill: Seq<char>) -> bool {
    skill == "weaponcrafting"@ || skill == "gearcrafting"@ || skill == "jewelrycrafting"@
}

/// An item may fill idle time under a skill: it is not spoken for, a recipe of that skill makes it,
/// the character has the level that the recipe asks for, a craft gives XP, and it takes materials.
pub open spec fn may_fill(
    item: Item,
    xp: int,
    skill: Seq<char>,
    who: Character,
    exclude: Set<Seq<char>>,
) -> bool {
    &&& !exclude.contains(item.code@)
    &&& xp > 0
    &&& item.craft is Some
    &&& item.craft->0.skill is Some
    &&& item.craft->0.skill->0@ == skill
    &&& item.craft->0.level matches Some(req) ==> level_in(who, skill) >= req
    &&& materials(item) > 0
}

/// `list` is filler, the items of which stand at the places `at`.
pub open spec fn is_filler_list(
    list: Seq<EntryView>,
    at: Seq<int>,
    who: Character,
    items: Seq<Item>,
    xp: Seq<i32>,
    exclude: Set<Seq<char>>,
) -> bool {
    &&& at.len() == list.len()
    &&& forall|k: int|
        0 <= k < list.len() ==> {
            &&& 0 <= #[trigger] at[k] < items.len()
            &&& list[k].code == items[at[k]].code@
            &&& list[k].quantity == i32::MAX
            &&& list[k].tier == PlanTier::Filler
            &&& is_gear_craft(list[k].skill)
            &&& may_fill(items[at[k]], xp[at[k]] as int, list[k].skill, who, exclude)
        }
}

/// The lagging skill comes first, and within a skill what gives more XP for its materials.
pub open spec fn lags_and_pays(
    list: Seq<EntryView>,
    at: Seq<int>,
    who: Character,
    items: Seq<Item>,
    xp: Seq<i32>,
) -> bool {
    forall|a: int, b: int|
        0 <= a < b < list.len() ==> {
            &&& level_in(who, (#[trigger] list[a]).skill) <= level_in(
                who,
                (#[trigger] list[b]).skill,
            )
            &&& list[a].skill == list[b].skill ==> xp[at[a]] * materials(items[at[b]])
                >= xp[at[b]] * materials(items[at[a]])
        }
}

proof fn lemma_picked(
    skill: Seq<char>,
    who: Character,
    items: Seq<Item>,
    xp: Seq<i32>,
    exclude: Set<Seq<char>>,
    n: int,
)
    requires
        0 <= n <= items.len(),
    ensures
        forall|i: int| #[trigger]
            filler_picks(skill, level_in(who, skill), items, xp, exclude, n).contains(i) <==> 0 <= i
                < n && may_fill(items[i], xp[i] as int, skill, who, exclude),
    decreases n,
{
    let level = level_in(who, skill);
    let all = filler_picks(skill, level, items, xp, exclude, n);
    if n > 0 {
        lemma_picked(skill, who, items, xp, exclude, n - 1);
        let before = filler_picks(skill, level, items, xp, exclude, n - 1);
        assert forall|i: int| #[trigger] all.contains(i) <==> 0 <= i < n && may_fill(
            items[i],
            xp[i] as int,
            skill,
            who,
            exclude,
        ) by {
            lemma_contains_pushed(before, n - 1, i);
        }
    }
}

/// The places of the items that fill under one skill, in the order of the list.
spec fn places_of(
    skill: Seq<char>,
    who: Character,
    items: Seq<Item>,
    xp: Seq<i32>,
    exclude: Set<Seq<char>>,
) -> Seq<int> {
    let picks = filler_picks(skill, level_in(who, skill), items, xp, exclude, items.len() as int);
    ranked(by_fraction(efficiency(picks, items, xp)), picks.len() as int).map_values(
        |j: int| picks[j],
    )
}

proof fn lemma_one_skill(
    skill: Seq<char>,
    who: Character,
    items: Seq<Item>,
    xp: Seq<i32>,
    exclude: Set<Seq<char>>,
)
    requires
        is_gear_craft(skill),
        xp.len() == items.len(),
    ensures
        ({
            let list = fillers_of(skill, level_in(who, skill), items, xp, exclude);
            let at = places_of(skill, who, items, xp, exclude);
            &&& is_filler_list(list, at, who, items, xp, exclude)
            &&& lags_and_pays(list, at, who, items, xp)
            &&& forall|k: int| 0 <= k < list.len() ==> (#[trigger] list[k]).skill == skill
            &&& forall|j: int|
                0 <= j < items.len() && may_fill(
                    #[trigger] items[j],
                    xp[j] as int,
                    skill,
                    who,
                    exclude,
                ) ==> at.contains(j)
        }),
{
    let level = level_in(who, skill);
    let n = items.len() as int;
    let picks = filler_picks(skill, level, items, xp, exclude, n);
    let keys = efficiency(picks, items, xp);
    let list = fillers_of(skill, level, items, xp, exclude);
    let at = places_of(skill, who, items, xp, exclude);
    lemma_picked(skill, who, items, xp, exclude, n);
    assert forall|j: int| 0 <= j < keys.len() implies (#[trigger] keys[j]).1 > 0 by {
        assert(picks.contains(picks[j]));
    }
    lemma_fractions_are_ordered(keys);
    law_ranking(by_fraction(keys), keys.len() as int);
    let order = ranked(by_fraction(keys), picks.len() as int);
    assert forall|k: int| 0 <= k < list.len() implies ({
        &&& 0 <= #[trigger] at[k] < items.len()
        &&& list[k].code == items[at[k]].code@
        &&& may_fill(items[at[k]], xp[at[k]] as int, list[k].skill, who, exclude)
    }) by {
        assert(0 <= order[k] < picks.len());
        assert(picks.contains(picks[order[k]]));
    }
    assert forall|a: int, b: int| 0 <= a < b < list.len() implies xp[at[a]] * materials(
        items[at[b]],
    ) >= xp[at[b]] * materials(items[at[a]]) by {
        let (p, q) = (order[a], order[b]);
        assert(0 <= p < picks.len() && 0 <= q < picks.len());
        assert(!by_fraction(keys)(p, q));
        assert(keys[p] == (xp[at[a]] as i64, materials(items[at[a]]) as i64));
        assert(keys[q] == (xp[at[b]] as i64, materials(items[at[b]]) as i64));
    }
    assert forall|j: int|
        0 <= j < n && may_fill(#[trigger] items[j], xp[j] as int, skill, who, exclude) implies
        at.contains(j) by {
        assert(picks.contains(j));
        let i = picks.index_of(j);
        assert(order.contains(i));
        let k = order.index_of(i);
        assert(at[k] == j);
    }
}

/// The places of the items that fill under the first `k` skills, in the order of the list.
spec fn places_upto(
    who: Character,
    items: Seq<Item>,
    xp: Seq<i32>,
    exclude: Set<Seq<char>>,
    k: int,
) -> Seq<int>
    decreases k,
{
    if k <= 0 {
        Seq::empty()
    } else {
        let skill = CRAFTING_SKILLS@[ranked(by_key(lag(who)), 3)[k - 1]]@;
        places_upto(who, items, xp, exclude, k - 1) + places_of(skill, who, items, xp, exclude)
    }
}

/// The gear skills, the one that lags behind first.
spec fn by_lag(who: Character) -> Seq<Seq<char>> {
    Seq::new(3, |k: int| CRAFTING_SKILLS@[ranked(by_key(lag(who)), 3)[k]]@)
}

proof fn lemma_by_lag(who: Character)
    ensures
        by_lag(who).contains("weaponcrafting"@),
        by_lag(who).contains("gearcrafting"@),
        by_lag(who).contains("jewelrycrafting"@),
        forall|k: int| 0 <= k < 3 ==> is_gear_craft(#[trigger] by_lag(who)[k]),
        forall|a: int, b: int|
            0 <= a < b < 3 ==> level_in(who, #[trigger] by_lag(who)[a]) <= level_in(
                who,
                #[trigger] by_lag(who)[b],
            ) && by_lag(who)[a] != by_lag(who)[b],
{
    lemma_skill_names();
    law_level_is_the_skills_own_field(who);
    let keys = lag(who);
    lemma_keys_are_ordered(keys);
    law_ranking(by_key(keys), 3);
    let order = ranked(by_key(keys), 3);
    let names = by_lag(who);
    assert(CRAFTING_SKILLS@[0]@ == "weaponcrafting"@);
    assert(CRAFTING_SKILLS@[1]@ == "gearcrafting"@);
    assert(CRAFTING_SKILLS@[2]@ == "jewelrycrafting"@);
    assert(order.contains(0) && order.contains(1) && order.contains(2));
    let (p, q, r) = (order.index_of(0), order.index_of(1), order.index_of(2));
    assert(names[p] == "weaponcrafting"@);
    assert(names[q] == "gearcrafting"@);
    assert(names[r] == "jewelrycrafting"@);
    assert forall|k: int| 0 <= k < 3 implies is_gear_craft(#[trigger] names[k]) by {
        assert(0 <= order[k] < 3);
    }
    assert forall|a: int, b: int| 0 <= a < b < 3 implies level_in(who, #[trigger] names[a])
        <= level_in(who, #[trigger] names[b]) && names[a] != names[b] by {
        assert(order[a] != order[b]);
        assert(!by_key(keys)(order[a], order[b]));
        assert(0 <= order[a] < 3 && 0 <= order[b] < 3);
    }
}

/// Whether a skill is one of the first `k` that lag behind.
spec fn is_among(who: Character, skill: Seq<char>, k: int) -> bool {
    exists|m: int| 0 <= m < k && skill == #[trigger] by_lag(who)[m]
}

/// Whatever may fill under a skill is listed.
spec fn lists_all(
    list: Seq<EntryView>,
    at: Seq<int>,
    skill: Seq<char>,
    who: Character,
    items: Seq<Item>,
    xp: Seq<i32>,
    exclude: Set<Seq<char>>,
) -> bool {
    forall|j: int|
        0 <= j < items.len() && may_fill(#[trigger] items[j], xp[j] as int, skill, who, exclude)
            ==> is_listed(list, at, skill, j)
}

/// Item `j` is listed under a skill.
spec fn is_listed(list: Seq<EntryView>, at: Seq<int>, skill: Seq<char>, j: int) -> bool {
    exists|i: int| 0 <= i < list.len() && #[trigger] at[i] == j && list[i].skill == skill
}

proof fn lemma_joined(
    front: Seq<EntryView>,
    front_at: Seq<int>,
    back: Seq<EntryView>,
    back_at: Seq<int>,
    who: Character,
    items: Seq<Item>,
    xp: Seq<i32>,
    exclude: Set<Seq<char>>,
)
    requires
        is_filler_list(front, front_at, who, items, xp, exclude),
        is_filler_list(back, back_at, who, items, xp, exclude),
        lags_and_pays(front, front_at, who, items, xp),
        lags_and_pays(back, back_at, who, items, xp),
        forall|a: int, b: int|
            0 <= a < front.len() && 0 <= b < back.len() ==> level_in(
                who,
                (#[trigger] front[a]).skill,
            ) <= level_in(who, (#[trigger] back[b]).skill) && front[a].skill != back[b].skill,
    ensures
        is_filler_list(front + back, front_at + back_at, who, items, xp, exclude),
        lags_and_pays(front + back, front_at + back_at, who, items, xp),
{
    let list = front + back;
    let at = front_at + back_at;
    let f = front.len() as int;
    assert forall|i: int| 0 <= i < list.len() implies ({
        &&& 0 <= #[trigger] at[i] < items.len()
        &&& list[i].code == items[at[i]].code@
        &&& list[i].quantity == i32::MAX
        &&& list[i].tier == PlanTier::Filler
        &&& is_gear_craft(list[i].skill)
        &&& may_fill(items[at[i]], xp[at[i]] as int, list[i].skill, who, exclude)
    }) by {
        if i < f {
            assert(list[i] == front[i] && at[i] == front_at[i]);
        } else {
            assert(list[i] == back[i - f] && at[i] == back_at[i - f]);
        }
    }
    assert forall|a: int, b: int| 0 <= a < b < list.len() implies ({
        &&& level_in(who, (#[trigger] list[a]).skill) <= level_in(who, (#[trigger] list[b]).skill)
        &&& list[a].skill == list[b].skill ==> xp[at[a]] * materials(items[at[b]]) >= xp[at[b]]
            * materials(items[at[a]])
    }) by {
        if b < f {
            assert(list[a] == front[a] && list[b] == front[b]);
            assert(at[a] == front_at[a] && at[b] == front_at[b]);
        } else if a >= f {
            assert(list[a] == back[a - f] && list[b] == back[b - f]);
            assert(at[a] == back_at[a - f] && at[b] == back_at[b - f]);
        } else {
            assert(list[a] == front[a] && list[b] == back[b - f]);
        }
    }
}

proof fn lemma_fillers(
    who: Character,
    items: Seq<Item>,
    xp: Seq<i32>,
    exclude: Set<Seq<char>>,
    k: int,
)
    requires
        0 <= k <= 3,
        xp.len() == items.len(),
    ensures
        ({
            let list = fillers(who, items, xp, exclude, k);
            let at = places_upto(who, items, xp, exclude, k);
            &&& is_filler_list(list, at, who, items, xp, exclude)
            &&& lags_and_pays(list, at, who, items, xp)
            &&& forall|i: int| 0 <= i < list.len() ==> is_among(who, (#[trigger] list[i]).skill, k)
        }),
    decreases k,
{
    if k > 0 {
        lemma_fillers(who, items, xp, exclude, k - 1);
        lemma_by_lag(who);
        let skill = by_lag(who)[k - 1];
        let front = fillers(who, items, xp, exclude, k - 1);
        let back = fillers_of(skill, level_in(who, skill), items, xp, exclude);
        lemma_one_skill(skill, who, items, xp, exclude);
        assert forall|a: int, b: int| 0 <= a < front.len() && 0 <= b < back.len() implies level_in(
            who,
            (#[trigger] front[a]).skill,
        ) <= level_in(who, (#[trigger] back[b]).skill) && front[a].skill != back[b].skill by {
            assert(is_among(who, front[a].skill, k - 1));
            let m = choose|m: int| 0 <= m < k - 1 && front[a].skill == #[trigger] by_lag(who)[m];
            assert(back[b].skill == by_lag(who)[k - 1]);
        }
        lemma_joined(
            front,
            places_upto(who, items, xp, exclude, k - 1),
            back,
            places_of(skill, who, items, xp, exclude),
            who,
            items,
            xp,
            exclude,
        );
        let list = fillers(who, items, xp, exclude, k);
        assert forall|i: int| 0 <= i < list.len() implies is_among(
            who,
            (#[trigger] list[i]).skill,
            k,
        ) by {
            if i < front.len() {
                assert(list[i] == front[i]);
                assert(is_among(who, front[i].skill, k - 1));
                let m = choose|m: int|
                    0 <= m < k - 1 && front[i].skill == #[trigger] by_lag(who)[m];
                assert(list[i].skill == by_lag(who)[m]);
            } else {
                assert(list[i] == back[i - front.len()]);
                assert(list[i].skill == by_lag(who)[k - 1]);
            }
        }
    }
}

proof fn lemma_fillers_list_all(
    who: Character,
    items: Seq<Item>,
    xp: Seq<i32>,
    exclude: Set<Seq<char>>,
    k: int,
    m: int,
)
    requires
        0 <= m < k <= 3,
        xp.len() == items.len(),
    ensures
        lists_all(
            fillers(who, items, xp, exclude, k),
            places_upto(who, items, xp, exclude, k),
            by_lag(who)[m],
            who,
            items,
            xp,
            exclude,
        ),
    decreases k,
{
    lemma_by_lag(who);
    let last = by_lag(who)[k - 1];
    lemma_fillers(who, items, xp, exclude, k - 1);
    lemma_one_skill(last, who, items, xp, exclude);
    let front = fillers(who, items, xp, exclude, k - 1);
    let front_at = places_upto(who, items, xp, exclude, k - 1);
    let back = fillers_of(last, level_in(who, last), items, xp, exclude);
    let back_at = places_of(last, who, items, xp, exclude);
    let list = fillers(who, items, xp, exclude, k);
    let at = places_upto(who, items, xp, exclude, k);
    let skill = by_lag(who)[m];
    assert(list == front + back);
    assert(at == front_at + back_at);
    if m < k - 1 {
        lemma_fillers_list_all(who, items, xp, exclude, k - 1, m);
    }
    assert forall|j: int|
        0 <= j < items.len() && may_fill(
            #[trigger] items[j],
            xp[j] as int,
            skill,
            who,
            exclude,
        ) implies is_listed(list, at, skill, j) by {
        if m < k - 1 {
            assert(is_listed(front, front_at, skill, j));
            let i = choose|i: int|
                0 <= i < front.len() && #[trigger] front_at[i] == j && front[i].skill == skill;
            assert(at[i] == j && list[i] == front[i]);
        } else {
            assert(back_at.contains(j));
            let i = back_at.index_of(j);
            assert(at[front.len() + i] == j);
            assert(list[front.len() + i] == back[i]);
        }
    }
}

/// Filler is gear that is not spoken for and that the character can make to some gain of XP. The
/// skill that lags behind comes first, so that it catches up, and within a skill what gives the
/// most XP for its materials.
pub proof fn law_filler_helps_the_lagging_skill_first(
    who: Character,
    items: Seq<Item>,
    xp: Seq<i32>,
    exclude: Set<Seq<char>>,
)
    requires
        xp.len() == items.len(),
    ensures
        exists|at: Seq<int>|
            #[trigger] is_filler_list(
                fillers(who, items, xp, exclude, 3),
                at,
                who,
                items,
                xp,
                exclude,
            ) && lags_and_pays(fillers(who, items, xp, exclude, 3), at, who, items, xp),
        forall|a: int, b: int|
            0 <= a < b < fillers(who, items, xp, exclude, 3).len() ==> level_in(
                who,
                (#[trigger] fillers(who, items, xp, exclude, 3)[a]).skill,
            ) <= level_in(who, (#[trigger] fillers(who, items, xp, exclude, 3)[b]).skill),
{
    lemma_fillers(who, items, xp, exclude, 3);
    assert(is_filler_list(
        fillers(who, items, xp, exclude, 3),
        places_upto(who, items, xp, exclude, 3),
        who,
        items,
        xp,
        exclude,
    ));
}

/// No gear is passed over: whatever may fill idle time under one of the gear skills is listed.
pub proof fn law_filler_lists_all_that_help(
    who: Character,
    items: Seq<Item>,
    xp: Seq<i32>,
    exclude: Set<Seq<char>>,
    skill: Seq<char>,
    j: int,
)
    requires
        xp.len() == items.len(),
        0 <= j < items.len(),
        is_gear_craft(skill),
        may_fill(items[j], xp[j] as int, skill, who, exclude),
    ensures
        exists|i: int|
            0 <= i < fillers(who, items, xp, exclude, 3).len() && (#[trigger] fillers(
                who,
                items,
                xp,
                exclude,
                3,
            )[i]).code == items[j].code@ && fillers(who, items, xp, exclude, 3)[i].skill == skill,
{
    lemma_fillers(who, items, xp, exclude, 3);
    lemma_by_lag(who);
    let list = fillers(who, items, xp, exclude, 3);
    let at = places_upto(who, items, xp, exclude, 3);
    assert(by_lag(who).contains(skill));
    let m = by_lag(who).index_of(skill);
    lemma_fillers_list_all(who, items, xp, exclude, 3, m);
    assert(is_listed(list, at, skill, j));
    let i = choose|i: int| 0 <= i < list.len() && #[trigger] at[i] == j && list[i].skill == skill;
    assert(list[i].code == items[at[i]].code@);
}

} // verus!
