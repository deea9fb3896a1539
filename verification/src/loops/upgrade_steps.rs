//! Every genuine gear upgrade, for everyone and every slot, in one order of priority.

use vstd::prelude::*;

use crate::flags::{get_text, ratings_in, worn_by, GameState, StateView};
use crate::optimize::slot_rating::{
    current_slot_rating, is_upgrade, listed_rating, opt_text, texts, upgrades, SlotRating,
};
use crate::ranking::{by_key, is_ranking, places, rank_by_key, ranked};
use crate::table::Table;
use crate::text::same;
use crate::types::{find_item, recipe_of, Item};

verus! {

/// One upgrade worth having: for whom, for which slot, which item, and how it is rated.
#[derive(Debug)]
pub struct UpgradeStep {
    pub char_name: String,
    pub slot: String,
    pub code: String,
    pub rating: i64,
}

/// An upgrade, as a mathematical value.
pub struct StepView {
    pub who: Seq<char>,
    pub slot: Seq<char>,
    pub code: Seq<char>,
    pub rating: i64,
}

impl View for UpgradeStep {
    type V = StepView;

    open spec fn view(&self) -> StepView {
        StepView {
            who: self.char_name@,
            slot: self.slot@,
            code: self.code@,
            rating: self.rating,
        }
    }
}

/// A list of upgrades, as mathematical values.
pub open spec fn step_views(steps: Seq<UpgradeStep>) -> Seq<StepView> {
    steps.map_values(|s: UpgradeStep| s@)
}

/// Whether a skill is one of those that make gear.
pub open spec fn makes_gear(skill: Seq<char>) -> bool {
    skill == "weaponcrafting"@ || skill == "gearcrafting"@ || skill == "jewelrycrafting"@
}

/// Whether an item is made by one of the skills that make gear.
pub open spec fn is_crafted_gear(items: Seq<Item>, code: Seq<char>) -> bool {
    recipe_of(items, code) matches Some(craft) && craft.skill matches Some(skill) && makes_gear(
        skill@,
    )
}

/// Whether an entry of a ranking is a step: an upgrade over what is worn, and gear that can be
/// crafted where only such gear counts.
pub open spec fn is_step(
    r: SlotRating,
    i: int,
    equipped: Option<Seq<char>>,
    items: Seq<Item>,
    crafted_only: bool,
) -> bool {
    &&& is_upgrade(r.ranked@[i], r.ranked@, equipped)
    &&& crafted_only ==> is_crafted_gear(items, r.ranked@[i].code@)
}

/// The steps among the first `n` entries of a ranking.
pub open spec fn slot_steps(
    who: Seq<char>,
    r: SlotRating,
    n: int,
    equipped: Option<Seq<char>>,
    items: Seq<Item>,
    crafted_only: bool,
) -> Seq<StepView>
    decreases n,
{
    if n <= 0 {
        Seq::empty()
    } else {
        let before = slot_steps(who, r, n - 1, equipped, items, crafted_only);
        if is_step(r, n - 1, equipped, items, crafted_only) {
            before.push(
                StepView {
                    who,
                    slot: r.slot@,
                    code: r.ranked@[n - 1].code@,
                    rating: r.ranked@[n - 1].rating,
                },
            )
        } else {
            before
        }
    }
}

/// The steps for the first `n` slots of a character.
pub open spec fn character_steps(
    who: Seq<char>,
    slots: Seq<SlotRating>,
    n: int,
    gear: Map<Seq<char>, Seq<char>>,
    items: Seq<Item>,
    crafted_only: bool,
) -> Seq<StepView>
    decreases n,
{
    if n <= 0 {
        Seq::empty()
    } else {
        character_steps(who, slots, n - 1, gear, items, crafted_only) + slot_steps(
            who,
            slots[n - 1],
            slots[n - 1].ranked@.len() as int,
            get_text(gear, slots[n - 1].slot@),
            items,
            crafted_only,
        )
    }
}

/// The steps for the first `n` rated characters.
pub open spec fn all_steps(s: StateView, n: int, crafted_only: bool) -> Seq<StepView>
    decreases n,
{
    if n <= 0 {
        Seq::empty()
    } else {
        let who = s.rated[n - 1];
        all_steps(s, n - 1, crafted_only) + character_steps(
            who,
            s.ratings[who],
            s.ratings[who].len() as int,
            worn_by(s.equipped, who),
            s.data.items@,
            crafted_only,
        )
    }
}

/// How steps are rated.
pub open spec fn step_ratings(steps: Seq<StepView>) -> Seq<i64> {
    steps.map_values(|s: StepView| s.rating)
}

/// Steps, highest rated first; of those rated the same the earlier one comes first.
pub open spec fn best_first(steps: Seq<StepView>) -> Seq<StepView> {
    ranked(by_key(step_ratings(steps)), steps.len() as int).map_values(|i: int| steps[i])
}

/// Every upgrade for everyone, highest rated first, whoever it is for.
pub open spec fn upgrade_order(s: StateView, crafted_only: bool) -> Seq<StepView> {
    best_first(all_steps(s, s.rated.len() as int, crafted_only))
}

fn crafted_gear(items: &[Item], code: &str) -> (r: bool)
    ensures
        r == is_crafted_gear(items@, code@),
{
    match find_item(items, code) {
        Some(k) => match &items[k].craft {
            Some(craft) => match &craft.skill {
                Some(skill) => same(skill, "weaponcrafting") || same(skill, "gearcrafting") || same(
                    skill,
                    "jewelrycrafting",
                ),
                None => false,
            },
            None => false,
        },
        None => false,
    }
}

fn push_slot_steps(
    steps: &mut Vec<UpgradeStep>,
    who: &str,
    r: &SlotRating,
    gear: &Table<String>,
    items: &[Item],
    crafted_only: bool,
)
    requires
        gear.wf(),
    ensures
        step_views(final(steps)@) == step_views(old(steps)@) + slot_steps(
            who@,
            *r,
            r.ranked@.len() as int,
            get_text(texts(gear@), r.slot@),
            items@,
            crafted_only,
        ),
{
    let current: Option<&str> = match gear.get(r.slot) {
        Some(code) => Some(code.as_str()),
        None => None,
    };
    let ghost equipped = get_text(texts(gear@), r.slot@);
    assert(opt_text(current) == equipped);
    let rating: Option<i64> = current_slot_rating(&r.ranked, current);
    let ghost before = step_views(steps@);
    let mut i: usize = 0;
    assert(before + slot_steps(who@, *r, 0, equipped, items@, crafted_only) =~= before);
    while i < r.ranked.len()
        invariant
            i <= r.ranked@.len(),
            opt_text(current) == equipped,
            match current {
                None => rating is None,
                Some(code) => rating matches Some(c) && c == listed_rating(r.ranked@, code@, 0),
            },
            step_views(steps@) == before + slot_steps(
                who@,
                *r,
                i as int,
                equipped,
                items@,
                crafted_only,
            ),
        decreases r.ranked@.len() - i,
    {
        if upgrades(&r.ranked, i, rating, current) && (!crafted_only || crafted_gear(
            items,
            &r.ranked[i].code,
        )) {
            let ghost had = steps@;
            steps.push(
                UpgradeStep {
                    char_name: who.to_owned(),
                    slot: r.slot.to_owned(),
                    code: r.ranked[i].code.clone(),
                    rating: r.ranked[i].rating,
                },
            );
            assert(step_views(steps@) =~= step_views(had).push(steps@.last()@));
            assert(step_views(steps@) =~= before + slot_steps(
                who@,
                *r,
                i + 1,
                equipped,
                items@,
                crafted_only,
            ));
        }
        i += 1;
    }
}

fn push_character_steps(
    steps: &mut Vec<UpgradeStep>,
    who: &str,
    slots: &[SlotRating],
    gear: &Table<String>,
    items: &[Item],
    crafted_only: bool,
)
    requires
        gear.wf(),
    ensures
        step_views(final(steps)@) == step_views(old(steps)@) + character_steps(
            who@,
            slots@,
            slots@.len() as int,
            texts(gear@),
            items@,
            crafted_only,
        ),
{
    let ghost before = step_views(steps@);
    let mut i: usize = 0;
    assert(before + character_steps(who@, slots@, 0, texts(gear@), items@, crafted_only)
        =~= before);
    while i < slots.len()
        invariant
            i <= slots@.len(),
            gear.wf(),
            step_views(steps@) == before + character_steps(
                who@,
                slots@,
                i as int,
                texts(gear@),
                items@,
                crafted_only,
            ),
        decreases slots@.len() - i,
    {
        push_slot_steps(steps, who, &slots[i], gear, items, crafted_only);
        i += 1;
        assert(step_views(steps@) =~= before + character_steps(
            who@,
            slots@,
            i as int,
            texts(gear@),
            items@,
            crafted_only,
        ));
    }
}

/// Every upgrade for everyone, highest rated first, whoever it is for.
pub fn upgrade_steps(state: &GameState, crafted_only: bool) -> (r: Vec<UpgradeStep>)
    requires
        state.wf(),
    ensures
        step_views(r@) == upgrade_order(state@, crafted_only),
{
    let mut steps: Vec<UpgradeStep> = Vec::new();
    let ratings: &Table<Vec<SlotRating>> = state.all_item_ratings();
    let mut i: usize = 0;
    assert(step_views(steps@) =~= all_steps(state@, 0, crafted_only));
    while i < ratings.len()
        invariant
            i <= ratings.keys().len(),
            state.wf(),
            ratings.wf(),
            ratings.keys() == state@.rated,
            ratings_in(ratings@) == state@.ratings,
            step_views(steps@) == all_steps(state@, i as int, crafted_only),
        decreases ratings.keys().len() - i,
    {
        let entry = ratings.at(i);
        let gear: Table<String> = state.equipped_snapshot(entry.0);
        assert(ratings_in(ratings@)[entry.0@] == entry.1@);
        push_character_steps(
            &mut steps,
            entry.0,
            entry.1,
            &gear,
            &state.data().items,
            crafted_only,
        );
        i += 1;
    }
    let ghost listed = step_views(steps@);
    let mut keys: Vec<i64> = Vec::new();
    let mut k: usize = 0;
    while k < steps.len()
        invariant
            k <= steps@.len(),
            listed == step_views(steps@),
            keys@ == step_ratings(listed).take(k as int),
        decreases steps@.len() - k,
    {
        keys.push(steps[k].rating);
        k += 1;
        assert(step_ratings(listed).take(k as int) =~= step_ratings(listed).take(k - 1).push(
            step_ratings(listed)[k - 1],
        ));
    }
    assert(step_ratings(listed).take(k as int) =~= step_ratings(listed));
    let order: Vec<usize> = rank_by_key(&keys);
    let ghost target = best_first(listed);
    let mut out: Vec<UpgradeStep> = Vec::new();
    let mut j: usize = 0;
    assert(step_views(out@) =~= target.take(0));
    while j < order.len()
        invariant
            j <= order@.len(),
            order@.len() == steps@.len(),
            listed == step_views(steps@),
            keys@ == step_ratings(listed),
            places(order@) == ranked(by_key(keys@), keys@.len() as int),
            is_ranking(places(order@), by_key(keys@), keys@.len() as int),
            target == best_first(listed),
            step_views(out@) == target.take(j as int),
        decreases order@.len() - j,
    {
        assert(places(order@)[j as int] == order@[j as int]);
        let step: &UpgradeStep = &steps[order[j]];
        let ghost had = out@;
        out.push(
            UpgradeStep {
                char_name: step.char_name.clone(),
                slot: step.slot.clone(),
                code: step.code.clone(),
                rating: step.rating,
            },
        );
        assert(out@.last()@ == listed[order@[j as int] as int]);
        assert(step_views(out@) =~= step_views(had).push(out@.last()@));
        j += 1;
        assert(target.take(j as int) =~= target.take(j - 1).push(target[j - 1]));
    }
    assert(target.take(j as int) =~= target);
    out
}

/// Steps are walked in the order of their ratings, whoever they are for: no step is rated above
/// one that comes before it.
pub proof fn law_highest_rated_comes_first(s: StateView, crafted_only: bool, i: int, j: int)
    requires
        0 <= i < j < upgrade_order(s, crafted_only).len(),
    ensures
        upgrade_order(s, crafted_only)[i].rating >= upgrade_order(s, crafted_only)[j].rating,
{
    let steps = all_steps(s, s.rated.len() as int, crafted_only);
    let keys = step_ratings(steps);
    crate::ranking::lemma_keys_are_ordered(keys);
    crate::ranking::law_ranking(by_key(keys), keys.len() as int);
    let order = ranked(by_key(keys), keys.len() as int);
    assert(!(by_key(keys)(order[i], order[j])));
}

} // verus!
