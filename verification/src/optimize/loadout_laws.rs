//! What holds of the search for a loadout: what it may choose from, what a choice comes to, and
//! what it prefers.

use vstd::prelude::*;

use super::brute_force::{
    best_candidate, candidate_ranking, chosen_item, climbed, gathering_picks, gathering_ranking,
    is_dressing, is_loadout, is_stripping, opt_code, picked_ratings, pool, rankable, slots_wf,
    worn_loadout, AscentView, SlotCandidates,
};
use super::eligibility::{is_adjusted, is_eligible, lemma_adjusted_is_sum, plain_sum, stat};
use super::slot_rating::{
    is_upgrade, listed_rating, rating_worn, slots_of, worn, worn_item, RankedItem,
};
use crate::arith::fits_i32;
use crate::ranking::{by_key, law_ranking, lemma_keys_are_ordered, ranked};
use crate::types::{Character, Item};

verus! {

/// Whether an item of the category with this code may be worn by the character.
pub open spec fn may_wear(
    items: Seq<Item>,
    who: Character,
    category: Seq<char>,
    code: Seq<char>,
    n: int,
) -> bool {
    exists|i: int|
        0 <= i < n && (#[trigger] items[i]).code@ == code && items[i].item_type@ == category
            && is_eligible(who, items[i])
}

proof fn lemma_pool(
    items: Seq<Item>,
    who: Character,
    category: Seq<char>,
    current: Seq<char>,
    n: int,
    code: Seq<char>,
)
    requires
        0 <= n <= items.len(),
    ensures
        pool(items, who, category, current, n).contains(Some(code)) <==> (code == current
            && code.len() > 0) || may_wear(items, who, category, code, n),
    decreases n,
{
    let all = pool(items, who, category, current, n);
    if n > 0 {
        lemma_pool(items, who, category, current, n - 1, code);
        let before = pool(items, who, category, current, n - 1);
        let item = items[n - 1];
        if before.contains(Some(code)) {
            let k = before.index_of(Some(code));
            assert(all[k] == Some(code));
        }
        if item.code@ == code && item.item_type@ == category && is_eligible(who, item) {
            assert(may_wear(items, who, category, code, n));
            if !before.contains(Some(code)) {
                assert(all[before.len() as int] == Some(code));
            }
        }
        if may_wear(items, who, category, code, n - 1) {
            let i = choose|i: int|
                0 <= i < n - 1 && (#[trigger] items[i]).code@ == code && items[i].item_type@
                    == category && is_eligible(who, items[i]);
            assert(items[i].code@ == code);
        }
        if all.contains(Some(code)) && !before.contains(Some(code)) {
            let k = all.index_of(Some(code));
            assert(k == before.len());
        }
    } else {
        if current.len() > 0 {
            assert(all[1] == Some(current));
        }
        if all.contains(Some(code)) {
            let k = all.index_of(Some(code));
            assert(all[k] == Some(code));
        }
    }
}

/// What may go into a slot is what is worn there and every item of the slot's category whose
/// conditions the character meets, and nothing else.
pub proof fn law_pool_is_what_may_be_worn(
    items: Seq<Item>,
    who: Character,
    category: Seq<char>,
    current: Seq<char>,
)
    ensures
        forall|code: Seq<char>| #[trigger]
            pool(items, who, category, current, items.len() as int).contains(Some(code)) <==> (code
                == current && code.len() > 0) || may_wear(
                items,
                who,
                category,
                code,
                items.len() as int,
            ),
{
    assert forall|code: Seq<char>| #[trigger]
        pool(items, who, category, current, items.len() as int).contains(Some(code)) <==> (code
            == current && code.len() > 0) || may_wear(
            items,
            who,
            category,
            code,
            items.len() as int,
        ) by {
        lemma_pool(items, who, category, current, items.len() as int, code);
    }
}

/// What an item, if there is one, gives to a stat.
pub open spec fn gives(item: Option<Item>, code: Seq<char>) -> int {
    match item {
        Some(i) => plain_sum(i.effects@, code, i.effects@.len() as int),
        None => 0,
    }
}

/// Putting an item on `start`, or taking it off, keeps to the 32-bit range all the way.
pub open spec fn keeps_in_range(start: int, item: Option<Item>, code: Seq<char>, sign: int) -> bool {
    item matches Some(i) ==> forall|k: int|
        0 <= k <= i.effects@.len() ==> fits_i32(
            start + sign * #[trigger] plain_sum(i.effects@, code, k),
        )
}

/// What the first `n` choices of a loadout give to a stat together.
pub open spec fn loadout_gives(
    slots: Seq<SlotCandidates>,
    chosen: Seq<usize>,
    items: Seq<Item>,
    code: Seq<char>,
    n: int,
) -> int
    decreases n,
{
    if n <= 0 {
        0
    } else {
        loadout_gives(slots, chosen, items, code, n - 1) + gives(
            chosen_item(slots, chosen, items, n - 1),
            code,
        )
    }
}

/// What the character wears in slot `i`.
pub open spec fn worn_in(slots: Seq<SlotCandidates>, items: Seq<Item>, i: int) -> Option<Item> {
    match slots[i].current_code {
        Some(code) => worn_item(items, code@),
        None => None,
    }
}

/// What is worn in the first `n` slots gives to a stat together.
pub open spec fn worn_gives(
    slots: Seq<SlotCandidates>,
    items: Seq<Item>,
    code: Seq<char>,
    n: int,
) -> int
    decreases n,
{
    if n <= 0 {
        0
    } else {
        worn_gives(slots, items, code, n - 1) + gives(worn_in(slots, items, n - 1), code)
    }
}

proof fn lemma_one_item(
    after: Character,
    before: Character,
    item: Option<Item>,
    code: Seq<char>,
    sign: int,
    value: int,
)
    requires
        sign == 1 || sign == -1,
        match item {
            Some(i) => is_adjusted(after, before, i, sign),
            None => after == before,
        },
        stat(before, code) == Some(value),
        keeps_in_range(value, item, code, sign),
    ensures
        stat(after, code) == Some(value + sign * gives(item, code)),
{
    if let Some(i) = item {
        lemma_adjusted_is_sum(value, i.effects@, code, sign, i.effects@.len() as int);
    } else {
        assert(sign * 0 == 0);
    }
}

/// A dressed character has in every stat what it had naked and what all chosen items give to it
/// together, as long as no sum leaves the 32-bit range on the way.
pub proof fn law_dressing_adds_up(
    steps: Seq<Character>,
    naked: Character,
    slots: Seq<SlotCandidates>,
    chosen: Seq<usize>,
    items: Seq<Item>,
    n: int,
    code: Seq<char>,
    value: int,
)
    requires
        0 <= n,
        is_dressing(steps, naked, slots, chosen, items, n),
        stat(naked, code) == Some(value),
        forall|i: int|
            0 <= i < n ==> keeps_in_range(
                value + loadout_gives(slots, chosen, items, code, i),
                #[trigger] chosen_item(slots, chosen, items, i),
                code,
                1,
            ),
    ensures
        stat(steps[n], code) == Some(value + loadout_gives(slots, chosen, items, code, n)),
    decreases n,
{
    if n > 0 {
        let front = steps.drop_last();
        assert forall|i: int| 0 <= i < n - 1 implies match chosen_item(slots, chosen, items, i) {
            Some(item) => is_adjusted(#[trigger] front[i + 1], front[i], item, 1),
            None => front[i + 1] == front[i],
        } by {
            assert(front[i + 1] == steps[i + 1] && front[i] == steps[i]);
        }
        law_dressing_adds_up(front, naked, slots, chosen, items, n - 1, code, value);
        let item = chosen_item(slots, chosen, items, n - 1);
        assert(front[n - 1] == steps[n - 1]);
        assert(steps[(n - 1) + 1] == steps[n]);
        assert(keeps_in_range(
            value + loadout_gives(slots, chosen, items, code, n - 1),
            item,
            code,
            1,
        ));
        lemma_one_item(
            steps[n],
            steps[n - 1],
            item,
            code,
            1,
            value + loadout_gives(slots, chosen, items, code, n - 1),
        );
    }
}

/// A stripped character has in every stat what it had less what all that it wore gave to it.
pub proof fn law_stripping_takes_off_what_is_worn(
    steps: Seq<Character>,
    who: Character,
    slots: Seq<SlotCandidates>,
    items: Seq<Item>,
    n: int,
    code: Seq<char>,
    value: int,
)
    requires
        0 <= n,
        is_stripping(steps, who, slots, items, n),
        stat(who, code) == Some(value),
        forall|i: int|
            0 <= i < n ==> keeps_in_range(
                value - worn_gives(slots, items, code, i),
                #[trigger] worn_in(slots, items, i),
                code,
                -1,
            ),
    ensures
        stat(steps[n], code) == Some(value - worn_gives(slots, items, code, n)),
    decreases n,
{
    if n > 0 {
        let front = steps.drop_last();
        assert forall|i: int| 0 <= i < n - 1 implies ({
            let worn = match slots[i].current_code {
                Some(code) => worn_item(items, code@),
                None => None,
            };
            match worn {
                Some(item) => is_adjusted(#[trigger] front[i + 1], front[i], item, -1),
                None => front[i + 1] == front[i],
            }
        }) by {
            assert(front[i + 1] == steps[i + 1] && front[i] == steps[i]);
        }
        law_stripping_takes_off_what_is_worn(front, who, slots, items, n - 1, code, value);
        let item = worn_in(slots, items, n - 1);
        assert(front[n - 1] == steps[n - 1]);
        assert(steps[(n - 1) + 1] == steps[n]);
        assert(keeps_in_range(value - worn_gives(slots, items, code, n - 1), item, code, -1));
        lemma_one_item(
            steps[n],
            steps[n - 1],
            item,
            code,
            -1,
            value - worn_gives(slots, items, code, n - 1),
        );
    }
}

/// The loadout that a search starts from is what the character wears: putting it on gives to every
/// stat what taking it off took.
pub proof fn law_first_loadout_is_what_is_worn(
    slots: Seq<SlotCandidates>,
    items: Seq<Item>,
    code: Seq<char>,
    n: int,
)
    requires
        0 <= n <= slots.len(),
        slots_wf(slots),
        forall|i: int|
            0 <= i < slots.len() ==> ((#[trigger] slots[i]).current_code matches Some(c) ==> c@.len()
                > 0),
    ensures
        is_loadout(worn_loadout(slots), slots),
        forall|i: int|
            0 <= i < n ==> #[trigger] chosen_item(slots, worn_loadout(slots), items, i) == worn_in(
                slots,
                items,
                i,
            ),
        loadout_gives(slots, worn_loadout(slots), items, code, n) == worn_gives(
            slots,
            items,
            code,
            n,
        ),
    decreases n,
{
    let first = worn_loadout(slots);
    assert forall|i: int| 0 <= i < first.len() implies (#[trigger] first[i])
        < slots[i].candidates@.len() by {
        assert(slots[i].candidates@.len() >= 1);
    }
    if n > 0 {
        law_first_loadout_is_what_is_worn(slots, items, code, n - 1);
        let s = slots[n - 1];
        assert(s.candidates@[0] is None);
        if s.current_code is Some {
            assert(first[n - 1] == 1);
            assert(opt_code(s.candidates@[1]) == opt_code(s.current_code));
        }
    }
}

proof fn lemma_preferred(scores: Seq<i64>, chosen: int, score: int, n: int)
    requires
        0 <= n <= scores.len(),
        0 <= chosen < scores.len(),
    ensures
        ({
            let (best, top) = best_candidate(scores, chosen, score, n);
            &&& best == chosen || 0 <= best < n
            &&& top >= score
            &&& best == chosen ==> top == score
            &&& best != chosen ==> top == scores[best]
            &&& forall|c: int| 0 <= c < n && c != chosen ==> #[trigger] scores[c] <= top
            &&& best == 0 ==> forall|c: int|
                0 < c < n && c != chosen ==> #[trigger] scores[c] < top
            &&& best != chosen && chosen != 0 ==> top > score
            &&& best != chosen ==> forall|c: int|
                0 < c < best && c != chosen ==> #[trigger] scores[c] < top
        }),
    decreases n,
{
    if n > 0 {
        lemma_preferred(scores, chosen, score, n - 1);
    }
}

/// A step gives its slot the candidate that scores highest. What is worn gives way only to
/// something that scores higher, and of several that score alike the first is taken. Gear never
/// hurts: a slot is left empty only where every candidate scores less than that.
pub proof fn law_step_takes_the_best_candidate(a: AscentView, scores: Seq<i64>)
    requires
        a.wf(),
        !a.done,
        a.chosen[a.order[a.at] as int] < scores.len() <= usize::MAX,
    ensures
        ({
            let slot = a.order[a.at] as int;
            let was = a.chosen[slot] as int;
            let after = climbed(a, scores);
            let now = after.chosen[slot] as int;
            &&& 0 <= now < scores.len()
            &&& forall|c: int|
                0 <= c < scores.len() && c != was ==> #[trigger] scores[c] <= after.score
            &&& after.score >= a.score
            &&& now == was ==> after.score == a.score
            &&& now != was ==> after.score == scores[now]
            &&& now != was && was != 0 ==> after.score > a.score
            &&& now == 0 ==> forall|c: int|
                0 < c < scores.len() && c != was ==> #[trigger] scores[c] < after.score
            &&& now != was ==> forall|c: int|
                0 < c < now && c != was ==> #[trigger] scores[c] < after.score
        }),
{
    lemma_preferred(
        scores,
        a.chosen[a.order[a.at] as int] as int,
        a.score,
        scores.len() as int,
    );
}

/// A climb goes through the slots in order, pass after pass, and ends after a pass that changed
/// nothing, or after the twenty-fifth.
pub proof fn law_climb_goes_on_while_it_gains(a: AscentView, scores: Seq<i64>)
    requires
        a.wf(),
        !a.done,
        a.chosen[a.order[a.at] as int] < scores.len() <= usize::MAX,
    ensures
        ({
            let after = climbed(a, scores);
            let gained = a.changed || after.chosen != a.chosen;
            &&& after.order == a.order
            &&& a.at + 1 < a.order.len() ==> !after.done && after.at == a.at + 1 && after.pass
                == a.pass && after.changed == gained
            &&& a.at + 1 == a.order.len() && gained && a.pass < 24 ==> !after.done && after.at == 0
                && after.pass == a.pass + 1 && !after.changed
            &&& a.at + 1 == a.order.len() && (!gained || a.pass == 24) ==> after.done
                && after.changed == gained
        }),
{
    let slot = a.order[a.at] as int;
    lemma_preferred(scores, a.chosen[slot] as int, a.score, scores.len() as int);
    let after = climbed(a, scores);
    if after.chosen[slot] == a.chosen[slot] {
        assert(after.chosen =~= a.chosen);
    }
}

proof fn lemma_rankable(candidates: Seq<Option<String>>, ratings: Seq<i64>, n: int)
    requires
        0 <= n <= candidates.len(),
    ensures
        forall|i: int| #[trigger]
            rankable(candidates, ratings, n).contains(i) <==> 0 <= i < n && candidates[i] is Some
                && ratings[i] >= 0,
    decreases n,
{
    let all = rankable(candidates, ratings, n);
    if n > 0 {
        lemma_rankable(candidates, ratings, n - 1);
        let before = rankable(candidates, ratings, n - 1);
        assert forall|i: int| #[trigger] all.contains(i) <==> 0 <= i < n && candidates[i] is Some
            && ratings[i] >= 0 by {
            lemma_contains_pushed(before, n - 1, i);
        }
    }
}

/// Whether a list with one more at its end holds a value.
pub proof fn lemma_contains_pushed(list: Seq<int>, more: int, i: int)
    ensures
        list.push(more).contains(i) <==> list.contains(i) || i == more,
{
    let after = list.push(more);
    if list.contains(i) {
        let k = list.index_of(i);
        assert(after[k] == i);
    }
    if i == more {
        assert(after[list.len() as int] == i);
    }
    if after.contains(i) && i != more {
        let k = after.index_of(i);
        assert(list[k] == i);
    }
}

/// The ranking of a slot lists every candidate that is no worse than the empty slot, with its
/// rating, and nothing else, and none before one that is rated higher.
pub proof fn law_candidates_are_ranked_best_first(
    candidates: Seq<Option<String>>,
    ratings: Seq<i64>,
)
    requires
        ratings.len() == candidates.len(),
    ensures
        ({
            let list = candidate_ranking(candidates, ratings);
            &&& forall|a: int, b: int|
                0 <= a < b < list.len() ==> (#[trigger] list[a]).1 >= (#[trigger] list[b]).1
            &&& forall|a: int|
                0 <= a < list.len() ==> exists|i: int|
                    0 <= i < candidates.len() && (#[trigger] candidates[i] matches Some(c)
                        && c@ == (#[trigger] list[a]).0) && ratings[i] == list[a].1 && ratings[i]
                        >= 0
            &&& forall|i: int|
                0 <= i < candidates.len() && ratings[i] >= 0 ==> (
                #[trigger] candidates[i] matches Some(c) ==> list.contains((c@, ratings[i])))
        }),
{
    let n = candidates.len() as int;
    let picks = rankable(candidates, ratings, n);
    let keys = picked_ratings(picks, ratings);
    let list = candidate_ranking(candidates, ratings);
    lemma_rankable(candidates, ratings, n);
    lemma_keys_are_ordered(keys);
    law_ranking(by_key(keys), keys.len() as int);
    let order = ranked(by_key(keys), picks.len() as int);
    assert forall|a: int, b: int| 0 <= a < b < list.len() implies (#[trigger] list[a]).1 >= (
    #[trigger] list[b]).1 by {
        assert(!by_key(keys)(order[a], order[b]));
        assert(keys[order[a]] >= keys[order[b]]);
    }
    assert forall|a: int| 0 <= a < list.len() implies exists|i: int|
        0 <= i < candidates.len() && (#[trigger] candidates[i] matches Some(c) && c@ == (
        #[trigger] list[a]).0) && ratings[i] == list[a].1 && ratings[i] >= 0 by {
        let i = picks[order[a]];
        assert(0 <= order[a] < picks.len());
        assert(picks.contains(i));
        assert(candidates[i] is Some);
    }
    assert forall|i: int| 0 <= i < candidates.len() && ratings[i] >= 0 implies (
    #[trigger] candidates[i] matches Some(c) ==> list.contains((c@, ratings[i]))) by {
        if candidates[i] is Some {
            assert(picks.contains(i));
            let j = picks.index_of(i);
            assert(order.contains(j));
            let a = order.index_of(j);
            assert(list[a] == (candidates[i]->0@, ratings[i]));
        }
    }
}

proof fn lemma_gathering_picked(items: Seq<Item>, category: Seq<char>, ratings: Seq<i64>, n: int)
    requires
        0 <= n <= items.len(),
    ensures
        forall|i: int| #[trigger]
            gathering_picks(items, category, ratings, n).contains(i) <==> 0 <= i < n
                && items[i].item_type@ == category && ratings[i] > 0,
    decreases n,
{
    let all = gathering_picks(items, category, ratings, n);
    if n > 0 {
        lemma_gathering_picked(items, category, ratings, n - 1);
        let before = gathering_picks(items, category, ratings, n - 1);
        assert forall|i: int| #[trigger] all.contains(i) <==> 0 <= i < n && items[i].item_type@
            == category && ratings[i] > 0 by {
            lemma_contains_pushed(before, n - 1, i);
        }
    }
}

/// The ranking of a slot for gathering lists every item of its category that beats the empty slot,
/// with its rating, and nothing else, and none before one that is rated higher.
pub proof fn law_gathering_gear_is_ranked_best_first(
    items: Seq<Item>,
    category: Seq<char>,
    ratings: Seq<i64>,
)
    requires
        ratings.len() == items.len(),
    ensures
        ({
            let list = gathering_ranking(items, category, ratings);
            &&& forall|a: int, b: int|
                0 <= a < b < list.len() ==> (#[trigger] list[a]).1 >= (#[trigger] list[b]).1
            &&& forall|a: int|
                0 <= a < list.len() ==> exists|i: int|
                    0 <= i < items.len() && (#[trigger] items[i]).code@ == (#[trigger] list[a]).0
                        && items[i].item_type@ == category && ratings[i] == list[a].1
                        && ratings[i] > 0
            &&& forall|i: int|
                0 <= i < items.len() && (#[trigger] items[i]).item_type@ == category && ratings[i]
                    > 0 ==> list.contains((items[i].code@, ratings[i]))
        }),
{
    let n = items.len() as int;
    let picks = gathering_picks(items, category, ratings, n);
    let keys = picked_ratings(picks, ratings);
    let list = gathering_ranking(items, category, ratings);
    lemma_gathering_picked(items, category, ratings, n);
    lemma_keys_are_ordered(keys);
    law_ranking(by_key(keys), keys.len() as int);
    let order = ranked(by_key(keys), picks.len() as int);
    assert forall|a: int, b: int| 0 <= a < b < list.len() implies (#[trigger] list[a]).1 >= (
    #[trigger] list[b]).1 by {
        assert(!by_key(keys)(order[a], order[b]));
        assert(keys[order[a]] >= keys[order[b]]);
    }
    assert forall|a: int| 0 <= a < list.len() implies exists|i: int|
        0 <= i < items.len() && (#[trigger] items[i]).code@ == (#[trigger] list[a]).0
            && items[i].item_type@ == category && ratings[i] == list[a].1 && ratings[i] > 0 by {
        let i = picks[order[a]];
        assert(0 <= order[a] < picks.len());
        assert(picks.contains(i));
        assert(items[i].code@ == list[a].0);
    }
    assert forall|i: int|
        0 <= i < items.len() && (#[trigger] items[i]).item_type@ == category && ratings[i]
            > 0 implies list.contains((items[i].code@, ratings[i])) by {
        assert(picks.contains(i));
        let j = picks.index_of(i);
        assert(order.contains(j));
        let a = order.index_of(j);
        assert(list[a] == (items[i].code@, ratings[i]));
    }
}

/// The map of what a character wears, by slot.
pub open spec fn outfit(c: Character) -> Map<Seq<char>, Seq<char>> {
    worn(slots_of(c), 13)
}

/// A slot shows the item worn in it; an empty one is left out.
pub open spec fn shows(c: Character, label: Seq<char>, code: Seq<char>) -> bool {
    if code.len() == 0 {
        !outfit(c).contains_key(label)
    } else {
        outfit(c).contains_key(label) && outfit(c)[label] == code
    }
}

/// Every slot of a character shows the item of its own field.
pub proof fn law_every_slot_shows_its_own_item(c: Character)
    ensures
        shows(c, "weapon"@, c.weapon_slot@),
        shows(c, "shield"@, c.shield_slot@),
        shows(c, "helmet"@, c.helmet_slot@),
        shows(c, "body_armor"@, c.body_armor_slot@),
        shows(c, "leg_armor"@, c.leg_armor_slot@),
        shows(c, "boots"@, c.boots_slot@),
        shows(c, "ring1"@, c.ring1_slot@),
        shows(c, "ring2"@, c.ring2_slot@),
        shows(c, "amulet"@, c.amulet_slot@),
        shows(c, "artifact1"@, c.artifact1_slot@),
        shows(c, "artifact2"@, c.artifact2_slot@),
        shows(c, "artifact3"@, c.artifact3_slot@),
        shows(c, "rune"@, c.rune_slot@),
{
    reveal_strlit("weapon");
    reveal_strlit("shield");
    reveal_strlit("helmet");
    reveal_strlit("body_armor");
    reveal_strlit("leg_armor");
    reveal_strlit("boots");
    reveal_strlit("ring1");
    reveal_strlit("ring2");
    reveal_strlit("amulet");
    reveal_strlit("artifact1");
    reveal_strlit("artifact2");
    reveal_strlit("artifact3");
    reveal_strlit("rune");
    assert("weapon"@.len() == 6);
    assert("shield"@.len() == 6);
    assert("helmet"@.len() == 6);
    assert("body_armor"@.len() == 10);
    assert("leg_armor"@.len() == 9);
    assert("boots"@.len() == 5);
    assert("ring1"@.len() == 5);
    assert("ring2"@.len() == 5);
    assert("amulet"@.len() == 6);
    assert("artifact1"@.len() == 9);
    assert("artifact2"@.len() == 9);
    assert("artifact3"@.len() == 9);
    assert("rune"@.len() == 4);
    assert("weapon"@[0] == 'w' && "shield"@[0] == 's' && "helmet"@[0] == 'h' && "amulet"@[0]
        == 'a');
    assert("boots"@[0] == 'b' && "ring1"@[0] == 'r' && "ring2"@[0] == 'r');
    assert("ring1"@[4] == '1' && "ring2"@[4] == '2');
    assert("leg_armor"@[0] == 'l' && "artifact1"@[0] == 'a' && "artifact2"@[0] == 'a'
        && "artifact3"@[0] == 'a');
    assert("artifact1"@[8] == '1' && "artifact2"@[8] == '2' && "artifact3"@[8] == '3');
    reveal_with_fuel(worn, 14);
}

/// What goes into each slot: gear of its own category, both rings alike and all artifacts alike.
pub proof fn law_slots_take_their_own_category(c: Character)
    ensures
        slots_of(c).contains(("weapon"@, "weapon"@, c.weapon_slot@)),
        slots_of(c).contains(("shield"@, "shield"@, c.shield_slot@)),
        slots_of(c).contains(("helmet"@, "helmet"@, c.helmet_slot@)),
        slots_of(c).contains(("body_armor"@, "body_armor"@, c.body_armor_slot@)),
        slots_of(c).contains(("leg_armor"@, "leg_armor"@, c.leg_armor_slot@)),
        slots_of(c).contains(("boots"@, "boots"@, c.boots_slot@)),
        slots_of(c).contains(("ring1"@, "ring"@, c.ring1_slot@)),
        slots_of(c).contains(("ring2"@, "ring"@, c.ring2_slot@)),
        slots_of(c).contains(("amulet"@, "amulet"@, c.amulet_slot@)),
        slots_of(c).contains(("artifact1"@, "artifact"@, c.artifact1_slot@)),
        slots_of(c).contains(("artifact2"@, "artifact"@, c.artifact2_slot@)),
        slots_of(c).contains(("artifact3"@, "artifact"@, c.artifact3_slot@)),
        slots_of(c).contains(("rune"@, "rune"@, c.rune_slot@)),
        slots_of(c).len() == 13,
{
    let s = slots_of(c);
    assert(s[0] == s[0] && s[1] == s[1] && s[2] == s[2] && s[3] == s[3] && s[4] == s[4] && s[5]
        == s[5] && s[6] == s[6] && s[7] == s[7] && s[8] == s[8] && s[9] == s[9] && s[10] == s[10]
        && s[11] == s[11] && s[12] == s[12]);
}

proof fn lemma_listed_rating(list: Seq<RankedItem>, code: Seq<char>, from: int)
    requires
        0 <= from,
    ensures
        (forall|i: int| from <= i < list.len() ==> (#[trigger] list[i]).code@ != code)
            ==> listed_rating(list, code, from) == 0,
        forall|i: int|
            from <= i < list.len() && (#[trigger] list[i]).code@ == code && (forall|j: int|
                from <= j < i ==> (#[trigger] list[j]).code@ != code) ==> listed_rating(
                list,
                code,
                from,
            ) == list[i].rating,
    decreases list.len() - from,
{
    if from < list.len() && list[from].code@ != code {
        lemma_listed_rating(list, code, from + 1);
    }
}

/// An item is an upgrade over an empty slot always, over a worn item that the ranking lists where
/// it is rated higher, and over one that it does not list where it beats the empty slot. What is
/// worn is no upgrade over itself.
pub proof fn law_upgrade_beats_what_is_worn(
    item: RankedItem,
    list: Seq<RankedItem>,
    equipped: Seq<char>,
)
    ensures
        is_upgrade(item, list, None),
        item.code@ == equipped ==> !is_upgrade(item, list, Some(equipped)),
        (forall|i: int| 0 <= i < list.len() ==> (#[trigger] list[i]).code@ != equipped) ==> (
        is_upgrade(item, list, Some(equipped)) <==> item.rating > 0 && item.code@ != equipped),
        forall|i: int|
            0 <= i < list.len() && (#[trigger] list[i]).code@ == equipped && (forall|j: int|
                0 <= j < i ==> (#[trigger] list[j]).code@ != equipped) ==> (is_upgrade(
                item,
                list,
                Some(equipped),
            ) <==> item.rating > list[i].rating && item.code@ != equipped),
{
    lemma_listed_rating(list, equipped, 0);
    assert(rating_worn(list, Some(equipped)) == Some(listed_rating(list, equipped, 0)));
}

} // verus!
