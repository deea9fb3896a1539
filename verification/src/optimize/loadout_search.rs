//! The search for a loadout, given a way to score one.

use vstd::prelude::*;
use vstd::set_lib::{lemma_int_range, lemma_subset_equality, set_int_range};

use super::brute_force::{
    best_candidate, candidate_ranking, climbed, in_order, is_loadout, is_permutation, law_climbing_ends,
    law_climbing_never_descends, next_random, rank_candidates, ranked_views, rating_place,
    rating_views, replace_ranking, restart, seed_state, shuffled, slots_wf,
    start_ascent, starting_point, steps_left, worn_loadout, Ascent, AscentView, SlotCandidates,
    BRUTE_FORCE_RESTARTS,
};
use super::slot_rating::{RankedItem, SlotRating};

verus! {

/// Every loadout can be scored.
pub open spec fn is_scorer<F: Fn(&Vec<usize>) -> i64>(
    score: F,
    slots: Seq<SlotCandidates>,
) -> bool {
    forall|c: &Vec<usize>| is_loadout(c@, slots) ==> #[trigger] call_requires(score, (c,))
}

/// Scoring a loadout gives what `f` says.
pub open spec fn scores_by<F: Fn(&Vec<usize>) -> i64>(
    score: F,
    f: spec_fn(Seq<usize>) -> i64,
) -> bool {
    forall|c: &Vec<usize>, r: i64| #[trigger] call_ensures(score, (c,), r) ==> r == f(c@)
}

/// The scores of a loadout with each of the first `n` candidates of a slot in turn.
pub open spec fn trial_scores(
    f: spec_fn(Seq<usize>) -> i64,
    chosen: Seq<usize>,
    slot: int,
    n: int,
) -> Seq<i64> {
    Seq::new(n as nat, |c: int| f(chosen.update(slot, c as usize)))
}

/// A climb after one more step.
pub open spec fn one_step(
    f: spec_fn(Seq<usize>) -> i64,
    slots: Seq<SlotCandidates>,
    a: AscentView,
) -> AscentView {
    let slot = a.order[a.at] as int;
    climbed(a, trial_scores(f, a.chosen, slot, slots[slot].candidates@.len() as int))
}

/// Where a climb ends.
pub open spec fn summit(
    f: spec_fn(Seq<usize>) -> i64,
    slots: Seq<SlotCandidates>,
    a: AscentView,
) -> AscentView
    decreases steps_left(a),
    when a.wf()
    via summit_is_reached
{
    if a.done {
        a
    } else {
        summit(f, slots, one_step(f, slots, a))
    }
}

#[via_fn]
proof fn summit_is_reached(
    f: spec_fn(Seq<usize>) -> i64,
    slots: Seq<SlotCandidates>,
    a: AscentView,
) {
    if !a.done {
        let slot = a.order[a.at] as int;
        law_climbing_ends(
            a,
            trial_scores(f, a.chosen, slot, slots[slot].candidates@.len() as int),
        );
    }
}

/// A climb that is about to start from a loadout.
pub open spec fn at_the_foot(order: Seq<usize>, chosen: Seq<usize>, score: int) -> AscentView {
    AscentView { chosen, score, order, at: 0, pass: 0, changed: false, done: order.len() == 0 }
}

/// Climbs from a loadout: gives one slot after the other its best candidate, until a whole pass
/// changes nothing. Returns the loadout it ends with and how that scores.
pub fn coordinate_ascent_pass<F: Fn(&Vec<usize>) -> i64>(
    slots: &[SlotCandidates],
    chosen: Vec<usize>,
    order: Vec<usize>,
    score: &F,
) -> (r: (Vec<usize>, i64))
    requires
        slots_wf(slots@),
        is_loadout(chosen@, slots@),
        is_permutation(order@),
        order@.len() == chosen@.len(),
        is_scorer(*score, slots@),
    ensures
        is_loadout(r.0@, slots@),
        forall|f: spec_fn(Seq<usize>) -> i64|
            #[trigger] scores_by(*score, f) ==> {
                let end = summit(f, slots@, at_the_foot(order@, chosen@, f(chosen@) as int));
                r.0@ == end.chosen && r.1 == end.score
            },
{
    let first: i64 = (*score)(&chosen);
    let ghost start = at_the_foot(order@, chosen@, first as int);
    let mut a: Ascent = start_ascent(order, chosen, first);
    while !a.done
        invariant
            slots_wf(slots@),
            is_scorer(*score, slots@),
            a@.wf(),
            is_loadout(a@.chosen, slots@),
            forall|f: spec_fn(Seq<usize>) -> i64|
                #[trigger] scores_by(*score, f) ==> summit(f, slots@, a@) == summit(
                    f,
                    slots@,
                    start,
                ),
        decreases steps_left(a@),
    {
        let slot: usize = a.slot();
        let mut trial: Vec<usize> = a.chosen.clone();
        let mut tried: Vec<i64> = Vec::new();
        let mut c: usize = 0;
        while c < slots[slot as usize].candidates.len()
            invariant
                slot < slots@.len(),
                c <= slots@[slot as int].candidates@.len(),
                is_scorer(*score, slots@),
                a@.wf(),
                is_loadout(a@.chosen, slots@),
                trial@.len() == a@.chosen.len(),
                forall|i: int|
                    0 <= i < trial@.len() && i != slot ==> trial@[i] == #[trigger] a@.chosen[i],
                tried@.len() == c,
                forall|f: spec_fn(Seq<usize>) -> i64|
                    #[trigger] scores_by(*score, f) ==> tried@ == trial_scores(
                        f,
                        a@.chosen,
                        slot as int,
                        c as int,
                    ),
            decreases slots@[slot as int].candidates@.len() - c,
        {
            let ghost had = tried@;
            trial.set(slot, c);
            assert(trial@ =~= a@.chosen.update(slot as int, c));
            assert(is_loadout(trial@, slots@));
            let s: i64 = (*score)(&trial);
            tried.push(s);
            assert forall|f: spec_fn(Seq<usize>) -> i64| #[trigger]
                scores_by(*score, f) implies tried@ == trial_scores(
                f,
                a@.chosen,
                slot as int,
                c + 1,
            ) by {
                assert(s == f(trial@));
                assert(tried@ =~= trial_scores(f, a@.chosen, slot as int, c + 1));
            }
            c += 1;
        }
        let ghost before = a@;
        proof {
            law_climbing_never_descends(before, tried@);
            law_climbing_ends(before, tried@);
        }
        a.step(&tried);
        assert forall|f: spec_fn(Seq<usize>) -> i64| #[trigger]
            scores_by(*score, f) implies summit(f, slots@, a@) == summit(f, slots@, start) by {
            assert(a@ == one_step(f, slots@, before));
        }
        assert(is_loadout(a@.chosen, slots@)) by {
            assert forall|i: int| 0 <= i < a@.chosen.len() implies (#[trigger] a@.chosen[i])
                < slots@[i].candidates@.len() by {
                if i != slot {
                    assert(a@.chosen[i] == before.chosen[i]);
                }
            }
        }
    }
    assert forall|f: spec_fn(Seq<usize>) -> i64| #[trigger] scores_by(*score, f) implies ({
        let end = summit(f, slots@, start);
        a@.chosen == end.chosen && a.score == end.score && first == f(start.chosen)
    }) by {
        assert(summit(f, slots@, a@) == a@);
    }
    (a.chosen, a.score)
}

/// Climbs from one of the starting loadouts.
pub fn climb_from<F: Fn(&Vec<usize>) -> i64>(slots: &[SlotCandidates], seed: u64, score: &F) -> (r:
    (Vec<usize>, i64))
    requires
        slots_wf(slots@),
        seed < BRUTE_FORCE_RESTARTS,
        is_scorer(*score, slots@),
    ensures
        is_loadout(r.0@, slots@),
        forall|f: spec_fn(Seq<usize>) -> i64|
            #[trigger] scores_by(*score, f) ==> {
                let (order, chosen) = starting_point(slots@, seed);
                let end = summit(f, slots@, at_the_foot(order, chosen, f(chosen) as int));
                r.0@ == end.chosen && r.1 == end.score
            },
{
    let (order, chosen) = restart(slots, seed);
    coordinate_ascent_pass(slots, chosen, order, score)
}

/// Any two loadouts can be held against each other.
pub open spec fn is_rater<G: Fn(&Vec<usize>, &Vec<usize>) -> i64>(
    rate: G,
    slots: Seq<SlotCandidates>,
) -> bool {
    forall|a: &Vec<usize>, b: &Vec<usize>|
        is_loadout(a@, slots) && is_loadout(b@, slots) ==> #[trigger] call_requires(rate, (a, b))
}

/// Holding a loadout against another gives what `g` says.
pub open spec fn rates_by<G: Fn(&Vec<usize>, &Vec<usize>) -> i64>(
    rate: G,
    g: spec_fn(Seq<usize>, Seq<usize>) -> i64,
) -> bool {
    forall|a: &Vec<usize>, b: &Vec<usize>, r: i64| #[trigger]
        call_ensures(rate, (a, b), r) ==> r == g(a@, b@)
}

/// The ratings of the first `n` candidates of a slot, each in the loadout, against the loadout with
/// that slot empty.
pub open spec fn slot_ratings(
    g: spec_fn(Seq<usize>, Seq<usize>) -> i64,
    chosen: Seq<usize>,
    slot: int,
    n: int,
) -> Seq<i64> {
    Seq::new(n as nat, |c: int| g(chosen.update(slot, c as usize), chosen.update(slot, 0)))
}

/// Ranks every candidate of a slot for its part in a loadout, best first: each is tried with all
/// other slots as the loadout has them and held against the empty slot. So an item further down the
/// list is still a sound choice where those above it cannot be had.
pub fn rank_touched_slot<G: Fn(&Vec<usize>, &Vec<usize>) -> i64>(
    slots: &[SlotCandidates],
    chosen: &Vec<usize>,
    slot: usize,
    rate: &G,
) -> (r: Vec<RankedItem>)
    requires
        slots_wf(slots@),
        is_loadout(chosen@, slots@),
        slot < slots@.len(),
        is_rater(*rate, slots@),
    ensures
        forall|g: spec_fn(Seq<usize>, Seq<usize>) -> i64|
            #[trigger] rates_by(*rate, g) ==> ranked_views(r@) == candidate_ranking(
                slots@[slot as int].candidates@,
                slot_ratings(
                    g,
                    chosen@,
                    slot as int,
                    slots@[slot as int].candidates@.len() as int,
                ),
            ),
{
    let mut bare: Vec<usize> = chosen.clone();
    bare.set(slot, 0);
    assert(bare@ =~= chosen@.update(slot as int, 0));
    assert(slots@[slot as int].candidates@.len() >= 1);
    assert(is_loadout(bare@, slots@));
    let mut trial: Vec<usize> = chosen.clone();
    let mut ratings: Vec<i64> = Vec::new();
    let mut c: usize = 0;
    while c < slots[slot].candidates.len()
        invariant
            slot < slots@.len(),
            c <= slots@[slot as int].candidates@.len(),
            is_loadout(chosen@, slots@),
            is_loadout(bare@, slots@),
            bare@ == chosen@.update(slot as int, 0),
            is_rater(*rate, slots@),
            trial@.len() == chosen@.len(),
            forall|i: int|
                0 <= i < trial@.len() && i != slot ==> trial@[i] == #[trigger] chosen@[i],
            ratings@.len() == c,
            forall|g: spec_fn(Seq<usize>, Seq<usize>) -> i64|
                #[trigger] rates_by(*rate, g) ==> ratings@ == slot_ratings(
                    g,
                    chosen@,
                    slot as int,
                    c as int,
                ),
        decreases slots@[slot as int].candidates@.len() - c,
    {
        trial.set(slot, c);
        assert(trial@ =~= chosen@.update(slot as int, c));
        assert(is_loadout(trial@, slots@));
        let rating: i64 = (*rate)(&trial, &bare);
        ratings.push(rating);
        assert forall|g: spec_fn(Seq<usize>, Seq<usize>) -> i64| #[trigger]
            rates_by(*rate, g) implies ratings@ == slot_ratings(
            g,
            chosen@,
            slot as int,
            c + 1,
        ) by {
            assert(rating == g(trial@, bare@));
            assert(ratings@ =~= slot_ratings(g, chosen@, slot as int, c + 1));
        }
        c += 1;
    }
    rank_candidates(&slots[slot].candidates, &ratings)
}

/// Rankings in which the first `n` searched slots have the ranking of the search.
pub open spec fn rerated(
    ratings: Seq<(Seq<char>, Seq<char>, Seq<(Seq<char>, i64)>)>,
    slots: Seq<SlotCandidates>,
    chosen: Seq<usize>,
    g: spec_fn(Seq<usize>, Seq<usize>) -> i64,
    n: int,
) -> Seq<(Seq<char>, Seq<char>, Seq<(Seq<char>, i64)>)>
    decreases n,
{
    if n <= 0 {
        ratings
    } else {
        let before = rerated(ratings, slots, chosen, g, n - 1);
        match view_place(before, slots[n - 1].slot@, 0) {
            Some(i) => before.update(
                i,
                (
                    before[i].0,
                    before[i].1,
                    candidate_ranking(
                        slots[n - 1].candidates@,
                        slot_ratings(g, chosen, n - 1, slots[n - 1].candidates@.len() as int),
                    ),
                ),
            ),
            None => before,
        }
    }
}

/// The place of a slot in a list of rankings, from place `from` on.
pub open spec fn view_place(
    ratings: Seq<(Seq<char>, Seq<char>, Seq<(Seq<char>, i64)>)>,
    slot: Seq<char>,
    from: int,
) -> Option<int>
    decreases ratings.len() - from,
{
    if from < 0 || from >= ratings.len() {
        None
    } else if ratings[from].0 == slot {
        Some(from)
    } else {
        view_place(ratings, slot, from + 1)
    }
}

proof fn lemma_view_place(ratings: Seq<SlotRating>, slot: Seq<char>, from: int)
    ensures
        view_place(rating_views(ratings), slot, from) == rating_place(ratings, slot, from),
        rating_place(ratings, slot, from) matches Some(i) ==> from <= i < ratings.len()
            && ratings[i].slot@ == slot,
    decreases ratings.len() - from,
{
    if 0 <= from < ratings.len() && ratings[from].slot@ != slot {
        lemma_view_place(ratings, slot, from + 1);
    }
}

/// Gives every searched slot the ranking that the loadout found by the search implies; the other
/// slots keep theirs.
pub fn joint_ratings<G: Fn(&Vec<usize>, &Vec<usize>) -> i64>(
    ratings: Vec<SlotRating>,
    slots: &[SlotCandidates],
    chosen: &Vec<usize>,
    rate: &G,
) -> (r: Vec<SlotRating>)
    requires
        slots_wf(slots@),
        is_loadout(chosen@, slots@),
        is_rater(*rate, slots@),
    ensures
        r@.len() == ratings@.len(),
        forall|g: spec_fn(Seq<usize>, Seq<usize>) -> i64|
            #[trigger] rates_by(*rate, g) ==> rating_views(r@) == rerated(
                rating_views(ratings@),
                slots@,
                chosen@,
                g,
                slots@.len() as int,
            ),
{
    let ghost start = rating_views(ratings@);
    let mut out: Vec<SlotRating> = ratings;
    let mut i: usize = 0;
    while i < slots.len()
        invariant
            i <= slots@.len(),
            slots_wf(slots@),
            is_loadout(chosen@, slots@),
            is_rater(*rate, slots@),
            out@.len() == start.len(),
            forall|g: spec_fn(Seq<usize>, Seq<usize>) -> i64|
                #[trigger] rates_by(*rate, g) ==> rating_views(out@) == rerated(
                    start,
                    slots@,
                    chosen@,
                    g,
                    i as int,
                ),
        decreases slots@.len() - i,
    {
        let ghost before = out@;
        let ranking: Vec<RankedItem> = rank_touched_slot(slots, chosen, i, rate);
        let ghost views = ranked_views(ranking@);
        replace_ranking(&mut out, slots[i].slot, ranking);
        proof {
            lemma_view_place(before, slots@[i as int].slot@, 0);
            if rating_place(before, slots@[i as int].slot@, 0) is Some {
                assert(rating_views(out@).len() == out@.len());
            }
        }
        i += 1;
    }
    out
}

/// A climb knows how its loadout scores, and that no other candidate scores better in a slot that
/// it has passed without a change.
pub open spec fn is_sound(
    f: spec_fn(Seq<usize>) -> i64,
    slots: Seq<SlotCandidates>,
    a: AscentView,
) -> bool {
    &&& a.wf()
    &&& is_loadout(a.chosen, slots)
    &&& a.score == f(a.chosen)
    &&& !a.changed ==> forall|k: int|
        0 <= k < passed(a) ==> is_best_in(f, slots, a.chosen, #[trigger] a.order[k] as int)
}

/// How many slots a climb has passed in this pass.
pub open spec fn passed(a: AscentView) -> int {
    if a.done {
        a.order.len() as int
    } else {
        a.at
    }
}

/// No candidate of a slot would score better than the loadout does.
pub open spec fn is_best_in(
    f: spec_fn(Seq<usize>) -> i64,
    slots: Seq<SlotCandidates>,
    chosen: Seq<usize>,
    slot: int,
) -> bool {
    forall|c: int|
        0 <= c < slots[slot].candidates@.len() ==> #[trigger] f(chosen.update(slot, c as usize))
            <= f(chosen)
}

proof fn lemma_step_is_sound(
    f: spec_fn(Seq<usize>) -> i64,
    slots: Seq<SlotCandidates>,
    a: AscentView,
)
    requires
        slots_wf(slots),
        is_sound(f, slots, a),
        !a.done,
    ensures
        is_sound(f, slots, one_step(f, slots, a)),
        one_step(f, slots, a).score >= a.score,
        steps_left(one_step(f, slots, a)) < steps_left(a),
{
    let slot = a.order[a.at] as int;
    let scores = trial_scores(f, a.chosen, slot, slots[slot].candidates@.len() as int);
    let b = one_step(f, slots, a);
    law_climbing_never_descends(a, scores);
    law_climbing_ends(a, scores);
    assert(a.chosen.update(slot, a.chosen[slot]) =~= a.chosen);
    lemma_best_of_all(scores, a.chosen[slot] as int, a.score, scores.len() as int);
    let now = b.chosen[slot];
    assert(b.chosen =~= a.chosen.update(slot, now));
    assert(is_loadout(b.chosen, slots)) by {
        assert forall|i: int| 0 <= i < b.chosen.len() implies (#[trigger] b.chosen[i])
            < slots[i].candidates@.len() by {
            if i != slot {
                assert(b.chosen[i] == a.chosen[i]);
            }
        }
    }
    if now == a.chosen[slot] {
        assert(b.chosen =~= a.chosen);
    } else {
        assert(scores[now as int] == f(b.chosen));
    }
    if !b.changed && !(b.at == 0 && !b.done) {
        assert(now == a.chosen[slot]);
        assert(!a.changed);
        assert forall|k: int| 0 <= k < passed(b) implies is_best_in(
            f,
            slots,
            b.chosen,
            #[trigger] b.order[k] as int,
        ) by {
            if k < a.at {
                assert(is_best_in(f, slots, a.chosen, a.order[k] as int));
            } else {
                assert(k == a.at);
                assert forall|c: int| 0 <= c < slots[slot].candidates@.len() implies #[trigger] f(
                    b.chosen.update(slot, c as usize),
                ) <= f(b.chosen) by {
                    assert(scores[c] == f(a.chosen.update(slot, c as usize)));
                }
            }
        }
    }
}

proof fn lemma_best_of_all(scores: Seq<i64>, chosen: int, score: int, n: int)
    requires
        0 <= n <= scores.len(),
        0 <= chosen < scores.len(),
        scores[chosen] == score,
    ensures
        forall|c: int| 0 <= c < n ==> #[trigger] scores[c] <= best_candidate(scores, chosen, score, n).1,
        best_candidate(scores, chosen, score, n).1 >= score,
    decreases n,
{
    if n > 0 {
        lemma_best_of_all(scores, chosen, score, n - 1);
    }
}

/// Where a climb ends it has not come down, it knows how its loadout scores, and, unless it ran out
/// of passes, no change of a single slot would score better.
pub proof fn law_summit_cannot_be_improved(
    f: spec_fn(Seq<usize>) -> i64,
    slots: Seq<SlotCandidates>,
    order: Seq<usize>,
    chosen: Seq<usize>,
)
    requires
        slots_wf(slots),
        is_loadout(chosen, slots),
        is_permutation(order),
        order.len() == chosen.len(),
    ensures
        ({
            let end = summit(f, slots, at_the_foot(order, chosen, f(chosen) as int));
            &&& end.done
            &&& is_loadout(end.chosen, slots)
            &&& end.score == f(end.chosen)
            &&& end.score >= f(chosen)
            &&& !end.changed ==> forall|slot: int|
                0 <= slot < slots.len() ==> #[trigger] is_best_in(f, slots, end.chosen, slot)
        }),
{
    let a = at_the_foot(order, chosen, f(chosen) as int);
    lemma_summit(f, slots, a);
    let end = summit(f, slots, a);
    if !end.changed {
        assert forall|slot: int| 0 <= slot < slots.len() implies #[trigger] is_best_in(
            f,
            slots,
            end.chosen,
            slot,
        ) by {
            lemma_visits_all(end.order, slot);
            let k = choose|k: int| 0 <= k < end.order.len() && #[trigger] end.order[k] == slot;
            assert(is_best_in(f, slots, end.chosen, end.order[k] as int));
        }
    }
}

proof fn lemma_summit(f: spec_fn(Seq<usize>) -> i64, slots: Seq<SlotCandidates>, a: AscentView)
    requires
        slots_wf(slots),
        is_sound(f, slots, a),
    ensures
        summit(f, slots, a).done,
        is_sound(f, slots, summit(f, slots, a)),
        summit(f, slots, a).score >= a.score,
    decreases steps_left(a),
{
    if !a.done {
        lemma_step_is_sound(f, slots, a);
        law_climbing_ends(
            a,
            trial_scores(
                f,
                a.chosen,
                a.order[a.at] as int,
                slots[a.order[a.at] as int].candidates@.len() as int,
            ),
        );
        lemma_summit(f, slots, one_step(f, slots, a));
    }
}

proof fn lemma_visits_all(order: Seq<usize>, slot: int)
    requires
        is_permutation(order),
        0 <= slot < order.len(),
    ensures
        exists|k: int| 0 <= k < order.len() && #[trigger] order[k] == slot,
{
    let n = order.len() as int;
    let ints = Seq::new(order.len(), |k: int| order[k] as int);
    assert(ints.no_duplicates());
    ints.unique_seq_to_set();
    lemma_int_range(0, n);
    assert(ints.to_set().subset_of(set_int_range(0, n)));
    lemma_subset_equality(ints.to_set(), set_int_range(0, n));
    assert(ints.to_set().contains(slot));
    let k = choose|k: int| 0 <= k < ints.len() && ints[k] == slot;
    assert(order[k] == slot);
}

proof fn lemma_shuffled(order: Seq<usize>, state: u64, i: int)
    requires
        is_permutation(order),
        i < order.len(),
    ensures
        is_permutation(shuffled(order, state, i).0),
        shuffled(order, state, i).0.len() == order.len(),
    decreases i,
{
    if i > 0 {
        let next = next_random(state);
        let j = next as int % (i + 1);
        let swapped = order.update(i, order[j]).update(j, order[i]);
        assert forall|p: int, q: int|
            0 <= p < swapped.len() && 0 <= q < swapped.len() && p != q implies swapped[p]
            != swapped[q] by {
            let p2 = if p == i { j } else if p == j { i } else { p };
            let q2 = if q == i { j } else if q == j { i } else { q };
            assert(swapped[p] == order[p2]);
            assert(swapped[q] == order[q2]);
        }
        lemma_shuffled(swapped, next, i - 1);
    }
}

proof fn lemma_starting_point(slots: Seq<SlotCandidates>)
    requires
        slots_wf(slots),
    ensures
        is_permutation(starting_point(slots, 0).0),
        starting_point(slots, 0).0.len() == slots.len(),
        is_loadout(starting_point(slots, 0).1, slots),
{
    let first = in_order(slots.len());
    assert(is_permutation(first));
    lemma_shuffled(first, seed_state(0), slots.len() - 1);
}

/// The search never does worse than what the character wears: the first climb starts there and does
/// not come down, and the best result of all is kept. `scores` lists the results, `best` is the
/// place of one that no other exceeds.
pub proof fn law_search_never_does_worse(
    f: spec_fn(Seq<usize>) -> i64,
    slots: Seq<SlotCandidates>,
    scores: Seq<i64>,
    best: int,
)
    requires
        slots_wf(slots),
        0 <= best < scores.len(),
        forall|i: int| 0 <= i < scores.len() ==> #[trigger] scores[i] <= scores[best],
        ({
            let (order, chosen) = starting_point(slots, 0);
            scores[0] == summit(f, slots, at_the_foot(order, chosen, f(chosen) as int)).score
        }),
    ensures
        scores[best] >= f(worn_loadout(slots)),
{
    lemma_starting_point(slots);
    let (order, chosen) = starting_point(slots, 0);
    law_summit_cannot_be_improved(f, slots, order, chosen);
    assert(scores[0] <= scores[best]);
}

} // verus!
