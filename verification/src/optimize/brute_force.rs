//! The joint search for a loadout. Rating each slot on its own misses gear that only pays off in
//! combination, and trying every combination is out of reach, so the search climbs: from many
//! starting loadouts it improves one slot after the other until a whole pass changes nothing, and
//! keeps the best result. One start is always what the character wears, so the result is never
//! worse than that.
//!
//! A loadout is a list with one entry per slot, the place of the chosen candidate among the slot's
//! candidates; place 0 is the empty slot.

use vstd::prelude::*;

use super::eligibility::{adjust_combat_stats, is_adjusted, is_eligible, meets_conditions};
use super::slot_rating::{
    current_item, slot_definitions, slots_of, worn_item, RankedItem, SlotRating,
};
use crate::api::GameData;
use crate::ranking::{
    by_key, is_ranking, law_ranking, lemma_keys_are_ordered, places, rank_by_key, ranked,
};
use crate::text::same;
use crate::types::{copy_character, find_item, item_named, same_character, Character, Item};

verus! {

/// How many starting loadouts a search climbs from.
pub const BRUTE_FORCE_RESTARTS: u64 = 1024;

/// How many passes over the slots one climb makes at most.
pub const BRUTE_FORCE_MAX_PASSES: usize = 25;

/// A slot to search and what could go into it.
#[derive(Debug)]
pub struct SlotCandidates {
    pub slot: &'static str,
    pub current_code: Option<String>,
    /// Nothing, then what is worn now, then every item of the slot's category that the character
    /// may wear.
    pub candidates: Vec<Option<String>>,
}

/// The characters of an optional code.
pub open spec fn opt_code(c: Option<String>) -> Option<Seq<char>> {
    match c {
        Some(s) => Some(s@),
        None => None,
    }
}

/// Candidates, as mathematical values.
pub open spec fn code_options(candidates: Seq<Option<String>>) -> Seq<Option<Seq<char>>> {
    candidates.map_values(|c: Option<String>| opt_code(c))
}

/// The candidates for a slot among the first `n` items.
pub open spec fn pool(
    items: Seq<Item>,
    who: Character,
    category: Seq<char>,
    current: Seq<char>,
    n: int,
) -> Seq<Option<Seq<char>>>
    decreases n,
{
    if n <= 0 {
        if current.len() == 0 {
            seq![None]
        } else {
            seq![None, Some(current)]
        }
    } else {
        let before = pool(items, who, category, current, n - 1);
        let item = items[n - 1];
        if item.item_type@ == category && is_eligible(who, item) && !before.contains(
            Some(item.code@),
        ) {
            before.push(Some(item.code@))
        } else {
            before
        }
    }
}

fn lists(candidates: &[Option<String>], code: &str) -> (r: bool)
    ensures
        r == code_options(candidates@).contains(Some(code@)),
{
    let ghost views = code_options(candidates@);
    let mut i: usize = 0;
    while i < candidates.len()
        invariant
            i <= candidates@.len(),
            views == code_options(candidates@),
            forall|j: int| 0 <= j < i ==> #[trigger] views[j] != Some(code@),
        decreases candidates@.len() - i,
    {
        assert(views[i as int] == opt_code(candidates@[i as int]));
        if let Some(c) = &candidates[i] {
            if same(c, code) {
                return true;
            }
        }
        i += 1;
    }
    false
}

/// What could go into a slot: nothing, what is worn there now, and every item of the category
/// whose conditions the character meets.
pub fn combat_candidate_pool(
    data: &GameData,
    character: &Character,
    category: &str,
    current_code: &str,
) -> (r: Vec<Option<String>>)
    ensures
        code_options(r@) == pool(
            data.items@,
            *character,
            category@,
            current_code@,
            data.items@.len() as int,
        ),
{
    let mut codes: Vec<Option<String>> = Vec::new();
    codes.push(None);
    if !current_code.is_empty() {
        codes.push(Some(current_code.to_owned()));
    }
    assert(code_options(codes@) =~= pool(data.items@, *character, category@, current_code@, 0));
    let mut i: usize = 0;
    while i < data.items.len()
        invariant
            i <= data.items@.len(),
            code_options(codes@) == pool(
                data.items@,
                *character,
                category@,
                current_code@,
                i as int,
            ),
        decreases data.items@.len() - i,
    {
        let item: &Item = &data.items[i];
        if same(&item.item_type, category) && meets_conditions(character, item) && !lists(
            &codes,
            &item.code,
        ) {
            let ghost had = codes@;
            codes.push(Some(item.code.clone()));
            assert(code_options(codes@) =~= code_options(had).push(Some(item.code@)));
        }
        i += 1;
    }
    codes
}

/// A pool lists no candidate twice, starts with the empty slot, and holds what is worn.
pub proof fn law_pool_holds_what_is_worn(
    items: Seq<Item>,
    who: Character,
    category: Seq<char>,
    current: Seq<char>,
    n: int,
)
    requires
        0 <= n <= items.len(),
    ensures
        pool(items, who, category, current, n).no_duplicates(),
        pool(items, who, category, current, n).len() >= 1,
        pool(items, who, category, current, n)[0] is None,
        current.len() > 0 ==> pool(items, who, category, current, n).len() >= 2 && pool(
            items,
            who,
            category,
            current,
            n,
        )[1] == Some(current),
    decreases n,
{
    if n > 0 {
        law_pool_holds_what_is_worn(items, who, category, current, n - 1);
    }
}

/// One step of the generator: three shifts, each folded back by exclusive or.
pub open spec fn next_random(state: u64) -> u64 {
    let a = state ^ (state << 13u64);
    let b = a ^ (a >> 7u64);
    b ^ (b << 17u64)
}

/// A cheap deterministic generator: starts only have to differ from each other.
pub fn xorshift_next(state: &mut u64) -> (r: u64)
    ensures
        r == next_random(*old(state)),
        *final(state) == r,
{
    *state = *state ^ (*state << 13u64);
    *state = *state ^ (*state >> 7u64);
    *state = *state ^ (*state << 17u64);
    *state
}

/// An order shuffled from place `i` down, and the generator's state after that.
pub open spec fn shuffled(order: Seq<usize>, state: u64, i: int) -> (Seq<usize>, u64)
    decreases i,
{
    if i <= 0 {
        (order, state)
    } else {
        let next = next_random(state);
        let j = next as int % (i + 1);
        shuffled(order.update(i, order[j]).update(j, order[i]), next, i - 1)
    }
}

/// The places 0 to `len` in order.
pub open spec fn in_order(len: nat) -> Seq<usize> {
    Seq::new(len, |i: int| i as usize)
}

/// `order` lists each place from 0 to its length once.
pub open spec fn is_permutation(order: Seq<usize>) -> bool {
    &&& order.no_duplicates()
    &&& forall|i: int| 0 <= i < order.len() ==> (#[trigger] order[i]) < order.len()
}

/// The places 0 to `len`, shuffled.
pub fn shuffled_order(len: usize, rng_state: &mut u64) -> (order: Vec<usize>)
    requires
        len < 0xffff_ffff,
    ensures
        order@.len() == len,
        order@ == shuffled(in_order(len as nat), *old(rng_state), len - 1).0,
        *final(rng_state) == shuffled(in_order(len as nat), *old(rng_state), len - 1).1,
        is_permutation(order@),
{
    let mut order: Vec<usize> = Vec::new();
    let mut k: usize = 0;
    while k < len
        invariant
            k <= len,
            order@ == in_order(k as nat),
        decreases len - k,
    {
        order.push(k);
        k += 1;
        assert(order@ =~= in_order(k as nat));
    }
    if len == 0 {
        return order;
    }
    let ghost target = shuffled(in_order(len as nat), *rng_state, len - 1);
    let mut i: usize = len - 1;
    while i > 0
        invariant
            i < len,
            len < 0xffff_ffff,
            order@.len() == len,
            is_permutation(order@),
            target == shuffled(order@, *rng_state, i as int),
        decreases i,
    {
        let r: u64 = xorshift_next(rng_state);
        let j: usize = (r % (i as u64 + 1)) as usize;
        let ghost before = order@;
        let a: usize = order[i];
        let b: usize = order[j];
        order.set(i, b);
        order.set(j, a);
        proof {
            assert(order@ == before.update(i as int, before[j as int]).update(j as int, before[i as int]));
            assert forall|p: int, q: int| 0 <= p < order@.len() && 0 <= q < order@.len() && p != q implies order@[p] != order@[q] by {
                let p2 = if p == i { j as int } else if p == j { i as int } else { p };
                let q2 = if q == i { j as int } else if q == j { i as int } else { q };
                assert(order@[p] == before[p2]);
                assert(order@[q] == before[q2]);
            }
        }
        i -= 1;
    }
    order
}

/// The first candidate of each slot whose code is what is worn there, which is what a climb from
/// the current loadout starts with: the empty slot, or the place behind it.
pub open spec fn worn_choice(slot: SlotCandidates) -> usize {
    if slot.current_code is Some {
        1
    } else {
        0
    }
}

/// The generator's state for a start.
pub open spec fn seed_state(seed: u64) -> u64 {
    vstd::wrapping::u64_specs::wrapping_mul(0x9E3779B97F4A7C15u64, (seed + 1) as u64)
}

/// Random choices for the first `n` slots, and the generator's state after that.
pub open spec fn random_choices(slots: Seq<SlotCandidates>, state: u64, n: int) -> (Seq<usize>, u64)
    decreases n,
{
    if n <= 0 {
        (Seq::empty(), state)
    } else {
        let (before, s) = random_choices(slots, state, n - 1);
        let next = next_random(s);
        (before.push((next as int % slots[n - 1].candidates@.len() as int) as usize), next)
    }
}

/// What the character wears, as a loadout.
pub open spec fn worn_loadout(slots: Seq<SlotCandidates>) -> Seq<usize> {
    slots.map_values(|s: SlotCandidates| worn_choice(s))
}

/// The slots to search are well formed: each has candidates, and what is worn is behind the empty
/// slot.
pub open spec fn slots_wf(slots: Seq<SlotCandidates>) -> bool {
    &&& slots.len() < 0xffff_ffff
    &&& forall|i: int|
        0 <= i < slots.len() ==> {
            &&& 1 <= (#[trigger] slots[i]).candidates@.len() < 0xffff_ffff
            &&& slots[i].candidates@[0] is None
            &&& slots[i].current_code is Some ==> slots[i].candidates@.len() >= 2 && opt_code(
                slots[i].candidates@[1],
            ) == opt_code(slots[i].current_code)
        }
}

/// A loadout chooses one candidate for each slot.
pub open spec fn is_loadout(chosen: Seq<usize>, slots: Seq<SlotCandidates>) -> bool {
    &&& chosen.len() == slots.len()
    &&& forall|i: int|
        0 <= i < chosen.len() ==> (#[trigger] chosen[i]) < slots[i].candidates@.len()
}

/// The order in which a climb visits the slots, and the loadout it starts from. The first climb
/// starts from what the character wears, every other one from random choices.
pub open spec fn starting_point(slots: Seq<SlotCandidates>, seed: u64) -> (Seq<usize>, Seq<usize>) {
    let (order, state) = shuffled(in_order(slots.len()), seed_state(seed), slots.len() - 1);
    (
        order,
        if seed == 0 {
            worn_loadout(slots)
        } else {
            random_choices(slots, state, slots.len() as int).0
        },
    )
}

/// The order in which a climb visits the slots, and the loadout it starts from.
pub fn restart(slots: &[SlotCandidates], seed: u64) -> (r: (Vec<usize>, Vec<usize>))
    requires
        slots_wf(slots@),
        seed < BRUTE_FORCE_RESTARTS,
    ensures
        is_permutation(r.0@),
        r.0@.len() == slots@.len(),
        is_loadout(r.1@, slots@),
        (r.0@, r.1@) == starting_point(slots@, seed),
{
    let mut rng_state: u64 = 0x9E3779B97F4A7C15u64.wrapping_mul(seed + 1);
    let order: Vec<usize> = shuffled_order(slots.len(), &mut rng_state);
    let mut chosen: Vec<usize> = Vec::new();
    let ghost state = rng_state;
    let mut i: usize = 0;
    while i < slots.len()
        invariant
            i <= slots@.len(),
            slots_wf(slots@),
            chosen@.len() == i,
            forall|j: int|
                0 <= j < i ==> (#[trigger] chosen@[j]) < slots@[j].candidates@.len(),
            seed == 0 ==> chosen@ == worn_loadout(slots@).take(i as int),
            seed != 0 ==> random_choices(slots@, state, i as int) == (chosen@, rng_state),
        decreases slots@.len() - i,
    {
        assert(1 <= slots@[i as int].candidates@.len());
        if seed == 0 {
            let choice: usize = if slots[i].current_code.is_some() {
                1
            } else {
                0
            };
            chosen.push(choice);
            assert(worn_loadout(slots@).take(i + 1) =~= worn_loadout(slots@).take(i as int).push(
                worn_loadout(slots@)[i as int],
            ));
        } else {
            let r: u64 = xorshift_next(&mut rng_state);
            let n: u64 = slots[i].candidates.len() as u64;
            chosen.push((r % n) as usize);
        }
        i += 1;
    }
    assert(worn_loadout(slots@).take(slots@.len() as int) =~= worn_loadout(slots@));
    (order, chosen)
}

/// One climb: the loadout so far and how it scores, the order of the slots, the place in that
/// order, the pass, and whether this pass has changed anything.
#[derive(Debug)]
pub struct Ascent {
    pub chosen: Vec<usize>,
    pub score: i64,
    pub order: Vec<usize>,
    pub at: usize,
    pub pass: usize,
    pub changed: bool,
    pub done: bool,
}

/// A climb, as a mathematical value.
#[verifier::ext_equal]
pub struct AscentView {
    pub chosen: Seq<usize>,
    pub score: int,
    pub order: Seq<usize>,
    pub at: int,
    pub pass: int,
    pub changed: bool,
    pub done: bool,
}

impl View for Ascent {
    type V = AscentView;

    open spec fn view(&self) -> AscentView {
        AscentView {
            chosen: self.chosen@,
            score: self.score as int,
            order: self.order@,
            at: self.at as int,
            pass: self.pass as int,
            changed: self.changed,
            done: self.done,
        }
    }
}

impl AscentView {
    /// The order lists the slots of the loadout, and the climb stands at one of them.
    pub open spec fn wf(self) -> bool {
        &&& self.order.len() == self.chosen.len()
        &&& is_permutation(self.order)
        &&& 0 <= self.pass < BRUTE_FORCE_MAX_PASSES
        &&& !self.done ==> 0 <= self.at < self.order.len()
    }
}

/// The best of the first `n` candidates for a slot and its score, given what is chosen there and
/// how that scores. Only a better score replaces it, save that any candidate which ties replaces
/// the empty slot: gear never hurts.
pub open spec fn best_candidate(scores: Seq<i64>, chosen: int, score: int, n: int) -> (int, int)
    decreases n,
{
    if n <= 0 {
        (chosen, score)
    } else {
        let best = best_candidate(scores, chosen, score, n - 1);
        let c = n - 1;
        let s = scores[c] as int;
        if c != chosen && (s > best.1 || (s == best.1 && c != 0 && best.0 == 0)) {
            (c, s)
        } else {
            best
        }
    }
}

/// The climb after the slot it stands at has been given its best candidate.
pub open spec fn climbed(a: AscentView, scores: Seq<i64>) -> AscentView {
    let slot = a.order[a.at] as int;
    let best = best_candidate(scores, a.chosen[slot] as int, a.score, scores.len() as int);
    let changed = a.changed || best.0 != a.chosen[slot];
    let moved = AscentView {
        chosen: a.chosen.update(slot, best.0 as usize),
        score: best.1,
        changed,
        ..a
    };
    if a.at + 1 < a.order.len() {
        AscentView { at: a.at + 1, ..moved }
    } else if changed && a.pass + 1 < BRUTE_FORCE_MAX_PASSES {
        AscentView { at: 0, pass: a.pass + 1, changed: false, ..moved }
    } else {
        AscentView { at: 0, done: true, ..moved }
    }
}

/// Starts a climb from a loadout that scores `score`.
pub fn start_ascent(order: Vec<usize>, chosen: Vec<usize>, score: i64) -> (a: Ascent)
    requires
        is_permutation(order@),
        order@.len() == chosen@.len(),
    ensures
        a@.wf(),
        a@ == (AscentView {
            chosen: chosen@,
            score: score as int,
            order: order@,
            at: 0,
            pass: 0,
            changed: false,
            done: order@.len() == 0,
        }),
{
    let done: bool = order.len() == 0;
    Ascent { chosen, score, order, at: 0, pass: 0, changed: false, done }
}

proof fn lemma_best_candidate(scores: Seq<i64>, chosen: int, score: int, n: int)
    requires
        0 <= n <= scores.len(),
        0 <= chosen < scores.len(),
    ensures
        0 <= best_candidate(scores, chosen, score, n).0 < scores.len(),
        best_candidate(scores, chosen, score, n).1 >= score,
        best_candidate(scores, chosen, score, n).0 == chosen ==> best_candidate(
            scores,
            chosen,
            score,
            n,
        ).1 == score,
        best_candidate(scores, chosen, score, n).0 != chosen ==> best_candidate(
            scores,
            chosen,
            score,
            n,
        ).1 == scores[best_candidate(scores, chosen, score, n).0],
    decreases n,
{
    if n > 0 {
        lemma_best_candidate(scores, chosen, score, n - 1);
    }
}

impl Ascent {
    /// The slot that the climb wants scores for next.
    pub fn slot(&self) -> (r: usize)
        requires
            self@.wf(),
            !self.done,
        ensures
            r == self@.order[self@.at],
            r < self@.chosen.len(),
    {
        self.order[self.at]
    }

    /// Takes the scores of the loadouts with each candidate of that slot in turn, gives the slot
    /// its best candidate and goes on to the next slot. Done after a pass that changed nothing, or
    /// after the last pass.
    pub fn step(&mut self, scores: &[i64])
        requires
            old(self)@.wf(),
            !old(self).done,
            old(self)@.chosen[old(self)@.order[old(self)@.at] as int] < scores@.len(),
        ensures
            final(self)@.wf(),
            final(self)@ == climbed(old(self)@, scores@),
    {
        let slot: usize = self.order[self.at];
        let chosen: usize = self.chosen[slot];
        let mut best: usize = chosen;
        let mut score: i64 = self.score;
        let mut c: usize = 0;
        while c < scores.len()
            invariant
                c <= scores@.len(),
                chosen < scores@.len(),
                *self == *old(self),
                (best as int, score as int) == best_candidate(
                    scores@,
                    chosen as int,
                    self.score as int,
                    c as int,
                ),
            decreases scores@.len() - c,
        {
            if c != chosen && (scores[c] > score || (scores[c] == score && c != 0 && best == 0)) {
                best = c;
                score = scores[c];
            }
            c += 1;
        }
        let ghost target = climbed(old(self)@, scores@);
        if best != chosen {
            self.changed = true;
        }
        self.chosen.set(slot, best);
        self.score = score;
        if self.order.len() - self.at > 1 {
            self.at = self.at + 1;
        } else if self.changed && self.pass + 1 < BRUTE_FORCE_MAX_PASSES {
            self.at = 0;
            self.pass = self.pass + 1;
            self.changed = false;
        } else {
            self.at = 0;
            self.done = true;
        }
        assert(self@ =~= target);
    }
}

/// A step never lowers the score, changes at most the slot it stands at, and takes exactly the
/// score of the candidate it changes to.
pub proof fn law_climbing_never_descends(a: AscentView, scores: Seq<i64>)
    requires
        a.wf(),
        !a.done,
        a.chosen[a.order[a.at] as int] < scores.len() <= usize::MAX,
    ensures
        climbed(a, scores).wf(),
        climbed(a, scores).score >= a.score,
        forall|i: int|
            0 <= i < a.chosen.len() && i != a.order[a.at] ==> #[trigger] climbed(a, scores).chosen[i]
                == a.chosen[i],
        ({
            let slot = a.order[a.at] as int;
            let now = climbed(a, scores).chosen[slot];
            &&& now < scores.len()
            &&& now == a.chosen[slot] ==> climbed(a, scores).score == a.score
            &&& now != a.chosen[slot] ==> climbed(a, scores).score == scores[now as int]
        }),
{
    lemma_best_candidate(
        scores,
        a.chosen[a.order[a.at] as int] as int,
        a.score,
        scores.len() as int,
    );
}

/// The climb comes to an end: every step brings it closer to the last slot of the last pass.
pub open spec fn steps_left(a: AscentView) -> int {
    if a.done {
        0
    } else {
        (BRUTE_FORCE_MAX_PASSES - a.pass) * a.order.len() - a.at
    }
}

/// Every step brings a climb closer to its end.
pub proof fn law_climbing_ends(a: AscentView, scores: Seq<i64>)
    requires
        a.wf(),
        !a.done,
    ensures
        0 <= steps_left(climbed(a, scores)) < steps_left(a),
{
    let n = a.order.len() as int;
    let p = BRUTE_FORCE_MAX_PASSES - a.pass;
    assert((p - 1) * n == p * n - n) by (nonlinear_arith);
    assert(p * n >= n) by (nonlinear_arith)
        requires
            p >= 1,
            n >= 0,
    ;
    if p >= 2 {
        assert((p - 1) * n >= n) by (nonlinear_arith)
            requires
                p >= 2,
                n >= 0,
        ;
    }
}

/// The best of several results: the last of those that score highest.
pub fn best_restart(scores: &[i64]) -> (r: usize)
    requires
        scores@.len() > 0,
    ensures
        r < scores@.len(),
        forall|i: int| 0 <= i < scores@.len() ==> #[trigger] scores@[i] <= scores@[r as int],
        forall|i: int| r < i < scores@.len() ==> #[trigger] scores@[i] < scores@[r as int],
{
    let mut best: usize = 0;
    let mut i: usize = 1;
    while i < scores.len()
        invariant
            1 <= i <= scores@.len(),
            best < i,
            forall|j: int| 0 <= j < i ==> #[trigger] scores@[j] <= scores@[best as int],
            forall|j: int| best < j < i ==> #[trigger] scores@[j] < scores@[best as int],
        decreases scores@.len() - i,
    {
        if scores[i] >= scores[best] {
            best = i;
        }
        i += 1;
    }
    best
}

/// Which candidates of a slot are worth ranking: those that are not worse than the empty slot.
pub open spec fn rankable(candidates: Seq<Option<String>>, ratings: Seq<i64>, n: int) -> Seq<int>
    decreases n,
{
    if n <= 0 {
        Seq::empty()
    } else if candidates[n - 1] is Some && ratings[n - 1] >= 0 {
        rankable(candidates, ratings, n - 1).push(n - 1)
    } else {
        rankable(candidates, ratings, n - 1)
    }
}

/// The ratings of the picked places.
pub open spec fn picked_ratings(picks: Seq<int>, ratings: Seq<i64>) -> Seq<i64> {
    picks.map_values(|i: int| ratings[i])
}

/// A ranked list, as mathematical values.
pub open spec fn ranked_views(ranked: Seq<RankedItem>) -> Seq<(Seq<char>, i64)> {
    ranked.map_values(|r: RankedItem| (r.code@, r.rating))
}

/// The ranking of a slot's candidates, best first.
pub open spec fn candidate_ranking(candidates: Seq<Option<String>>, ratings: Seq<i64>) -> Seq<
    (Seq<char>, i64),
> {
    let picks = rankable(candidates, ratings, candidates.len() as int);
    ranked(by_key(picked_ratings(picks, ratings)), picks.len() as int).map_values(
        |j: int| (candidates[picks[j]]->0@, ratings[picks[j]]),
    )
}

/// Ranks the candidates of one slot by their ratings against the empty slot, best first. One that
/// ties with the empty slot stays on the list, as something to fall back on.
pub fn rank_candidates(candidates: &[Option<String>], ratings: &[i64]) -> (r: Vec<RankedItem>)
    requires
        ratings@.len() == candidates@.len(),
    ensures
        ranked_views(r@) == candidate_ranking(candidates@, ratings@),
{
    let mut picks: Vec<usize> = Vec::new();
    let mut keys: Vec<i64> = Vec::new();
    let mut i: usize = 0;
    assert(places(picks@) =~= Seq::empty());
    assert(keys@ =~= picked_ratings(places(picks@), ratings@));
    while i < candidates.len()
        invariant
            i <= candidates@.len(),
            ratings@.len() == candidates@.len(),
            places(picks@) == rankable(candidates@, ratings@, i as int),
            keys@ == picked_ratings(places(picks@), ratings@),
            keys@.len() == picks@.len(),
            forall|j: int|
                0 <= j < picks@.len() ==> (#[trigger] picks@[j]) < candidates@.len()
                    && candidates@[picks@[j] as int] is Some,
        decreases candidates@.len() - i,
    {
        if candidates[i].is_some() && ratings[i] >= 0 {
            let ghost had = picks@;
            picks.push(i);
            keys.push(ratings[i]);
            assert(places(picks@) =~= places(had).push(i as int));
            assert(keys@ =~= picked_ratings(places(picks@), ratings@));
        }
        i += 1;
    }
    let order: Vec<usize> = rank_by_key(&keys);
    let ghost target = candidate_ranking(candidates@, ratings@);
    let mut out: Vec<RankedItem> = Vec::new();
    let mut j: usize = 0;
    assert(ranked_views(out@) =~= target.take(0));
    while j < order.len()
        invariant
            j <= order@.len(),
            ratings@.len() == candidates@.len(),
            order@.len() == picks@.len(),
            keys@.len() == picks@.len(),
            places(picks@) == rankable(candidates@, ratings@, candidates@.len() as int),
            keys@ == picked_ratings(places(picks@), ratings@),
            forall|m: int|
                0 <= m < picks@.len() ==> (#[trigger] picks@[m]) < candidates@.len()
                    && candidates@[picks@[m] as int] is Some,
            places(order@) == ranked(by_key(keys@), keys@.len() as int),
            is_ranking(places(order@), by_key(keys@), keys@.len() as int),
            target == candidate_ranking(candidates@, ratings@),
            ranked_views(out@) == target.take(j as int),
        decreases order@.len() - j,
    {
        assert(places(order@)[j as int] == order@[j as int]);
        let pick: usize = picks[order[j]];
        assert(places(picks@)[order@[j as int] as int] == pick);
        let ghost had = out@;
        if let Some(code) = &candidates[pick] {
            out.push(RankedItem { code: code.clone(), rating: ratings[pick] });
            assert(ranked_views(out@) =~= ranked_views(had).push((code@, ratings@[pick as int])));
        }
        j += 1;
        assert(target.take(j as int) =~= target.take(j - 1).push(target[j - 1]));
    }
    assert(target.take(j as int) =~= target);
    out
}

/// The code worn in a slot, or nothing.
pub open spec fn worn_code(code: Seq<char>) -> Option<Seq<char>> {
    if code.len() == 0 {
        None
    } else {
        Some(code)
    }
}

/// Which of the first `n` slots are searched.
pub open spec fn open_slots(settled: Seq<bool>, n: int) -> Seq<int>
    decreases n,
{
    if n <= 0 {
        Seq::empty()
    } else if settled[n - 1] {
        open_slots(settled, n - 1)
    } else {
        open_slots(settled, n - 1).push(n - 1)
    }
}

/// `sc` is the search of slot `i` of a character.
pub open spec fn is_search_of(sc: SlotCandidates, who: Character, data: GameData, i: int) -> bool {
    let def = slots_of(who)[i];
    &&& sc.slot@ == def.0
    &&& opt_code(sc.current_code) == worn_code(def.2)
    &&& code_options(sc.candidates@) == pool(
        data.items@,
        who,
        def.1,
        def.2,
        data.items@.len() as int,
    )
}

proof fn lemma_pool_len(
    items: Seq<Item>,
    who: Character,
    category: Seq<char>,
    current: Seq<char>,
    n: int,
)
    requires
        0 <= n <= items.len(),
    ensures
        pool(items, who, category, current, n).len() <= n + 2,
    decreases n,
{
    if n > 0 {
        lemma_pool_len(items, who, category, current, n - 1);
    }
}

/// The slots to search and their candidates. A combat search covers all thirteen slots; for a
/// gatherer, `settled` marks the slots for which gathering itself has found something to wear, and
/// the search fills the others.
pub fn slots_to_search(character: &Character, data: &GameData, settled: &[bool]) -> (r: Vec<
    SlotCandidates,
>)
    requires
        settled@.len() == 13,
        data.items@.len() < 0x7fff_ffff,
    ensures
        slots_wf(r@),
        r@.len() == open_slots(settled@, 13).len(),
        forall|k: int|
            0 <= k < r@.len() ==> is_search_of(
                #[trigger] r@[k],
                *character,
                *data,
                open_slots(settled@, 13)[k],
            ),
{
    let defs = slot_definitions(character);
    let mut out: Vec<SlotCandidates> = Vec::new();
    let mut i: usize = 0;
    while i < 13
        invariant
            i <= 13,
            settled@.len() == 13,
            data.items@.len() < 0x7fff_ffff,
            defs@.len() == 13,
            slots_of(*character).len() == 13,
            forall|k: int|
                0 <= k < 13 ==> {
                    &&& (#[trigger] defs@[k]).0@ == slots_of(*character)[k].0
                    &&& defs@[k].1@ == slots_of(*character)[k].1
                    &&& defs@[k].2@ == slots_of(*character)[k].2
                },
            out@.len() <= i,
            slots_wf(out@),
            out@.len() == open_slots(settled@, i as int).len(),
            forall|k: int|
                0 <= k < out@.len() ==> is_search_of(
                    #[trigger] out@[k],
                    *character,
                    *data,
                    open_slots(settled@, i as int)[k],
                ),
        decreases 13 - i,
    {
        if !settled[i] {
            let code: &str = defs[i].2;
            assert(defs@[i as int].2@ == slots_of(*character)[i as int].2);
            let candidates: Vec<Option<String>> = combat_candidate_pool(
                data,
                character,
                defs[i].1,
                code,
            );
            let current_code: Option<String> = if code.is_empty() {
                None
            } else {
                Some(code.to_owned())
            };
            proof {
                let len = data.items@.len() as int;
                law_pool_holds_what_is_worn(
                    data.items@,
                    *character,
                    defs@[i as int].1@,
                    code@,
                    len,
                );
                lemma_pool_len(data.items@, *character, defs@[i as int].1@, code@, len);
                let views = code_options(candidates@);
                assert(views[0] == opt_code(candidates@[0]));
                if code@.len() > 0 {
                    assert(views[1] == opt_code(candidates@[1]));
                }
            }
            out.push(SlotCandidates { slot: defs[i].0, current_code, candidates });
        }
        i += 1;
    }
    out
}

/// A character with the first `n` of the searched slots emptied, by way of `steps`.
pub open spec fn is_stripping(
    steps: Seq<Character>,
    who: Character,
    slots: Seq<SlotCandidates>,
    items: Seq<Item>,
    n: int,
) -> bool {
    &&& steps.len() == n + 1
    &&& same_character(steps[0], who)
    &&& forall|i: int|
        0 <= i < n ==> {
            let worn = match slots[i].current_code {
                Some(code) => worn_item(items, code@),
                None => None,
            };
            match worn {
                Some(item) => is_adjusted(#[trigger] steps[i + 1], steps[i], item, -1),
                None => steps[i + 1] == steps[i],
            }
        }
}

/// The character without what it wears in the searched slots.
pub fn naked_for_slots(character: &Character, data: &GameData, slots: &[SlotCandidates]) -> (r:
    Character)
    ensures
        exists|steps: Seq<Character>|
            is_stripping(steps, *character, slots@, data.items@, slots@.len() as int)
                && steps.last() == r,
{
    let mut naked: Character = copy_character(character);
    let ghost mut steps: Seq<Character> = seq![naked];
    let mut i: usize = 0;
    while i < slots.len()
        invariant
            i <= slots@.len(),
            is_stripping(steps, *character, slots@, data.items@, i as int),
            steps.last() == naked,
        decreases slots@.len() - i,
    {
        let ghost before = steps;
        if let Some(code) = &slots[i].current_code {
            if let Some(item) = current_item(data, code) {
                naked = adjust_combat_stats(&naked, item, -1);
            }
        }
        proof {
            steps = before.push(naked);
            assert forall|k: int| 0 <= k < i + 1 implies ({
                let worn = match slots@[k].current_code {
                    Some(code) => worn_item(data.items@, code@),
                    None => None,
                };
                match worn {
                    Some(item) => is_adjusted(#[trigger] steps[k + 1], steps[k], item, -1),
                    None => steps[k + 1] == steps[k],
                }
            }) by {
                assert(steps[k] == before[k]);
                if k < i {
                    assert(steps[k + 1] == before[k + 1]);
                }
            }
        }
        i += 1;
    }
    naked
}

/// The item that a loadout puts into slot `i`.
pub open spec fn chosen_item(
    slots: Seq<SlotCandidates>,
    chosen: Seq<usize>,
    items: Seq<Item>,
    i: int,
) -> Option<Item> {
    match slots[i].candidates@[chosen[i] as int] {
        Some(code) => item_named(items, code@),
        None => None,
    }
}

/// A character dressed in the first `n` choices of a loadout, by way of `steps`.
pub open spec fn is_dressing(
    steps: Seq<Character>,
    naked: Character,
    slots: Seq<SlotCandidates>,
    chosen: Seq<usize>,
    items: Seq<Item>,
    n: int,
) -> bool {
    &&& steps.len() == n + 1
    &&& same_character(steps[0], naked)
    &&& forall|i: int|
        0 <= i < n ==> match chosen_item(slots, chosen, items, i) {
            Some(item) => is_adjusted(#[trigger] steps[i + 1], steps[i], item, 1),
            None => steps[i + 1] == steps[i],
        }
}

/// The character in a loadout.
pub fn dressed(naked: &Character, slots: &[SlotCandidates], chosen: &[usize], data: &GameData) -> (r:
    Character)
    requires
        is_loadout(chosen@, slots@),
    ensures
        exists|steps: Seq<Character>|
            is_dressing(steps, *naked, slots@, chosen@, data.items@, slots@.len() as int)
                && steps.last() == r,
{
    let mut working: Character = copy_character(naked);
    let ghost mut steps: Seq<Character> = seq![working];
    let mut i: usize = 0;
    while i < slots.len()
        invariant
            i <= slots@.len(),
            is_loadout(chosen@, slots@),
            is_dressing(steps, *naked, slots@, chosen@, data.items@, i as int),
            steps.last() == working,
        decreases slots@.len() - i,
    {
        let ghost before = steps;
        assert(chosen@[i as int] < slots@[i as int].candidates@.len());
        if let Some(code) = &slots[i].candidates[chosen[i]] {
            if let Some(k) = find_item(&data.items, code) {
                working = adjust_combat_stats(&working, &data.items[k], 1);
            }
        }
        proof {
            steps = before.push(working);
            assert forall|k: int| 0 <= k < i + 1 implies (match chosen_item(
                slots@,
                chosen@,
                data.items@,
                k,
            ) {
                Some(item) => is_adjusted(#[trigger] steps[k + 1], steps[k], item, 1),
                None => steps[k + 1] == steps[k],
            }) by {
                assert(steps[k] == before[k]);
                if k < i {
                    assert(steps[k + 1] == before[k + 1]);
                }
            }
        }
        i += 1;
    }
    working
}

/// The place of a slot in a list of rankings, from place `from` on.
pub open spec fn rating_place(ratings: Seq<SlotRating>, slot: Seq<char>, from: int) -> Option<int>
    decreases ratings.len() - from,
{
    if from < 0 || from >= ratings.len() {
        None
    } else if ratings[from].slot@ == slot {
        Some(from)
    } else {
        rating_place(ratings, slot, from + 1)
    }
}

/// Rankings, as mathematical values.
pub open spec fn rating_views(ratings: Seq<SlotRating>) -> Seq<
    (Seq<char>, Seq<char>, Seq<(Seq<char>, i64)>),
> {
    ratings.map_values(|r: SlotRating| (r.slot@, r.category@, ranked_views(r.ranked@)))
}

/// Puts the ranking of a searched slot in the place of the one it had.
pub fn replace_ranking(ratings: &mut Vec<SlotRating>, slot: &str, new_ranking: Vec<RankedItem>)
    ensures
        match rating_place(old(ratings)@, slot@, 0) {
            Some(i) => rating_views(final(ratings)@) == rating_views(old(ratings)@).update(
                i,
                (
                    slot@,
                    old(ratings)@[i].category@,
                    ranked_views(new_ranking@),
                ),
            ),
            None => final(ratings)@ == old(ratings)@,
        },
{
    let mut i: usize = 0;
    while i < ratings.len()
        invariant
            i <= ratings@.len(),
            *ratings == *old(ratings),
            rating_place(ratings@, slot@, 0) == rating_place(ratings@, slot@, i as int),
        decreases ratings@.len() - i,
    {
        if same(ratings[i].slot, slot) {
            let replaced = SlotRating {
                slot: ratings[i].slot,
                category: ratings[i].category,
                ranked: new_ranking,
            };
            ratings.set(i, replaced);
            assert(rating_views(ratings@) =~= rating_views(old(ratings)@).update(
                i as int,
                (slot@, old(ratings)@[i as int].category@, ranked_views(new_ranking@)),
            ));
            return ;
        }
        i += 1;
    }
}

/// Every slot with nothing ranked yet, which is where a combat search starts.
pub fn blank_ratings(character: &Character) -> (r: Vec<SlotRating>)
    ensures
        r@.len() == 13,
        slots_of(*character).len() == 13,
        forall|i: int|
            0 <= i < 13 ==> {
                &&& (#[trigger] r@[i]).slot@ == slots_of(*character)[i].0
                &&& r@[i].category@ == slots_of(*character)[i].1
                &&& r@[i].ranked@.len() == 0
            },
{
    let defs = slot_definitions(character);
    let mut out: Vec<SlotRating> = Vec::new();
    let mut i: usize = 0;
    while i < 13
        invariant
            i <= 13,
            defs@.len() == 13,
            out@.len() == i,
            slots_of(*character).len() == 13,
            forall|k: int|
                0 <= k < 13 ==> {
                    &&& (#[trigger] defs@[k]).0@ == slots_of(*character)[k].0
                    &&& defs@[k].1@ == slots_of(*character)[k].1
                },
            forall|k: int|
                0 <= k < i ==> {
                    &&& (#[trigger] out@[k]).slot@ == slots_of(*character)[k].0
                    &&& out@[k].category@ == slots_of(*character)[k].1
                    &&& out@[k].ranked@.len() == 0
                },
        decreases 13 - i,
    {
        out.push(SlotRating { slot: defs[i].0, category: defs[i].1, ranked: Vec::new() });
        i += 1;
    }
    out
}

/// Which items of a category are worth wearing for gathering: those that beat the empty slot.
pub open spec fn gathering_picks(
    items: Seq<Item>,
    category: Seq<char>,
    ratings: Seq<i64>,
    n: int,
) -> Seq<int>
    decreases n,
{
    if n <= 0 {
        Seq::empty()
    } else if items[n - 1].item_type@ == category && ratings[n - 1] > 0 {
        gathering_picks(items, category, ratings, n - 1).push(n - 1)
    } else {
        gathering_picks(items, category, ratings, n - 1)
    }
}

/// The ranking of the items of a category that beat the empty slot, best first.
pub open spec fn gathering_ranking(items: Seq<Item>, category: Seq<char>, ratings: Seq<i64>) -> Seq<
    (Seq<char>, i64),
> {
    let picks = gathering_picks(items, category, ratings, items.len() as int);
    ranked(by_key(picked_ratings(picks, ratings)), picks.len() as int).map_values(
        |j: int| (items[picks[j]].code@, ratings[picks[j]]),
    )
}

/// Ranks the items of one category for gathering, best first; only those that beat the empty slot
/// are listed. `ratings` gives the rating of each item.
pub fn rank_items(items: &[Item], category: &str, ratings: &[i64]) -> (r: Vec<RankedItem>)
    requires
        ratings@.len() == items@.len(),
    ensures
        ranked_views(r@) == gathering_ranking(items@, category@, ratings@),
{
    let mut picks: Vec<usize> = Vec::new();
    let mut keys: Vec<i64> = Vec::new();
    let mut i: usize = 0;
    assert(places(picks@) =~= Seq::empty());
    assert(keys@ =~= picked_ratings(places(picks@), ratings@));
    while i < items.len()
        invariant
            i <= items@.len(),
            ratings@.len() == items@.len(),
            places(picks@) == gathering_picks(items@, category@, ratings@, i as int),
            keys@ == picked_ratings(places(picks@), ratings@),
            keys@.len() == picks@.len(),
            forall|j: int| 0 <= j < picks@.len() ==> (#[trigger] picks@[j]) < items@.len(),
        decreases items@.len() - i,
    {
        if ratings[i] > 0 && same(&items[i].item_type, category) {
            let ghost had = picks@;
            picks.push(i);
            keys.push(ratings[i]);
            assert(places(picks@) =~= places(had).push(i as int));
            assert(keys@ =~= picked_ratings(places(picks@), ratings@));
        }
        i += 1;
    }
    let order: Vec<usize> = rank_by_key(&keys);
    let ghost target = gathering_ranking(items@, category@, ratings@);
    let mut out: Vec<RankedItem> = Vec::new();
    let mut j: usize = 0;
    assert(ranked_views(out@) =~= target.take(0));
    while j < order.len()
        invariant
            j <= order@.len(),
            ratings@.len() == items@.len(),
            order@.len() == picks@.len(),
            keys@.len() == picks@.len(),
            places(picks@) == gathering_picks(items@, category@, ratings@, items@.len() as int),
            keys@ == picked_ratings(places(picks@), ratings@),
            forall|m: int| 0 <= m < picks@.len() ==> (#[trigger] picks@[m]) < items@.len(),
            places(order@) == ranked(by_key(keys@), keys@.len() as int),
            is_ranking(places(order@), by_key(keys@), keys@.len() as int),
            target == gathering_ranking(items@, category@, ratings@),
            ranked_views(out@) == target.take(j as int),
        decreases order@.len() - j,
    {
        assert(places(order@)[j as int] == order@[j as int]);
        let pick: usize = picks[order[j]];
        assert(places(picks@)[order@[j as int] as int] == pick);
        let ghost had = out@;
        out.push(RankedItem { code: items[pick].code.clone(), rating: ratings[pick] });
        assert(ranked_views(out@) =~= ranked_views(had).push(
            (items@[pick as int].code@, ratings@[pick as int]),
        ));
        j += 1;
        assert(target.take(j as int) =~= target.take(j - 1).push(target[j - 1]));
    }
    assert(target.take(j as int) =~= target);
    out
}

/// The rankings of all thirteen slots for gathering.
pub open spec fn gathering_rankings(
    items: Seq<Item>,
    who: Character,
    ratings: Seq<Vec<i64>>,
) -> Seq<(Seq<char>, Seq<char>, Seq<(Seq<char>, i64)>)> {
    Seq::new(
        13,
        |i: int|
            (
                slots_of(who)[i].0,
                slots_of(who)[i].1,
                gathering_ranking(items, slots_of(who)[i].1, ratings[i]@),
            ),
    )
}

/// Ranks the items of every slot for gathering, each slot on its own: gathering has no thresholds
/// that several items could cross together. `ratings` gives, for each slot, the rating of each item
/// against the empty slot.
pub fn optimize_items(character: &Character, data: &GameData, ratings: &[Vec<i64>]) -> (r: Vec<
    SlotRating,
>)
    requires
        ratings@.len() == 13,
        forall|i: int|
            0 <= i < 13 ==> (#[trigger] ratings@[i])@.len() == data.items@.len(),
    ensures
        rating_views(r@) == gathering_rankings(data.items@, *character, ratings@),
{
    let defs = slot_definitions(character);
    let ghost target = gathering_rankings(data.items@, *character, ratings@);
    let mut out: Vec<SlotRating> = Vec::new();
    let mut i: usize = 0;
    assert(rating_views(out@) =~= target.take(0));
    while i < 13
        invariant
            i <= 13,
            ratings@.len() == 13,
            forall|k: int|
                0 <= k < 13 ==> (#[trigger] ratings@[k])@.len() == data.items@.len(),
            defs@.len() == 13,
            forall|k: int|
                0 <= k < 13 ==> {
                    &&& (#[trigger] defs@[k]).0@ == slots_of(*character)[k].0
                    &&& defs@[k].1@ == slots_of(*character)[k].1
                },
            target == gathering_rankings(data.items@, *character, ratings@),
            rating_views(out@) == target.take(i as int),
        decreases 13 - i,
    {
        assert(ratings@[i as int]@.len() == data.items@.len());
        let ranked: Vec<RankedItem> = rank_items(&data.items, defs[i].1, &ratings[i]);
        let ghost had = out@;
        let ghost views = ranked_views(ranked@);
        out.push(SlotRating { slot: defs[i].0, category: defs[i].1, ranked });
        proof {
            assert(defs@[i as int].0@ == slots_of(*character)[i as int].0);
            assert(rating_views(out@) =~= rating_views(had).push(target[i as int]));
            assert(target.take(i + 1) =~= target.take(i as int).push(target[i as int]));
        }
        i += 1;
    }
    assert(target.take(13) =~= target);
    out
}

/// Which slots gathering itself has found something to wear for; the search leaves those alone.
pub fn settled_slots(ratings: &[SlotRating]) -> (r: Vec<bool>)
    ensures
        r@.len() == ratings@.len(),
        forall|i: int| 0 <= i < r@.len() ==> #[trigger] r@[i] == (ratings@[i].ranked@.len() > 0),
{
    let mut out: Vec<bool> = Vec::new();
    let mut i: usize = 0;
    while i < ratings.len()
        invariant
            i <= ratings@.len(),
            out@.len() == i,
            forall|k: int|
                0 <= k < i ==> #[trigger] out@[k] == (ratings@[k].ranked@.len() > 0),
        decreases ratings@.len() - i,
    {
        out.push(ratings[i].ranked.len() > 0);
        i += 1;
    }
    out
}

proof fn lemma_gathering_picks(items: Seq<Item>, category: Seq<char>, ratings: Seq<i64>, n: int)
    requires
        0 <= n <= items.len(),
    ensures
        gathering_picks(items, category, ratings, n).len() > 0 <==> exists|i: int|
            0 <= i < n && (#[trigger] items[i]).item_type@ == category && ratings[i] > 0,
    decreases n,
{
    if n > 0 {
        lemma_gathering_picks(items, category, ratings, n - 1);
        if items[n - 1].item_type@ == category && ratings[n - 1] > 0 {
            assert(items[n - 1].item_type@ == category);
        }
    }
}

/// Gathering has something to wear for a slot where some item of its category beats the empty slot.
pub proof fn law_settled_where_something_helps(
    items: Seq<Item>,
    category: Seq<char>,
    ratings: Seq<i64>,
)
    ensures
        gathering_ranking(items, category, ratings).len() > 0 <==> exists|i: int|
            0 <= i < items.len() && (#[trigger] items[i]).item_type@ == category && ratings[i] > 0,
{
    let n = items.len() as int;
    lemma_gathering_picks(items, category, ratings, n);
    let picks = gathering_picks(items, category, ratings, n);
    let keys = picked_ratings(picks, ratings);
    lemma_keys_are_ordered(keys);
    law_ranking(by_key(keys), keys.len() as int);
}

} // verus!
