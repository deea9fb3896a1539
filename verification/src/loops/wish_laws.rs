//! What holds of purchases for the wishlist: every round buys what gives the most XP for its gold.

use vstd::prelude::*;

use super::acquisition::acquire_all;
use super::crafting_plan::{tier_gap, WISHLIST_SKILLS};
use super::grand_exchange::{
    best_in_skill, best_option, better, option_of, purchase_of, round_buys, starting_gaps, tallied,
    wish_round, wish_rounds, Pick, WishView, Wishing, MAX_WISHLIST_PURCHASE_ROUNDS,
};
use crate::arith::{fits_i32, max_int};
use crate::optimize::skill_laws::{law_progress_is_the_skills_own, lemma_skill_names};
use crate::optimize::skills::level_in;
use crate::types::{Character, Item};

verus! {

/// The skills that have a wishlist, in order.
pub open spec fn wish_skill(k: int) -> Seq<char> {
    if k == 0 {
        "weaponcrafting"@
    } else if k == 1 {
        "gearcrafting"@
    } else if k == 2 {
        "jewelrycrafting"@
    } else {
        "alchemy"@
    }
}

/// A recipe that can be bought for: its skill lacks XP, the character can follow it and gains XP by
/// it, and the ingredients of one craft can be had for `cost`, which the budget covers.
pub open spec fn is_open(
    w: Wishing,
    k: int,
    j: int,
    cost: int,
    items: Seq<Item>,
    xp: Seq<i32>,
    who: Character,
) -> bool {
    &&& 0 <= k < 4
    &&& 0 <= j < items.len()
    &&& w.gaps[k] > 0
    &&& xp[j] > 0
    &&& items[j].craft is Some
    &&& items[j].craft->0.skill is Some
    &&& items[j].craft->0.skill->0@ == wish_skill(k)
    &&& items[j].craft->0.level matches Some(req) ==> level_in(who, wish_skill(k)) >= req
    &&& acquire_all(0, items[j].craft->0.items@, 1, items, who, w.ledger) is Some
    &&& acquire_all(0, items[j].craft->0.items@, 1, items, who, w.ledger)->Some_0.0 == cost
    &&& cost <= w.budget
    &&& fits_i32(w.budget - cost)
}

/// One gives at least as much XP per gold as another; what is free counts as one gold.
pub open spec fn pays_at_least(xp: int, cost: int, other_xp: int, other_cost: int) -> bool {
    other_xp * max_int(cost, 1) <= xp * max_int(other_cost, 1)
}

/// Of all that can be bought for nothing gives more XP per gold, and nothing that comes before
/// gives as much.
pub open spec fn pays_best(
    w: Wishing,
    k: int,
    j: int,
    cost: int,
    items: Seq<Item>,
    xp: Seq<i32>,
    who: Character,
) -> bool {
    forall|k2: int, j2: int, c2: int| #[trigger]
        is_open(w, k2, j2, c2, items, xp, who) ==> {
            &&& pays_at_least(xp[j] as int, cost, xp[j2] as int, c2)
            &&& k2 < k || (k2 == k && j2 < j) ==> !pays_at_least(xp[j2] as int, c2, xp[j] as int, cost)
        }
}

proof fn lemma_wish_skills()
    ensures
        forall|k: int| 0 <= k < 4 ==> (#[trigger] WISHLIST_SKILLS@[k])@ == wish_skill(k),
        wish_skill(0) != wish_skill(1),
        wish_skill(0) != wish_skill(2),
        wish_skill(0) != wish_skill(3),
        wish_skill(1) != wish_skill(2),
        wish_skill(1) != wish_skill(3),
        wish_skill(2) != wish_skill(3),
{
    lemma_skill_names();
    assert(WISHLIST_SKILLS@[0]@ == "weaponcrafting"@);
    assert(WISHLIST_SKILLS@[1]@ == "gearcrafting"@);
    assert(WISHLIST_SKILLS@[2]@ == "jewelrycrafting"@);
    assert(WISHLIST_SKILLS@[3]@ == "alchemy"@);
}

proof fn lemma_option(
    w: Wishing,
    k: int,
    j: int,
    items: Seq<Item>,
    xp: Seq<i32>,
    who: Character,
)
    requires
        0 <= k < 4,
        0 <= j < items.len(),
        w.gaps[k] > 0,
    ensures
        match option_of(k, j, w.ledger, w.budget, items, xp, who) {
            Some(p) => p.skill == k && p.item == j && p.xp == xp[j] && p.xp > 0 && is_open(
                w,
                k,
                j,
                p.cost,
                items,
                xp,
                who,
            ),
            None => forall|c: int| !#[trigger] is_open(w, k, j, c, items, xp, who),
        },
{
    lemma_wish_skills();
    assert(WISHLIST_SKILLS@[k]@ == wish_skill(k));
}

/// The best so far: it can be bought for, and of what has been looked at nothing pays better and
/// nothing earlier as well.
spec fn leads(
    best: Option<Pick>,
    w: Wishing,
    k: int,
    n: int,
    items: Seq<Item>,
    xp: Seq<i32>,
    who: Character,
) -> bool {
    match best {
        Some(p) => {
            &&& p.xp == xp[p.item]
            &&& p.xp > 0
            &&& p.skill < k || (p.skill == k && p.item < n)
            &&& is_open(w, p.skill, p.item, p.cost, items, xp, who)
            &&& forall|k2: int, j2: int, c2: int| #[trigger]
                is_open(w, k2, j2, c2, items, xp, who) && (k2 < k || (k2 == k && j2 < n)) ==> {
                    &&& pays_at_least(p.xp, p.cost, xp[j2] as int, c2)
                    &&& k2 < p.skill || (k2 == p.skill && j2 < p.item) ==> !pays_at_least(
                        xp[j2] as int,
                        c2,
                        p.xp,
                        p.cost,
                    )
                }
        },
        None => forall|k2: int, j2: int, c2: int| #[trigger]
            is_open(w, k2, j2, c2, items, xp, who) ==> !(k2 < k || (k2 == k && j2 < n)),
    }
}

proof fn lemma_pays_transitively(ax: int, ac: int, bx: int, bc: int, cx: int, cc: int)
    requires
        ax > 0,
        bx > 0,
        cx > 0,
    ensures
        pays_at_least(ax, ac, bx, bc) && pays_at_least(bx, bc, cx, cc) ==> pays_at_least(
            ax,
            ac,
            cx,
            cc,
        ),
        !pays_at_least(bx, bc, ax, ac) && pays_at_least(bx, bc, cx, cc) ==> !pays_at_least(
            cx,
            cc,
            ax,
            ac,
        ),
        !pays_at_least(bx, bc, ax, ac) ==> pays_at_least(ax, ac, bx, bc),
{
    let (a, b, c) = (max_int(ac, 1), max_int(bc, 1), max_int(cc, 1));
    if pays_at_least(bx, bc, cx, cc) {
        if pays_at_least(ax, ac, bx, bc) {
            assert(cx * a <= ax * c) by (nonlinear_arith)
                requires
                    bx * a <= ax * b,
                    cx * b <= bx * c,
                    a >= 1,
                    b >= 1,
                    c >= 1,
                    ax > 0,
                    bx > 0,
                    cx > 0,
            {
                assert((cx * b) * a <= (bx * c) * a);
                assert((bx * a) * c <= (ax * b) * c);
                assert((cx * a) * b <= (ax * c) * b);
            }
        }
        if !pays_at_least(bx, bc, ax, ac) {
            assert(ax * c > cx * a) by (nonlinear_arith)
                requires
                    ax * b > bx * a,
                    cx * b <= bx * c,
                    a >= 1,
                    b >= 1,
                    c >= 1,
                    ax > 0,
                    bx > 0,
                    cx > 0,
            {
                assert((ax * b) * c > (bx * a) * c);
                assert((cx * b) * a <= (bx * c) * a);
                assert((ax * c) * b > (cx * a) * b);
            }
        }
    }
}

proof fn lemma_leads_step(
    best: Option<Pick>,
    w: Wishing,
    k: int,
    j: int,
    items: Seq<Item>,
    xp: Seq<i32>,
    who: Character,
)
    requires
        0 <= k < 4,
        0 <= j < items.len(),
        w.gaps[k] > 0,
        leads(best, w, k, j, items, xp, who),
    ensures
        leads(
            better(best, option_of(k, j, w.ledger, w.budget, items, xp, who)),
            w,
            k,
            j + 1,
            items,
            xp,
            who,
        ),
{
    lemma_option(w, k, j, items, xp, who);
    let more = option_of(k, j, w.ledger, w.budget, items, xp, who);
    let now = better(best, more);
    if let Some(p) = now {
        assert forall|k2: int, j2: int, c2: int| #[trigger]
            is_open(w, k2, j2, c2, items, xp, who) && (k2 < k || (k2 == k && j2 < j + 1)) implies ({
            &&& pays_at_least(p.xp, p.cost, xp[j2] as int, c2)
            &&& k2 < p.skill || (k2 == p.skill && j2 < p.item) ==> !pays_at_least(
                xp[j2] as int,
                c2,
                p.xp,
                p.cost,
            )
        }) by {
            if k2 == k && j2 == j {
                assert(more is Some && c2 == more->0.cost);
            } else if let Some(b) = best {
                lemma_pays_transitively(p.xp, p.cost, b.xp, b.cost, xp[j2] as int, c2);
            }
        }
    }
}

proof fn lemma_leads_in_skill(
    start: Option<Pick>,
    w: Wishing,
    k: int,
    n: int,
    items: Seq<Item>,
    xp: Seq<i32>,
    who: Character,
)
    requires
        0 <= k < 4,
        0 <= n <= items.len(),
        w.gaps[k] > 0,
        leads(start, w, k, 0, items, xp, who),
    ensures
        leads(
            best_in_skill(start, k, n, w.ledger, w.budget, items, xp, who),
            w,
            k,
            n,
            items,
            xp,
            who,
        ),
    decreases n,
{
    if n > 0 {
        lemma_leads_in_skill(start, w, k, n - 1, items, xp, who);
        lemma_leads_step(
            best_in_skill(start, k, n - 1, w.ledger, w.budget, items, xp, who),
            w,
            k,
            n - 1,
            items,
            xp,
            who,
        );
    }
}

proof fn lemma_leads(
    w: Wishing,
    k: int,
    items: Seq<Item>,
    xp: Seq<i32>,
    who: Character,
)
    requires
        0 <= k <= 4,
    ensures
        leads(best_option(w, k, items, xp, who), w, k, 0, items, xp, who),
    decreases k,
{
    if k > 0 {
        lemma_leads(w, k - 1, items, xp, who);
        let before = best_option(w, k - 1, items, xp, who);
        let now = best_option(w, k, items, xp, who);
        let n = items.len() as int;
        if w.gaps[k - 1] > 0 {
            lemma_leads_in_skill(before, w, k - 1, n, items, xp, who);
        }
        assert forall|k2: int, j2: int, c2: int| #[trigger]
            is_open(w, k2, j2, c2, items, xp, who) && k2 < k implies k2 < k - 1 || (k2 == k - 1
            && j2 < n && w.gaps[k - 1] > 0) by {}
    }
}

/// What of a purchase is counted.
pub enum Measure {
    Crafts,
    Cost,
    Xp,
}

/// What a purchase comes to.
pub open spec fn measured(p: WishView, measure: Measure) -> int {
    match measure {
        Measure::Crafts => p.crafts,
        Measure::Cost => p.cost,
        Measure::Xp => p.xp,
    }
}

/// What a list of purchases holds under a code, by some measure.
pub open spec fn tally_of(
    bought: Seq<WishView>,
    code: Seq<char>,
    measure: Measure,
    n: int,
) -> int
    decreases n,
{
    if n <= 0 {
        0
    } else {
        tally_of(bought, code, measure, n - 1) + if bought[n - 1].code == code {
            measured(bought[n - 1], measure)
        } else {
            0
        }
    }
}

proof fn lemma_tally_same(
    a: Seq<WishView>,
    b: Seq<WishView>,
    code: Seq<char>,
    measure: Measure,
    n: int,
)
    requires
        n <= a.len(),
        n <= b.len(),
        forall|i: int| 0 <= i < n ==> #[trigger] a[i] == b[i],
    ensures
        tally_of(a, code, measure, n) == tally_of(b, code, measure, n),
    decreases n,
{
    if n > 0 {
        lemma_tally_same(a, b, code, measure, n - 1);
        assert(a[n - 1] == b[n - 1]);
    }
}

proof fn lemma_tally_changed(
    bought: Seq<WishView>,
    i: int,
    entry: WishView,
    code: Seq<char>,
    measure: Measure,
    n: int,
)
    requires
        0 <= i < n <= bought.len(),
        entry.code == bought[i].code,
    ensures
        tally_of(bought.update(i, entry), code, measure, n) == tally_of(bought, code, measure, n)
            + if entry.code == code {
            measured(entry, measure) - measured(bought[i], measure)
        } else {
            0
        },
    decreases n,
{
    if i < n - 1 {
        lemma_tally_changed(bought, i, entry, code, measure, n - 1);
    } else {
        lemma_tally_same(bought.update(i, entry), bought, code, measure, n - 1);
    }
}

proof fn lemma_purchase_of(bought: Seq<WishView>, code: Seq<char>, from: int)
    requires
        0 <= from,
    ensures
        purchase_of(bought, code, from) matches Some(i) ==> from <= i < bought.len()
            && bought[i].code == code,
    decreases bought.len() - from,
{
    if from < bought.len() && bought[from].code != code {
        lemma_purchase_of(bought, code, from + 1);
    }
}

/// Under every code there is what was there before, and under the one bought for that much more.
pub open spec fn tallies_one_more(
    before: Seq<WishView>,
    after: Seq<WishView>,
    code: Seq<char>,
    crafts: int,
    cost: int,
    xp: int,
) -> bool {
    forall|c: Seq<char>, m: Measure|
        #![trigger tally_of(after, c, m, after.len() as int)]
        tally_of(after, c, m, after.len() as int) - tally_of(before, c, m, before.len() as int)
            == if c != code {
            0
        } else {
            match m {
                Measure::Crafts => crafts,
                Measure::Cost => cost,
                Measure::Xp => xp,
            }
        }
}

proof fn lemma_tallied(bought: Seq<WishView>, more: WishView)
    ensures
        tallies_one_more(
            bought,
            tallied(bought, more),
            more.code,
            more.crafts,
            more.cost,
            more.xp,
        ),
{
    let after = tallied(bought, more);
    let b = bought.len() as int;
    lemma_purchase_of(bought, more.code, 0);
    assert forall|c: Seq<char>, m: Measure|
        #![trigger tally_of(after, c, m, after.len() as int)]
        tally_of(after, c, m, after.len() as int) - tally_of(bought, c, m, b) == if c
            != more.code {
            0
        } else {
            match m {
                Measure::Crafts => more.crafts,
                Measure::Cost => more.cost,
                Measure::Xp => more.xp,
            }
        } by {
        match purchase_of(bought, more.code, 0) {
            Some(i) => {
                lemma_tally_changed(bought, i, after[i], c, m, b);
            },
            None => {
                lemma_tally_same(after, bought, c, m, b);
            },
        }
    }
}

/// `next` is `w` after `n` crafts of item `j` have been bought for under skill `k`: their
/// ingredients have been had at their price, the gold and the XP that the skill lacks have gone
/// down by what they cost and give, and they have been tallied.
pub open spec fn buys(
    w: Wishing,
    next: Wishing,
    k: int,
    j: int,
    n: int,
    items: Seq<Item>,
    xp: Seq<i32>,
    who: Character,
) -> bool {
    let got = acquire_all(0, items[j].craft->0.items@, n, items, who, w.ledger);
    &&& n >= 1
    &&& got is Some
    &&& next.ledger == got->Some_0.1
    &&& next.budget == w.budget - got->Some_0.0
    &&& next.gaps == w.gaps.update(k, w.gaps[k] - xp[j] * n)
    &&& tallies_one_more(
        w.bought,
        next.bought,
        items[j].code@,
        n,
        got->Some_0.0,
        xp[j] * n,
    )
}

/// A round of wishlist purchases buys for the recipe that gives the most XP for its gold: of all
/// recipes open at that moment none gives more per gold piece. It buys nothing only where the gold
/// is gone or no recipe is open.
pub proof fn law_round_buys_the_best_ratio(
    w: Wishing,
    items: Seq<Item>,
    xp: Seq<i32>,
    who: Character,
)
    requires
        w.gaps.len() == 4,
        xp.len() == items.len(),
    ensures
        match wish_round(w, items, xp, who) {
            Some(next) => w.budget > 0 && exists|k: int, j: int, cost: int, n: int|
                {
                    &&& #[trigger] is_open(w, k, j, cost, items, xp, who)
                    &&& #[trigger] buys(w, next, k, j, n, items, xp, who)
                    &&& pays_best(w, k, j, cost, items, xp, who)
                },
            None => w.budget <= 0 || forall|k: int, j: int, cost: int|
                !#[trigger] is_open(w, k, j, cost, items, xp, who),
        },
{
    lemma_leads(w, 4, items, xp, who);
    if w.budget > 0 {
        if let Some(p) = best_option(w, 4, items, xp, who) {
            let next = wish_round(w, items, xp, who)->0;
            let (n, cost, l) = round_buys(w, p, items, who);
            lemma_wish_skills();
            lemma_tallied(
                w.bought,
                WishView {
                    code: items[p.item].code@,
                    skill: WISHLIST_SKILLS@[p.skill]@,
                    crafts: n,
                    cost,
                    xp: p.xp * n,
                },
            );
            assert(pays_best(w, p.skill, p.item, p.cost, items, xp, who));
            assert(buys(w, next, p.skill, p.item, n, items, xp, who));
            assert(is_open(w, p.skill, p.item, p.cost, items, xp, who));
        }
    }
}

/// Rounds go on from where the rounds before them stopped: one more round allowed is one more round
/// bought, as long as anything can be.
pub proof fn law_rounds_go_on(
    w: Wishing,
    rounds: nat,
    items: Seq<Item>,
    xp: Seq<i32>,
    who: Character,
)
    ensures
        wish_rounds(w, 0, items, xp, who) == w,
        wish_rounds(w, rounds + 1, items, xp, who) == match wish_round(
            wish_rounds(w, rounds, items, xp, who),
            items,
            xp,
            who,
        ) {
            Some(next) => next,
            None => wish_rounds(w, rounds, items, xp, who),
        },
        MAX_WISHLIST_PURCHASE_ROUNDS == 5000,
    decreases rounds,
{
    reveal_with_fuel(wish_rounds, 2);
    if rounds > 0 {
        if let Some(next) = wish_round(w, items, xp, who) {
            assert((rounds - 1) as nat + 1 == rounds);
            law_rounds_go_on(next, (rounds - 1) as nat, items, xp, who);
        }
    }
}

/// A plan starts from what each of the four skills lacks to its next tier, read off that skill's
/// own level and XP.
pub proof fn law_gaps_are_the_skills_own(who: Character)
    ensures
        starting_gaps(who).len() == 4,
        starting_gaps(who)[0] == tier_gap(
            who.weaponcrafting_level as int,
            who.weaponcrafting_xp as int,
            who.weaponcrafting_max_xp as int,
        ),
        starting_gaps(who)[1] == tier_gap(
            who.gearcrafting_level as int,
            who.gearcrafting_xp as int,
            who.gearcrafting_max_xp as int,
        ),
        starting_gaps(who)[2] == tier_gap(
            who.jewelrycrafting_level as int,
            who.jewelrycrafting_xp as int,
            who.jewelrycrafting_max_xp as int,
        ),
        starting_gaps(who)[3] == tier_gap(
            who.alchemy_level as int,
            who.alchemy_xp as int,
            who.alchemy_max_xp as int,
        ),
{
    lemma_wish_skills();
    law_progress_is_the_skills_own(who);
    assert(WISHLIST_SKILLS@[0]@ == wish_skill(0));
    assert(WISHLIST_SKILLS@[1]@ == wish_skill(1));
    assert(WISHLIST_SKILLS@[2]@ == wish_skill(2));
    assert(WISHLIST_SKILLS@[3]@ == wish_skill(3));
}

} // verus!
