//! Planning purchases on the grand exchange: what is worth buying and at what price. A plan is
//! only made here; nothing is bought.

use vstd::prelude::*;

use super::acquisition::{acquire, acquire_all, cheapest_way, ingredients_for};
use super::crafting_plan::{helps, is_level_enough, skill_gap, xp_to_next_tier, WISHLIST_SKILLS};
use super::market::{
    book_views, purchase_views, purchases_of, stock, stock_of, GEMarket, GEOrderBook, Ledger,
    LedgerView,
};
use super::supply::{bank_supply, banked};
use super::upgrade_steps::{step_views, upgrade_order, upgrade_steps, StepView, UpgradeStep};
use crate::api::GameData;
use crate::arith::{ceil_div, fits_i32, max_i32, max_int, min_i32, min_int};
use crate::flags::{GameState, StateView};
use crate::formulas::crafting::is_crafted_by;
use crate::optimize::skills::{level_in, skill_level, skill_xp_progress};
use crate::ranking::is_less;
use crate::text::same;
use crate::types::{BankItem, Character, CraftInfo, CraftIngredient, Item};

verus! {

/// Cheapest gold cost to obtain `qty` more of `code`: free bank stock first, then buying all of
/// the rest or crafting all of it, whichever is cheaper, with ingredients had the same way. The
/// ledger reflects the way taken; where the full quantity cannot be had, or a price leaves the
/// 32-bit range, there is no cost and the ledger is untouched. Recipes are followed as many
/// levels deep as there are items, which is as deep as recipes that do not go in circles can go.
pub fn cheapest_acquisition_cost(
    code: &str,
    qty: i32,
    data: &GameData,
    character: &Character,
    ledger: &mut Ledger,
) -> (r: Option<i32>)
    requires
        old(ledger).wf(),
    ensures
        final(ledger).wf(),
        match acquire(data.items@.len(), code@, qty as int, data.items@, *character, old(ledger)@) {
            Some((cost, l)) => r matches Some(c) && c == cost && final(ledger)@ == l,
            None => r is None && final(ledger)@ == old(ledger)@,
        },
{
    match cheapest_way(code, qty, &data.items, character, ledger) {
        Some((cost, l)) => {
            *ledger = l;
            Some(cost)
        },
        None => None,
    }
}

/// One committed upgrade: whom and which slot it is for, and what it costs to obtain.
#[derive(Debug)]
pub struct UpgradePurchase {
    pub char_name: String,
    pub slot: String,
    pub code: String,
    pub rating: i64,
    pub cost: i32,
}

/// A committed upgrade, as a mathematical value.
pub struct UpgradeView {
    pub step: StepView,
    pub cost: int,
}

impl View for UpgradePurchase {
    type V = UpgradeView;

    open spec fn view(&self) -> UpgradeView {
        UpgradeView {
            step: StepView {
                who: self.char_name@,
                slot: self.slot@,
                code: self.code@,
                rating: self.rating,
            },
            cost: self.cost as int,
        }
    }
}

/// Committed upgrades, as mathematical values.
pub open spec fn upgrade_views(purchases: Seq<UpgradePurchase>) -> Seq<UpgradeView> {
    purchases.map_values(|p: UpgradePurchase| p@)
}

/// How far the purchase of upgrades has come.
#[verifier::ext_equal]
pub struct Buying {
    pub ledger: LedgerView,
    pub budget: int,
    pub bought: Seq<UpgradeView>,
}

/// Whether a budget covers a cost.
pub open spec fn covers(budget: int, cost: int) -> bool {
    cost <= budget && fits_i32(budget - cost)
}

/// Whether a slot has been bought for.
pub open spec fn is_resolved(bought: Seq<UpgradeView>, step: StepView) -> bool {
    exists|i: int|
        0 <= i < bought.len() && (#[trigger] bought[i]).step.who == step.who && bought[i].step.slot
            == step.slot
}

/// One upgrade considered: bought if its slot is open and the budget covers its cheapest cost.
pub open spec fn buy_step(b: Buying, step: StepView, items: Seq<Item>, who: Character) -> Buying {
    if is_resolved(b.bought, step) {
        b
    } else {
        match acquire(items.len(), step.code, 1, items, who, b.ledger) {
            Some((cost, l)) => if covers(b.budget, cost) {
                Buying {
                    ledger: l,
                    budget: b.budget - cost,
                    bought: b.bought.push(UpgradeView { step, cost }),
                }
            } else {
                b
            },
            None => b,
        }
    }
}

/// The purchases after the first `n` upgrades.
pub open spec fn buy_steps(
    ledger: LedgerView,
    budget: int,
    steps: Seq<StepView>,
    n: int,
    items: Seq<Item>,
    who: Character,
) -> Buying
    decreases n,
{
    if n <= 0 {
        Buying { ledger, budget, bought: Seq::empty() }
    } else {
        buy_step(buy_steps(ledger, budget, steps, n - 1, items, who), steps[n - 1], items, who)
    }
}

fn resolved(bought: &[UpgradePurchase], step: &UpgradeStep) -> (r: bool)
    ensures
        r == is_resolved(upgrade_views(bought@), step@),
{
    let ghost views = upgrade_views(bought@);
    let mut i: usize = 0;
    while i < bought.len()
        invariant
            i <= bought@.len(),
            views == upgrade_views(bought@),
            forall|j: int|
                0 <= j < i ==> !((#[trigger] views[j]).step.who == step@.who && views[j].step.slot
                    == step@.slot),
        decreases bought@.len() - i,
    {
        assert(views[i as int] == bought@[i as int]@);
        if same(&bought[i].char_name, &step.char_name) && same(&bought[i].slot, &step.slot) {
            return true;
        }
        i += 1;
    }
    false
}

/// Plans purchases of gear upgrades, in one order of priority over all characters and slots. The
/// first alternative for a slot whose cheapest cost fits what is left of the budget is committed
/// and resolves the slot; one that is too dear leaves the slot open to a cheaper, lower-rated
/// alternative and the ledger untouched.
pub fn plan_upgrade_purchases(
    state: &GameState,
    character: &Character,
    ledger: &mut Ledger,
    gold_budget: &mut i32,
) -> (r: Vec<UpgradePurchase>)
    requires
        state.wf(),
        old(ledger).wf(),
    ensures
        final(ledger).wf(),
        ({
            let steps = upgrade_order(state@, false);
            let b = buy_steps(
                old(ledger)@,
                *old(gold_budget) as int,
                steps,
                steps.len() as int,
                state@.data.items@,
                *character,
            );
            &&& final(ledger)@ == b.ledger
            &&& *final(gold_budget) == b.budget
            &&& upgrade_views(r@) == b.bought
        }),
{
    let steps: Vec<UpgradeStep> = upgrade_steps(state, false);
    let items: &Vec<Item> = &state.data().items;
    let ghost views = step_views(steps@);
    let ghost l0 = ledger@;
    let ghost g0 = *gold_budget as int;
    let mut bought: Vec<UpgradePurchase> = Vec::new();
    let mut i: usize = 0;
    assert(upgrade_views(bought@) =~= Seq::empty());
    while i < steps.len()
        invariant
            i <= steps@.len(),
            views == step_views(steps@),
            ledger.wf(),
            ({
                let b = buy_steps(l0, g0, views, i as int, items@, *character);
                &&& ledger@ == b.ledger
                &&& *gold_budget == b.budget
                &&& upgrade_views(bought@) == b.bought
            }),
        decreases steps@.len() - i,
    {
        let step: &UpgradeStep = &steps[i];
        assert(views[i as int] == step@);
        if !resolved(&bought, step) {
            if let Some((cost, after)) = cheapest_way(&step.code, 1, items, character, ledger) {
                let left: i64 = *gold_budget as i64 - cost as i64;
                if cost <= *gold_budget && left <= i32::MAX as i64 {
                    *ledger = after;
                    *gold_budget = left as i32;
                    let ghost had = bought@;
                    bought.push(
                        UpgradePurchase {
                            char_name: step.char_name.clone(),
                            slot: step.slot.clone(),
                            code: step.code.clone(),
                            rating: step.rating,
                            cost,
                        },
                    );
                    assert(upgrade_views(bought@) =~= upgrade_views(had).push(bought@.last()@));
                }
            }
        }
        i += 1;
    }
    bought
}

/// How many units of `code` there are at one price: all of the bank's free stock where there is
/// any, else the cheapest tier that has anything left.
pub open spec fn flat_units(l: LedgerView, code: Seq<char>) -> int {
    if stock(l.bank, code) > 0 {
        stock(l.bank, code)
    } else if l.books.contains_key(code) {
        first_tier(l.books[code].tiers, 0)
    } else {
        0
    }
}

/// What is left in the first tier that has anything left, from place `from` on.
pub open spec fn first_tier(tiers: Seq<(i32, i32)>, from: int) -> int
    decreases tiers.len() - from,
{
    if from < 0 || from >= tiers.len() {
        0
    } else if tiers[from].1 > 0 {
        tiers[from].1 as int
    } else {
        first_tier(tiers, from + 1)
    }
}

/// How many crafts the first `n` ingredients allow before one of them changes its price; none
/// where none of them is used up.
pub open spec fn flat_crafts(l: LedgerView, ingredients: Seq<CraftIngredient>, n: int) -> Option<int>
    decreases n,
{
    if n <= 0 {
        None
    } else {
        let before = flat_crafts(l, ingredients, n - 1);
        let ing = ingredients[n - 1];
        if ing.quantity <= 0 {
            before
        } else {
            let here = flat_units(l, ing.code@) / ing.quantity as int;
            match before {
                Some(b) => Some(min_int(b, here)),
                None => Some(here),
            }
        }
    }
}

/// How many crafts can be bought for at the current price, at least one.
pub open spec fn batch_capacity(l: LedgerView, craft: CraftInfo) -> int {
    match flat_crafts(l, craft.items@, craft.items@.len() as int) {
        Some(n) => max_int(n, 1),
        None => 1,
    }
}

fn first_tier_left(book: &GEOrderBook) -> (r: i32)
    ensures
        r == first_tier(book@.tiers, 0),
        r >= 0,
{
    let mut i: usize = 0;
    while i < book.tiers.len()
        invariant
            i <= book.tiers@.len(),
            first_tier(book.tiers@, 0) == first_tier(book.tiers@, i as int),
        decreases book.tiers@.len() - i,
    {
        if book.tiers[i].1 > 0 {
            return book.tiers[i].1;
        }
        i += 1;
    }
    0
}

fn units_at_one_price(ledger: &Ledger, code: &str) -> (r: i32)
    requires
        ledger.wf(),
    ensures
        r == flat_units(ledger@, code@),
        r >= 0,
{
    let free: i32 = stock_of(&ledger.bank, code);
    if free > 0 {
        return free;
    }
    match ledger.market.books.get(code) {
        Some(book) => {
            assert(ledger@.books[code@] == book@);
            first_tier_left(book)
        },
        None => 0,
    }
}

/// The largest number of crafts whose ingredients cost exactly that many times what those of one
/// craft cost right now: before the free stock of an ingredient, or its cheapest tier, runs out.
/// Always at least 1.
pub fn batch_capacity_at_current_price(craft: &CraftInfo, ledger: &Ledger) -> (r: i32)
    requires
        ledger.wf(),
    ensures
        r == batch_capacity(ledger@, *craft),
        r >= 1,
{
    let mut best: Option<i32> = None;
    let mut i: usize = 0;
    while i < craft.items.len()
        invariant
            i <= craft.items@.len(),
            ledger.wf(),
            match best {
                Some(b) => flat_crafts(ledger@, craft.items@, i as int) == Some(b as int),
                None => flat_crafts(ledger@, craft.items@, i as int) is None,
            },
        decreases craft.items@.len() - i,
    {
        let ing: &CraftIngredient = &craft.items[i];
        if ing.quantity > 0 {
            let units: i32 = units_at_one_price(ledger, &ing.code);
            proof {
                crate::arith::lemma_quot_bound(units as int, ing.quantity as int);
            }
            let here: i32 = units / ing.quantity;
            best =
            match best {
                Some(b) => Some(min_i32(b, here)),
                None => Some(here),
            };
        }
        i += 1;
    }
    match best {
        Some(b) => max_i32(b, 1),
        None => 1,
    }
}

/// The most rounds a wishlist plan runs: each round buys all it can at the current prices, so this
/// is only ever approached through very many price changes.
pub const MAX_WISHLIST_PURCHASE_ROUNDS: u32 = 5000;

/// Crafts of one wishlist recipe that have been paid for, what they cost and what XP they give.
#[derive(Debug)]
pub struct WishlistPurchase {
    pub code: String,
    pub skill: String,
    pub crafts: i64,
    pub cost: i64,
    pub xp: i64,
}

/// Paid-for crafts, as a mathematical value.
pub struct WishView {
    pub code: Seq<char>,
    pub skill: Seq<char>,
    pub crafts: int,
    pub cost: int,
    pub xp: int,
}

impl View for WishlistPurchase {
    type V = WishView;

    open spec fn view(&self) -> WishView {
        WishView {
            code: self.code@,
            skill: self.skill@,
            crafts: self.crafts as int,
            cost: self.cost as int,
            xp: self.xp as int,
        }
    }
}

/// Paid-for crafts, as mathematical values.
pub open spec fn wish_views(purchases: Seq<WishlistPurchase>) -> Seq<WishView> {
    purchases.map_values(|p: WishlistPurchase| p@)
}

/// How far the purchase of wishlist ingredients has come.
#[verifier::ext_equal]
pub struct Wishing {
    pub ledger: LedgerView,
    pub budget: int,
    /// XP that each skill still lacks to its next tier; all recipes of a skill share it.
    pub gaps: Seq<int>,
    pub bought: Seq<WishView>,
}

/// A recipe to buy for: the skill, the item, what one craft costs and gives.
pub struct Pick {
    pub skill: int,
    pub item: int,
    pub cost: int,
    pub xp: int,
}

/// The recipe of an item that has one.
pub open spec fn recipe(item: Item) -> CraftInfo
    recommends
        item.craft is Some,
{
    item.craft->0
}

/// Whether `p` gives more XP for its gold than the best so far. A free craft counts as one gold.
pub open spec fn beats(p: Pick, best: Option<Pick>) -> bool {
    match best {
        None => true,
        Some(b) => b.xp * max_int(p.cost, 1) < p.xp * max_int(b.cost, 1),
    }
}

/// What one more craft of the `j`-th item would cost and give under the `k`-th skill; none where
/// it cannot be had within the budget.
pub open spec fn option_of(
    k: int,
    j: int,
    l: LedgerView,
    budget: int,
    items: Seq<Item>,
    xp: Seq<i32>,
    who: Character,
) -> Option<Pick> {
    let skill = WISHLIST_SKILLS@[k]@;
    if helps(items[j], xp[j] as int, skill, level_in(who, skill)) {
        match acquire_all(0, recipe(items[j]).items@, 1, items, who, l) {
            Some((cost, _)) => if covers(budget, cost) {
                Some(Pick { skill: k, item: j, cost, xp: xp[j] as int })
            } else {
                None
            },
            None => None,
        }
    } else {
        None
    }
}

/// The better of the best so far and one more option.
pub open spec fn better(best: Option<Pick>, p: Option<Pick>) -> Option<Pick> {
    match p {
        Some(q) => if beats(q, best) {
            p
        } else {
            best
        },
        None => best,
    }
}

/// The best option among `start` and the first `n` items under the `k`-th skill.
pub open spec fn best_in_skill(
    start: Option<Pick>,
    k: int,
    n: int,
    l: LedgerView,
    budget: int,
    items: Seq<Item>,
    xp: Seq<i32>,
    who: Character,
) -> Option<Pick>
    decreases n,
{
    if n <= 0 {
        start
    } else {
        better(
            best_in_skill(start, k, n - 1, l, budget, items, xp, who),
            option_of(k, n - 1, l, budget, items, xp, who),
        )
    }
}

/// The best option among the first `k` skills that still lack XP.
pub open spec fn best_option(
    w: Wishing,
    k: int,
    items: Seq<Item>,
    xp: Seq<i32>,
    who: Character,
) -> Option<Pick>
    decreases k,
{
    if k <= 0 {
        None
    } else {
        let before = best_option(w, k - 1, items, xp, who);
        if w.gaps[k - 1] > 0 {
            best_in_skill(
                before,
                k - 1,
                items.len() as int,
                w.ledger,
                w.budget,
                items,
                xp,
                who,
            )
        } else {
            before
        }
    }
}

/// How many crafts a round aims at: as many as the current price, the budget and the gap allow.
pub open spec fn batch_size(w: Wishing, p: Pick, items: Seq<Item>) -> int {
    let price_cap = batch_capacity(w.ledger, recipe(items[p.item]));
    let gold_cap = max_int(w.budget / max_int(p.cost, 1), 1);
    let xp_cap = min_int(max_int(ceil_div(w.gaps[p.skill], p.xp), 1), i32::MAX as int);
    max_int(min_int(min_int(price_cap, gold_cap), xp_cap), 1)
}

/// How many crafts a round buys, what they cost and the ledger they leave: the batch aimed at, or
/// a single craft where the budget does not cover that batch.
pub open spec fn round_buys(
    w: Wishing,
    p: Pick,
    items: Seq<Item>,
    who: Character,
) -> (int, int, LedgerView) {
    let ings = recipe(items[p.item]).items@;
    let n = batch_size(w, p, items);
    let one = acquire_all(0, ings, 1, items, who, w.ledger);
    match acquire_all(0, ings, n, items, who, w.ledger) {
        Some((cost, l)) => if covers(w.budget, cost) {
            (n, cost, l)
        } else {
            (1, one->Some_0.0, one->Some_0.1)
        },
        None => (1, one->Some_0.0, one->Some_0.1),
    }
}

/// The first purchase of `code`, from place `from` on.
pub open spec fn purchase_of(bought: Seq<WishView>, code: Seq<char>, from: int) -> Option<int>
    decreases bought.len() - from,
{
    if from < 0 || from >= bought.len() {
        None
    } else if bought[from].code == code {
        Some(from)
    } else {
        purchase_of(bought, code, from + 1)
    }
}

/// The purchases with one more; purchases of one item are added up.
pub open spec fn tallied(bought: Seq<WishView>, more: WishView) -> Seq<WishView> {
    match purchase_of(bought, more.code, 0) {
        Some(i) => bought.update(
            i,
            WishView {
                crafts: bought[i].crafts + more.crafts,
                cost: bought[i].cost + more.cost,
                xp: bought[i].xp + more.xp,
                ..bought[i]
            },
        ),
        None => bought.push(more),
    }
}

/// One round: the recipe that gives the most XP for its gold is bought for as often as it pays.
/// None where the gold is gone or nothing can be bought.
pub open spec fn wish_round(w: Wishing, items: Seq<Item>, xp: Seq<i32>, who: Character) -> Option<
    Wishing,
> {
    if w.budget <= 0 {
        None
    } else {
        match best_option(w, 4, items, xp, who) {
            None => None,
            Some(p) => {
                let (n, cost, l) = round_buys(w, p, items, who);
                Some(
                    Wishing {
                        ledger: l,
                        budget: w.budget - cost,
                        gaps: w.gaps.update(p.skill, w.gaps[p.skill] - p.xp * n),
                        bought: tallied(
                            w.bought,
                            WishView {
                                code: items[p.item].code@,
                                skill: WISHLIST_SKILLS@[p.skill]@,
                                crafts: n,
                                cost,
                                xp: p.xp * n,
                            },
                        ),
                    },
                )
            },
        }
    }
}

/// Rounds until nothing more can be bought, at most `rounds` of them.
pub open spec fn wish_rounds(
    w: Wishing,
    rounds: nat,
    items: Seq<Item>,
    xp: Seq<i32>,
    who: Character,
) -> Wishing
    decreases rounds,
{
    if rounds == 0 {
        w
    } else {
        match wish_round(w, items, xp, who) {
            Some(next) => wish_rounds(next, (rounds - 1) as nat, items, xp, who),
            None => w,
        }
    }
}

/// What each skill lacks to its next tier.
pub open spec fn starting_gaps(who: Character) -> Seq<int> {
    Seq::new(4, |k: int| skill_gap(who, WISHLIST_SKILLS@[k]@))
}

/// The place, cost and worth of a recipe to buy for.
#[derive(Clone, Copy)]
struct Choice {
    skill: usize,
    item: usize,
    cost: i32,
    xp: i32,
}

impl View for Choice {
    type V = Pick;

    closed spec fn view(&self) -> Pick {
        Pick {
            skill: self.skill as int,
            item: self.item as int,
            cost: self.cost as int,
            xp: self.xp as int,
        }
    }
}

spec fn choice_view(c: Option<Choice>) -> Option<Pick> {
    match c {
        Some(p) => Some(p@),
        None => None,
    }
}

/// A choice is one of the options: its item helps its skill and can be had within the budget.
spec fn is_option(
    c: Option<Choice>,
    gaps: Seq<i64>,
    l: LedgerView,
    budget: int,
    items: Seq<Item>,
    xp: Seq<i32>,
    who: Character,
) -> bool {
    c matches Some(p) ==> {
        &&& p.skill < 4
        &&& p.item < items.len()
        &&& gaps[p.skill as int] > 0
        &&& option_of(p.skill as int, p.item as int, l, budget, items, xp, who) == Some(p@)
    }
}

fn choose_in_skill(
    start: Option<Choice>,
    k: usize,
    gaps: Ghost<Seq<i64>>,
    ledger: &Ledger,
    budget: i32,
    items: &[Item],
    craft_xp: &[i32],
    who: &Character,
) -> (r: Option<Choice>)
    requires
        k < 4,
        ledger.wf(),
        craft_xp@.len() == items@.len(),
        gaps@.len() == 4,
        gaps@[k as int] > 0,
        is_option(start, gaps@, ledger@, budget as int, items@, craft_xp@, *who),
    ensures
        choice_view(r) == best_in_skill(
            choice_view(start),
            k as int,
            items@.len() as int,
            ledger@,
            budget as int,
            items@,
            craft_xp@,
            *who,
        ),
        is_option(r, gaps@, ledger@, budget as int, items@, craft_xp@, *who),
{
    let skills: [&'static str; 4] = WISHLIST_SKILLS;
    let skill: &'static str = skills[k];
    let level: i32 = skill_level(who, skill);
    let mut best: Option<Choice> = start;
    let mut j: usize = 0;
    while j < items.len()
        invariant
            j <= items@.len(),
            k < 4,
            skill@ == WISHLIST_SKILLS@[k as int]@,
            level == level_in(*who, skill@),
            ledger.wf(),
            craft_xp@.len() == items@.len(),
            gaps@.len() == 4,
            gaps@[k as int] > 0,
            is_option(best, gaps@, ledger@, budget as int, items@, craft_xp@, *who),
            choice_view(best) == best_in_skill(
                choice_view(start),
                k as int,
                j as int,
                ledger@,
                budget as int,
                items@,
                craft_xp@,
                *who,
            ),
        decreases items@.len() - j,
    {
        let mut option: Option<Choice> = None;
        if craft_xp[j] > 0 && is_crafted_by(&items[j], skill) && is_level_enough(&items[j], level) {
            if let Some(craft) = &items[j].craft {
                if let Some((cost, _)) = ingredients_for(craft, 1, items, who, ledger) {
                    if cost <= budget && budget as i64 - cost as i64 <= i32::MAX as i64 {
                        option = Some(Choice { skill: k, item: j, cost, xp: craft_xp[j] });
                    }
                }
            }
        }
        assert(choice_view(option) == option_of(
            k as int,
            j as int,
            ledger@,
            budget as int,
            items@,
            craft_xp@,
            *who,
        ));
        if let Some(p) = option {
            let wins: bool = match best {
                None => true,
                Some(b) => is_less(
                    (b.xp as i64, max_i32(b.cost, 1) as i64),
                    (p.xp as i64, max_i32(p.cost, 1) as i64),
                ),
            };
            if wins {
                best = Some(p);
            }
        }
        j += 1;
    }
    best
}

/// A list of gaps, as mathematical numbers.
spec fn gap_views(gaps: Seq<i64>) -> Seq<int> {
    gaps.map_values(|g: i64| g as int)
}

fn choose_recipe(
    gaps: &Vec<i64>,
    ledger: &Ledger,
    budget: i32,
    items: &[Item],
    craft_xp: &[i32],
    who: &Character,
    bought: Ghost<Seq<WishView>>,
) -> (r: Option<Choice>)
    requires
        gaps@.len() == 4,
        ledger.wf(),
        craft_xp@.len() == items@.len(),
    ensures
        choice_view(r) == best_option(
            (Wishing {
                ledger: ledger@,
                budget: budget as int,
                gaps: gap_views(gaps@),
                bought: bought@,
            }),
            4,
            items@,
            craft_xp@,
            *who,
        ),
        is_option(r, gaps@, ledger@, budget as int, items@, craft_xp@, *who),
{
    let ghost w = Wishing {
        ledger: ledger@,
        budget: budget as int,
        gaps: gap_views(gaps@),
        bought: bought@,
    };
    let mut best: Option<Choice> = None;
    let mut k: usize = 0;
    while k < 4
        invariant
            k <= 4,
            gaps@.len() == 4,
            ledger.wf(),
            craft_xp@.len() == items@.len(),
            w == (Wishing {
                ledger: ledger@,
                budget: budget as int,
                gaps: gap_views(gaps@),
                bought: bought@,
            }),
            choice_view(best) == best_option(w, k as int, items@, craft_xp@, *who),
            is_option(best, gaps@, ledger@, budget as int, items@, craft_xp@, *who),
        decreases 4 - k,
    {
        if gaps[k] > 0 {
            best = choose_in_skill(best, k, Ghost(gaps@), ledger, budget, items, craft_xp, who);
        }
        k += 1;
    }
    best
}

/// How many crafts a round aims at.
fn batch_for(p: Choice, gap: i64, craft: &CraftInfo, ledger: &Ledger, budget: i32) -> (r: i32)
    requires
        ledger.wf(),
        budget > 0,
        p.xp > 0,
        0 < gap < 0x2_0000_0000,
    ensures
        r == max_int(
            min_int(
                min_int(
                    batch_capacity(ledger@, *craft),
                    max_int(budget as int / max_int(p.cost as int, 1), 1),
                ),
                min_int(max_int(ceil_div(gap as int, p.xp as int), 1), i32::MAX as int),
            ),
            1,
        ),
        1 <= r <= max_int(ceil_div(gap as int, p.xp as int), 1),
{
    let price_cap: i32 = batch_capacity_at_current_price(craft, ledger);
    let unit: i32 = max_i32(p.cost, 1);
    proof {
        crate::arith::lemma_quot_bound(budget as int, unit as int);
    }
    let gold_cap: i32 = max_i32(budget / unit, 1);
    let n: i64 = (gap + p.xp as i64 - 1) / p.xp as i64;
    proof {
        let x = p.xp;
        assert(1 <= n <= gap) by (nonlinear_arith)
            requires
                n == (gap + x - 1) / x as int,
                x >= 1,
                gap >= 1,
        ;
    }
    let xp_cap: i32 = if n > i32::MAX as i64 {
        i32::MAX
    } else {
        n as i32
    };
    max_i32(min_i32(min_i32(price_cap, gold_cap), xp_cap), 1)
}

/// The tallies after `rounds` rounds are far from the edge of their range.
spec fn tallies_small(bought: Seq<WishlistPurchase>, rounds: int) -> bool {
    forall|i: int|
        0 <= i < bought.len() ==> {
            let b = 0x4_0000_0000 * rounds;
            &&& -b <= (#[trigger] bought[i]).crafts <= b
            &&& -b <= bought[i].cost <= b
            &&& -b <= bought[i].xp <= b
        }
}

fn tally(
    bought: &mut Vec<WishlistPurchase>,
    code: &str,
    skill: &str,
    crafts: i64,
    cost: i64,
    xp: i64,
    rounds: Ghost<int>,
)
    requires
        tallies_small(old(bought)@, rounds@),
        0 <= rounds@ < 5000,
        -0x4_0000_0000 <= crafts <= 0x4_0000_0000,
        -0x4_0000_0000 <= cost <= 0x4_0000_0000,
        -0x4_0000_0000 <= xp <= 0x4_0000_0000,
    ensures
        tallies_small(final(bought)@, rounds@ + 1),
        wish_views(final(bought)@) == tallied(
            wish_views(old(bought)@),
            (WishView {
                code: code@,
                skill: skill@,
                crafts: crafts as int,
                cost: cost as int,
                xp: xp as int,
            }),
        ),
{
    let ghost before = wish_views(bought@);
    let ghost more = WishView {
        code: code@,
        skill: skill@,
        crafts: crafts as int,
        cost: cost as int,
        xp: xp as int,
    };
    let mut i: usize = 0;
    while i < bought.len()
        invariant
            i <= bought@.len(),
            *bought == *old(bought),
            before == wish_views(bought@),
            more == (WishView {
                code: code@,
                skill: skill@,
                crafts: crafts as int,
                cost: cost as int,
                xp: xp as int,
            }),
            tallies_small(bought@, rounds@),
            0 <= rounds@ < 5000,
            -0x4_0000_0000 <= crafts <= 0x4_0000_0000,
            -0x4_0000_0000 <= cost <= 0x4_0000_0000,
            -0x4_0000_0000 <= xp <= 0x4_0000_0000,
            purchase_of(before, code@, 0) == purchase_of(before, code@, i as int),
        decreases bought@.len() - i,
    {
        assert(before[i as int] == bought@[i as int]@);
        if same(&bought[i].code, code) {
            let p: &WishlistPurchase = &bought[i];
            assert(bought@[i as int].crafts <= 0x4_0000_0000 * rounds@);
            let sum = WishlistPurchase {
                code: p.code.clone(),
                skill: p.skill.clone(),
                crafts: p.crafts + crafts,
                cost: p.cost + cost,
                xp: p.xp + xp,
            };
            bought.set(i, sum);
            assert(wish_views(bought@) =~= tallied(before, more));
            return ;
        }
        i += 1;
    }
    bought.push(
        WishlistPurchase { code: code.to_owned(), skill: skill.to_owned(), crafts, cost, xp },
    );
    assert(wish_views(bought@) =~= tallied(before, more));
}

/// Plans purchases of wishlist ingredients, free stock first and then the cheapest orders, so that
/// each gold piece gives as much crafting XP as possible and the budget is never exceeded. Only a
/// recipe's own ingredients are bought, never the finished item and never what its ingredients are
/// made of. Each round picks the recipe with the best ratio and buys for as many crafts of it as
/// fit at the current price. A skill is done once its gap to the next tier is closed by any mix of
/// its recipes. `craft_xp` gives, for each item, what one craft of it is worth to the character.
pub fn plan_wishlist_purchases(
    state: &GameState,
    character: &Character,
    craft_xp: &[i32],
    ledger: &mut Ledger,
    gold_budget: &mut i32,
) -> (r: Vec<WishlistPurchase>)
    requires
        state.wf(),
        old(ledger).wf(),
        craft_xp@.len() == state@.data.items@.len(),
    ensures
        final(ledger).wf(),
        ({
            let w = wish_rounds(
                Wishing {
                    ledger: old(ledger)@,
                    budget: *old(gold_budget) as int,
                    gaps: starting_gaps(*character),
                    bought: Seq::empty(),
                },
                MAX_WISHLIST_PURCHASE_ROUNDS as nat,
                state@.data.items@,
                craft_xp@,
                *character,
            );
            &&& final(ledger)@ == w.ledger
            &&& *final(gold_budget) == w.budget
            &&& wish_views(r@) == w.bought
        }),
{
    let items: &Vec<Item> = &state.data().items;
    let skills: [&'static str; 4] = WISHLIST_SKILLS;
    let mut gaps: Vec<i64> = Vec::new();
    let mut k: usize = 0;
    while k < 4
        invariant
            k <= 4,
            skills == WISHLIST_SKILLS,
            skills@.len() == 4,
            gaps@.len() == k,
            forall|i: int| 0 <= i < k ==> 0 <= #[trigger] gaps@[i] < 0x2_0000_0000,
            forall|i: int| 0 <= i < k ==> #[trigger] gaps@[i] == starting_gaps(*character)[i],
        decreases 4 - k,
    {
        let progress: (i32, i32, i32) = skill_xp_progress(character, skills[k]);
        gaps.push(xp_to_next_tier(progress.0, progress.1, progress.2));
        k += 1;
    }
    assert(gap_views(gaps@) =~= starting_gaps(*character));
    let mut bought: Vec<WishlistPurchase> = Vec::new();
    assert(wish_views(bought@) =~= Seq::empty());
    let ghost total = wish_rounds(
        Wishing {
            ledger: ledger@,
            budget: *gold_budget as int,
            gaps: starting_gaps(*character),
            bought: Seq::empty(),
        },
        MAX_WISHLIST_PURCHASE_ROUNDS as nat,
        items@,
        craft_xp@,
        *character,
    );
    let mut round: u32 = 0;
    while round < MAX_WISHLIST_PURCHASE_ROUNDS
        invariant_except_break
            total == wish_rounds(
                (Wishing {
                    ledger: ledger@,
                    budget: *gold_budget as int,
                    gaps: gap_views(gaps@),
                    bought: wish_views(bought@),
                }),
                (MAX_WISHLIST_PURCHASE_ROUNDS - round) as nat,
                items@,
                craft_xp@,
                *character,
            ),
        invariant
            round <= MAX_WISHLIST_PURCHASE_ROUNDS,
            skills == WISHLIST_SKILLS,
            skills@.len() == 4,
            items@ == state@.data.items@,
            craft_xp@.len() == items@.len(),
            ledger.wf(),
            gaps@.len() == 4,
            forall|i: int| 0 <= i < 4 ==> -0x8000_0000 <= #[trigger] gaps@[i] < 0x2_0000_0000,
            tallies_small(bought@, round as int),
        ensures
            ledger@ == total.ledger,
            *gold_budget == total.budget,
            wish_views(bought@) == total.bought,
        decreases MAX_WISHLIST_PURCHASE_ROUNDS - round,
    {
        let ghost w = Wishing {
            ledger: ledger@,
            budget: *gold_budget as int,
            gaps: gap_views(gaps@),
            bought: wish_views(bought@),
        };
        if *gold_budget <= 0 {
            assert(wish_round(w, items@, craft_xp@, *character) is None);
            break ;
        }
        let best: Option<Choice> = choose_recipe(
            &gaps,
            ledger,
            *gold_budget,
            items,
            craft_xp,
            character,
            Ghost(w.bought),
        );
        let p: Choice = match best {
            Some(p) => p,
            None => {
                assert(wish_round(w, items@, craft_xp@, *character) is None);
                break ;
            },
        };
        let craft: &CraftInfo = match &items[p.item].craft {
            Some(craft) => craft,
            None => {
                assert(false);
                break ;
            },
        };
        assert(*craft == recipe(items@[p.item as int]));
        let gap: i64 = gaps[p.skill];
        assert(w.gaps[p.skill as int] == gap);
        let batch: i32 = batch_for(p, gap, craft, ledger, *gold_budget);
        assert(batch == batch_size(w, p@, items@));
        let (n, cost, after): (i32, i32, Ledger) = buy_round(
            craft,
            batch,
            items,
            character,
            ledger,
            *gold_budget,
        );
        assert((n as int, cost as int, after@) == round_buys(w, p@, items@, *character));
        proof {
            let x = p.xp;
            let c = ceil_div(gap as int, x as int);
            assert(x * n < gap + x) by (nonlinear_arith)
                requires
                    n <= max_int(c, 1),
                    c == (gap + x - 1) / x as int,
                    x >= 1,
                    n >= 1,
                    gap >= 1,
            ;
            assert(x * n >= 1) by (nonlinear_arith)
                requires
                    x >= 1,
                    n >= 1,
            ;
        }
        let gained: i64 = p.xp as i64 * n as i64;
        *ledger = after;
        *gold_budget = *gold_budget - cost;
        let ghost old_gaps = gaps@;
        gaps.set(p.skill, gap - gained);
        assert(gap_views(gaps@) =~= w.gaps.update(p.skill as int, gap - gained));
        tally(
            &mut bought,
            &items[p.item].code,
            skills[p.skill],
            n as i64,
            cost as i64,
            gained,
            Ghost(round as int),
        );
        assert(wish_round(w, items@, craft_xp@, *character) == Some(
            Wishing {
                ledger: ledger@,
                budget: *gold_budget as int,
                gaps: gap_views(gaps@),
                bought: wish_views(bought@),
            },
        ));
        round += 1;
    }
    bought
}

/// How many crafts a round buys for, what they cost and the ledger they leave.
fn buy_round(
    craft: &CraftInfo,
    batch: i32,
    items: &[Item],
    who: &Character,
    ledger: &Ledger,
    budget: i32,
) -> (r: (i32, i32, Ledger))
    requires
        ledger.wf(),
        batch >= 1,
        acquire_all(0, craft.items@, 1, items@, *who, ledger@) matches Some((c, _)) && covers(
            budget as int,
            c,
        ),
    ensures
        r.2.wf(),
        1 <= r.0 <= batch,
        covers(budget as int, r.1 as int),
        ({
            let one = acquire_all(0, craft.items@, 1, items@, *who, ledger@);
            (r.0 as int, r.1 as int, r.2@) == (match acquire_all(
                0,
                craft.items@,
                batch as int,
                items@,
                *who,
                ledger@,
            ) {
                Some((cost, l)) => if covers(budget as int, cost) {
                    (batch as int, cost, l)
                } else {
                    (1int, one->Some_0.0, one->Some_0.1)
                },
                None => (1int, one->Some_0.0, one->Some_0.1),
            })
        }),
{
    if let Some((cost, after)) = ingredients_for(craft, batch, items, who, ledger) {
        if cost <= budget && budget as i64 - cost as i64 <= i32::MAX as i64 {
            return (batch, cost, after);
        }
    }
    match ingredients_for(craft, 1, items, who, ledger) {
        Some((cost, after)) => (1, cost, after),
        None => {
            assert(false);
            (1, 0, ledger.copied())
        },
    }
}

/// A purchase plan: the upgrades and the wishlist crafts it pays for, where the gold goes item by
/// item, and how much gold that is.
#[derive(Debug)]
pub struct GEPurchasePlan {
    pub upgrades: Vec<UpgradePurchase>,
    pub wishlist: Vec<WishlistPurchase>,
    /// (code, quantity, gold spent) for everything claimed from the exchange.
    pub market_purchases: Vec<(String, i32, i32)>,
    pub total_cost: i64,
}

/// The upgrades bought with all the gold.
pub open spec fn upgrades_bought(s: StateView, who: Character, ledger: LedgerView, gold: int) -> Buying {
    let steps = upgrade_order(s, false);
    buy_steps(ledger, gold, steps, steps.len() as int, s.data.items@, who)
}

/// The wishlist crafts bought with what the upgrades leave.
pub open spec fn wishes_bought(s: StateView, xp: Seq<i32>, who: Character, b: Buying) -> Wishing {
    wish_rounds(
        Wishing {
            ledger: b.ledger,
            budget: b.budget,
            gaps: starting_gaps(who),
            bought: Seq::empty(),
        },
        MAX_WISHLIST_PURCHASE_ROUNDS as nat,
        s.data.items@,
        xp,
        who,
    )
}

/// Plans purchases for the crafting character: first the highest-rated upgrades that can be had
/// for everyone, then as much crafting XP as the rest of the gold gives. `market` holds the sell
/// orders of every item that may matter.
pub fn plan_ge_purchases(
    state: &GameState,
    character: &Character,
    craft_xp: &[i32],
    market: GEMarket,
    available_gold: i32,
) -> (r: GEPurchasePlan)
    requires
        state.wf(),
        market.books.wf(),
        craft_xp@.len() == state@.data.items@.len(),
    ensures
        ({
            let ledger = LedgerView {
                bank: banked(state@.bank, state@.bank.len() as int),
                books: book_views(market.books@),
            };
            let b = upgrades_bought(state@, *character, ledger, available_gold as int);
            let w = wishes_bought(state@, craft_xp@, *character, b);
            &&& upgrade_views(r.upgrades@) == b.bought
            &&& wish_views(r.wishlist@) == w.bought
            &&& r.total_cost == available_gold - w.budget
            &&& exists|codes: Seq<Seq<char>>|
                {
                    &&& codes.no_duplicates()
                    &&& forall|c: Seq<char>| codes.contains(c) <==> #[trigger] w.ledger.books.contains_key(c)
                    &&& purchase_views(r.market_purchases@) == #[trigger] purchases_of(
                        w.ledger.books,
                        codes,
                        codes.len() as int,
                    )
                }
        }),
{
    let bank: Vec<BankItem> = state.bank_snapshot();
    let mut ledger = Ledger { bank: bank_supply(&bank), market };
    let ghost start = LedgerView {
        bank: banked(state@.bank, state@.bank.len() as int),
        books: book_views(market.books@),
    };
    assert(ledger@ =~= start);
    let mut budget: i32 = available_gold;
    let upgrades: Vec<UpgradePurchase> = plan_upgrade_purchases(
        state,
        character,
        &mut ledger,
        &mut budget,
    );
    let wishlist: Vec<WishlistPurchase> = plan_wishlist_purchases(
        state,
        character,
        craft_xp,
        &mut ledger,
        &mut budget,
    );
    let market_purchases: Vec<(String, i32, i32)> = ledger.market.purchases();
    let ghost b = upgrades_bought(state@, *character, start, available_gold as int);
    let ghost w = wishes_bought(state@, craft_xp@, *character, b);
    assert(upgrade_views(upgrades@) == b.bought);
    assert(wish_views(wishlist@) == w.bought);
    assert(budget == w.budget);
    assert(ledger@ == w.ledger);
    proof {
        ledger.market.books.lemma_keys();
        let codes = ledger.market.books.keys();
        assert forall|c: Seq<char>| codes.contains(c) <==> #[trigger] ledger@.books.contains_key(c) by {
            assert(ledger.market.books@.contains_key(c) == ledger@.books.contains_key(c));
        }
        assert(purchase_views(market_purchases@) == purchases_of(
            ledger@.books,
            codes,
            codes.len() as int,
        ));
    }
    GEPurchasePlan {
        upgrades,
        wishlist,
        market_purchases,
        total_cost: available_gold as i64 - budget as i64,
    }
}

} // verus!
