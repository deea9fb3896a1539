//! One crafting trip, as rules: what to do next, given how the last step went.
//!
//! The crafter withdraws the materials, makes each planned item at the workshop of its skill, and
//! takes everything back to the bank before it plans the next trip.

use vstd::prelude::*;

use super::bank_ops::{
    deposit_views, gold_to_deposit, is_at_bank, stacks, stacks_to_deposit, stands_at_bank,
};
use super::crafting_exec::{final_views, CraftingTrip};
use crate::types::{Character, DepositItem};

verus! {

/// The step of a trip that a crafter has just finished.
#[derive(Debug, Clone, Copy, PartialEq, Eq, Structural)]
pub enum CraftStep {
    /// The trip has been planned.
    Planned,
    /// It has gone to the bank for the materials.
    AtBank,
    /// It has the materials, and has made some of the planned items.
    Loaded,
    /// It has gone to the workshop for the next item.
    AtWorkshop,
    /// It has gone back to the bank.
    BackAtBank,
    /// It has deposited what it made.
    Stored,
    /// It has deposited its gold.
    Paid,
}

/// What a crafter does next.
#[derive(Debug)]
pub enum CraftOrder {
    GoToBank,
    Withdraw(Vec<DepositItem>),
    /// Go to the nearest workshop for a skill.
    GoToWorkshop { skill: String },
    Craft { code: String, quantity: i32 },
    Store(Vec<DepositItem>),
    Pay { gold: i32 },
    /// The trip is over: plan the next one.
    Replan,
}

/// What a crafter does next, as a mathematical value.
pub enum CraftOrderView {
    GoToBank,
    Withdraw(Seq<(Seq<char>, int)>),
    GoToWorkshop { skill: Seq<char> },
    Craft { code: Seq<char>, quantity: int },
    Store(Seq<(Seq<char>, int)>),
    Pay { gold: i32 },
    Replan,
}

impl View for CraftOrder {
    type V = CraftOrderView;

    open spec fn view(&self) -> CraftOrderView {
        match *self {
            CraftOrder::GoToBank => CraftOrderView::GoToBank,
            CraftOrder::Withdraw(items) => CraftOrderView::Withdraw(deposit_views(items@)),
            CraftOrder::GoToWorkshop { skill } => CraftOrderView::GoToWorkshop { skill: skill@ },
            CraftOrder::Craft { code, quantity } => CraftOrderView::Craft {
                code: code@,
                quantity: quantity as int,
            },
            CraftOrder::Store(items) => CraftOrderView::Store(deposit_views(items@)),
            CraftOrder::Pay { gold } => CraftOrderView::Pay { gold },
            CraftOrder::Replan => CraftOrderView::Replan,
        }
    }
}

/// A trip under way: its last step, what was planned, and how many of the items have been made.
#[derive(Debug)]
pub struct CraftRound {
    pub step: CraftStep,
    pub trip: CraftingTrip,
    pub made: usize,
}

/// A trip under way, as a mathematical value.
#[verifier::ext_equal]
pub struct CraftRoundView {
    pub step: CraftStep,
    pub withdraw: Seq<(Seq<char>, int)>,
    pub plan: Seq<(Seq<char>, Seq<char>, int)>,
    pub made: int,
}

impl View for CraftRound {
    type V = CraftRoundView;

    open spec fn view(&self) -> CraftRoundView {
        CraftRoundView {
            step: self.step,
            withdraw: deposit_views(self.trip.withdraw@),
            plan: final_views(self.trip.plan@),
            made: self.made as int,
        }
    }
}

impl CraftRoundView {
    /// No more has been made than was planned, and there is an item left where the crafter has gone
    /// to a workshop for it.
    pub open spec fn wf(self) -> bool {
        &&& 0 <= self.made <= self.plan.len()
        &&& self.step is AtWorkshop ==> self.made < self.plan.len()
    }
}

/// The trip after an order that leads to a step.
pub open spec fn on_to(round: CraftRoundView, step: CraftStep) -> CraftRoundView {
    CraftRoundView { step, ..round }
}

/// What comes once everything is made and the crafter is back: items first, then gold.
pub open spec fn unloading_rule(
    round: CraftRoundView,
    who: Character,
) -> (CraftOrderView, CraftRoundView) {
    let items = stacks(who.inventory@, who.inventory@.len() as int);
    if items.len() > 0 && !(round.step is Stored) {
        (CraftOrderView::Store(items), on_to(round, CraftStep::Stored))
    } else if who.gold > 0 {
        (CraftOrderView::Pay { gold: who.gold }, on_to(round, CraftStep::Paid))
    } else {
        (CraftOrderView::Replan, on_to(round, CraftStep::Paid))
    }
}

/// The rules of a trip.
pub open spec fn craft_rule(
    round: CraftRoundView,
    who: Character,
) -> (CraftOrderView, CraftRoundView) {
    let fetch = (CraftOrderView::Withdraw(round.withdraw), on_to(round, CraftStep::Loaded));
    match round.step {
        CraftStep::Planned => if stands_at_bank(who) {
            fetch
        } else {
            (CraftOrderView::GoToBank, on_to(round, CraftStep::AtBank))
        },
        CraftStep::AtBank => fetch,
        CraftStep::Loaded => if round.made < round.plan.len() {
            (
                CraftOrderView::GoToWorkshop { skill: round.plan[round.made].1 },
                on_to(round, CraftStep::AtWorkshop),
            )
        } else if stands_at_bank(who) {
            unloading_rule(round, who)
        } else {
            (CraftOrderView::GoToBank, on_to(round, CraftStep::BackAtBank))
        },
        CraftStep::AtWorkshop => (
            CraftOrderView::Craft {
                code: round.plan[round.made].0,
                quantity: round.plan[round.made].2,
            },
            CraftRoundView { step: CraftStep::Loaded, made: round.made + 1, ..round },
        ),
        CraftStep::BackAtBank => unloading_rule(round, who),
        CraftStep::Stored => unloading_rule(round, who),
        CraftStep::Paid => (CraftOrderView::Replan, round),
    }
}

/// Sets out on a trip.
pub fn start_trip(trip: CraftingTrip) -> (r: CraftRound)
    ensures
        r@.wf(),
        r@ == (CraftRoundView {
            step: CraftStep::Planned,
            withdraw: deposit_views(trip.withdraw@),
            plan: final_views(trip.plan@),
            made: 0,
        }),
{
    CraftRound { step: CraftStep::Planned, trip, made: 0 }
}

/// A copy of a list of stacks.
pub fn copy_stacks(items: &Vec<DepositItem>) -> (r: Vec<DepositItem>)
    ensures
        deposit_views(r@) == deposit_views(items@),
{
    let ghost target = deposit_views(items@);
    let mut out: Vec<DepositItem> = Vec::new();
    let mut i: usize = 0;
    assert(deposit_views(out@) =~= target.take(0));
    while i < items.len()
        invariant
            i <= items@.len(),
            target == deposit_views(items@),
            deposit_views(out@) == target.take(i as int),
        decreases items@.len() - i,
    {
        let ghost had = out@;
        out.push(DepositItem { code: items[i].code.clone(), quantity: items[i].quantity });
        assert(deposit_views(out@) =~= deposit_views(had).push(target[i as int]));
        i += 1;
        assert(target.take(i as int) =~= target.take(i - 1).push(target[i - 1]));
    }
    assert(target.take(i as int) =~= target);
    out
}

impl CraftRound {
    fn next_unloading(&mut self, character: &Character) -> (r: CraftOrder)
        requires
            old(self)@.wf(),
        ensures
            final(self)@.wf(),
            (r@, final(self)@) == unloading_rule(old(self)@, *character),
    {
        let items: Vec<DepositItem> = stacks_to_deposit(&character.inventory);
        assert(deposit_views(items@).len() == items@.len());
        let unloaded: bool = match self.step {
            CraftStep::Stored => true,
            _ => false,
        };
        if items.len() > 0 && !unloaded {
            self.step = CraftStep::Stored;
            CraftOrder::Store(items)
        } else {
            self.step = CraftStep::Paid;
            match gold_to_deposit(character) {
                Some(gold) => CraftOrder::Pay { gold },
                None => CraftOrder::Replan,
            }
        }
    }

    /// What the crafter does next.
    pub fn next(&mut self, character: &Character) -> (r: CraftOrder)
        requires
            old(self)@.wf(),
        ensures
            final(self)@.wf(),
            (r@, final(self)@) == craft_rule(old(self)@, *character),
    {
        match self.step {
            CraftStep::Planned => if is_at_bank(character) {
                self.step = CraftStep::Loaded;
                CraftOrder::Withdraw(copy_stacks(&self.trip.withdraw))
            } else {
                self.step = CraftStep::AtBank;
                CraftOrder::GoToBank
            },
            CraftStep::AtBank => {
                self.step = CraftStep::Loaded;
                CraftOrder::Withdraw(copy_stacks(&self.trip.withdraw))
            },
            CraftStep::Loaded => if self.made < self.trip.plan.len() {
                self.step = CraftStep::AtWorkshop;
                CraftOrder::GoToWorkshop { skill: self.trip.plan[self.made].skill.clone() }
            } else if is_at_bank(character) {
                self.next_unloading(character)
            } else {
                self.step = CraftStep::BackAtBank;
                CraftOrder::GoToBank
            },
            CraftStep::AtWorkshop => {
                let i: usize = self.made;
                assert(i < self.trip.plan.len());
                self.made = i + 1;
                self.step = CraftStep::Loaded;
                CraftOrder::Craft {
                    code: self.trip.plan[i].code.clone(),
                    quantity: self.trip.plan[i].quantity,
                }
            },
            CraftStep::BackAtBank => self.next_unloading(character),
            CraftStep::Stored => self.next_unloading(character),
            CraftStep::Paid => CraftOrder::Replan,
        }
    }
}

/// How far a trip is from its end.
pub open spec fn trip_steps_left(round: CraftRoundView) -> int {
    let items = 2 * (round.plan.len() - round.made);
    match round.step {
        CraftStep::Planned => items + 6,
        CraftStep::AtBank => items + 5,
        CraftStep::Loaded => items + 4,
        CraftStep::AtWorkshop => items + 3,
        CraftStep::BackAtBank => 3,
        CraftStep::Stored => 2,
        CraftStep::Paid => 1,
    }
}

/// Every order brings a trip closer to its end.
pub proof fn law_trip_ends(round: CraftRoundView, who: Character)
    requires
        round.wf(),
    ensures
        craft_rule(round, who).1.wf(),
        craft_rule(round, who).0 is Replan || 0 <= trip_steps_left(craft_rule(round, who).1)
            < trip_steps_left(round),
{
}

/// Every planned item is made exactly once, in order, and each at a workshop for its skill; the
/// crafter deposits nothing before all are made.
pub proof fn law_every_item_is_made(round: CraftRoundView, who: Character)
    requires
        round.wf(),
        round.step is BackAtBank || round.step is Stored || round.step is Paid ==> round.made
            == round.plan.len(),
    ensures
        ({
            let (order, after) = craft_rule(round, who);
            &&& after.plan == round.plan
            &&& match order {
                CraftOrderView::Craft { code, quantity } => {
                    &&& round.step is AtWorkshop
                    &&& (code, quantity) == (round.plan[round.made].0, round.plan[round.made].2)
                    &&& after.made == round.made + 1
                },
                _ => after.made == round.made,
            }
            &&& after.step is AtWorkshop ==> order is GoToWorkshop && order->skill
                == round.plan[round.made].1
            &&& order is Store || order is Pay || order is Replan ==> round.made
                == round.plan.len()
            &&& after.step is BackAtBank || after.step is Stored || after.step is Paid
                ==> after.made == round.plan.len()
        }),
{
}

/// The crafter withdraws and deposits only at the bank, where it stands or to which it has just
/// gone.
pub proof fn law_trades_at_the_bank(round: CraftRoundView, who: Character)
    requires
        round.wf(),
    ensures
        ({
            let (order, after) = craft_rule(round, who);
            &&& order is Withdraw ==> stands_at_bank(who) || round.step is AtBank
            &&& order is Store ==> stands_at_bank(who) || round.step is BackAtBank
            &&& after.step is AtBank || after.step is BackAtBank ==> order is GoToBank
        }),
{
}

} // verus!
