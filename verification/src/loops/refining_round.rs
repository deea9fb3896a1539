//! Refining, as rules: what to do next, given how the last step went.
//!
//! A gatherer refines what it has, topped up from the bank, batch by batch until only reserved
//! materials are left, and then deposits everything. It goes to the bank only where a batch needs
//! more than it holds or its bag is full.

use vstd::prelude::*;

use super::bank_ops::{deposit_views, is_at_bank, stands_at_bank};
use super::crafting_round::copy_stacks;
use super::gather::is_full;
use super::refining::{
    craft_views, plan_refining_batch, refining_batch, Batch, Means, RefiningPlan,
};
use crate::api::getters::is_inventory_full;
use crate::optimize::skills::{refining_skill, refining_skill_for};
use crate::optimize::targeting::{location_views, locations, locations_raw_for, Location};
use crate::table::Table;
use crate::types::{BankItem, Character, DepositItem, Item, MapTile};

verus! {

/// Where a gatherer refines, and with which skill: nowhere where its skill has nothing to refine,
/// or where there is no workshop for it.
pub fn refining_place(gather_skill: &str, maps: &[MapTile]) -> (r: Option<
    (&'static str, Vec<Location>),
>)
    ensures
        ({
            let skill = refining_skill(gather_skill@);
            let places = locations(maps@, "workshop"@, skill, maps@.len() as int);
            if skill.len() == 0 || places.len() == 0 {
                r is None
            } else {
                r matches Some((s, locs)) && s@ == skill && location_views(locs@) == places
            }
        }),
{
    let skill: &'static str = refining_skill_for(gather_skill);
    if skill.is_empty() {
        return None;
    }
    let locs: Vec<Location> = locations_raw_for(maps, "workshop", skill);
    assert(location_views(locs@).len() == locs@.len());
    if locs.len() == 0 {
        None
    } else {
        Some((skill, locs))
    }
}

/// The step that a refiner has just finished.
#[derive(Debug, Clone, Copy, PartialEq, Eq, Structural)]
pub enum RefineStep {
    /// It is about to plan a batch.
    Ready,
    /// It has emptied a full bag.
    Emptied,
    /// It has gone to the bank for a batch.
    AtBank,
    /// It has all that a batch needs.
    Loaded,
    /// It is at the workshop, and has made some of the batch.
    AtWorkshop,
    /// It has deposited everything after the last batch.
    Closed,
}

/// What a refiner does next.
#[derive(Debug)]
pub enum RefineOrder {
    /// Deposit all it carries.
    StoreAll,
    GoToBank,
    Withdraw(Vec<DepositItem>),
    /// Go to the nearest workshop.
    GoToWorkshop,
    Craft { code: String, quantity: i32 },
    Finish,
}

/// What a refiner does next, as a mathematical value.
pub enum RefineOrderView {
    StoreAll,
    GoToBank,
    Withdraw(Seq<(Seq<char>, int)>),
    GoToWorkshop,
    Craft { code: Seq<char>, quantity: int },
    Finish,
}

impl View for RefineOrder {
    type V = RefineOrderView;

    open spec fn view(&self) -> RefineOrderView {
        match *self {
            RefineOrder::StoreAll => RefineOrderView::StoreAll,
            RefineOrder::GoToBank => RefineOrderView::GoToBank,
            RefineOrder::Withdraw(items) => RefineOrderView::Withdraw(deposit_views(items@)),
            RefineOrder::GoToWorkshop => RefineOrderView::GoToWorkshop,
            RefineOrder::Craft { code, quantity } => RefineOrderView::Craft {
                code: code@,
                quantity: quantity as int,
            },
            RefineOrder::Finish => RefineOrderView::Finish,
        }
    }
}

/// Refining under way: the last step, the batch and how many of its recipes have been crafted.
#[derive(Debug)]
pub struct RefineRound {
    pub step: RefineStep,
    pub plan: RefiningPlan,
    pub made: usize,
}

/// Refining under way, as a mathematical value.
#[verifier::ext_equal]
pub struct RefineRoundView {
    pub step: RefineStep,
    pub crafts: Seq<(Seq<char>, int)>,
    pub withdraw: Seq<(Seq<char>, int)>,
    /// The reservations that held some of the batch back.
    pub reserved: Map<Seq<char>, i32>,
    pub made: int,
}

impl View for RefineRound {
    type V = RefineRoundView;

    open spec fn view(&self) -> RefineRoundView {
        RefineRoundView {
            step: self.step,
            crafts: craft_views(self.plan.crafts@),
            withdraw: deposit_views(self.plan.to_withdraw@),
            reserved: self.plan.reserved@,
            made: self.made as int,
        }
    }
}

impl RefineRoundView {
    /// No more has been crafted than the batch holds.
    pub open spec fn wf(self) -> bool {
        0 <= self.made <= self.crafts.len()
    }
}

/// What a refiner does with a fresh batch: nothing more where it is empty, else fetch what is
/// missing, and work.
pub open spec fn batch_rule(
    round: RefineRoundView,
    who: Character,
    batch: Batch,
) -> (RefineOrderView, RefineRoundView) {
    let fresh = RefineRoundView {
        step: round.step,
        crafts: batch.crafts,
        withdraw: batch.withdraw,
        reserved: batch.relevant,
        made: 0,
    };
    if batch.crafts.len() == 0 {
        (RefineOrderView::StoreAll, RefineRoundView { step: RefineStep::Closed, ..fresh })
    } else if batch.withdraw.len() == 0 {
        (RefineOrderView::GoToWorkshop, RefineRoundView { step: RefineStep::AtWorkshop, ..fresh })
    } else if stands_at_bank(who) {
        (
            RefineOrderView::Withdraw(batch.withdraw),
            RefineRoundView { step: RefineStep::Loaded, ..fresh },
        )
    } else {
        (RefineOrderView::GoToBank, RefineRoundView { step: RefineStep::AtBank, ..fresh })
    }
}

/// What a refiner does before a batch: a full bag is emptied first.
pub open spec fn ready_rule(
    round: RefineRoundView,
    who: Character,
    batch: Batch,
) -> (RefineOrderView, RefineRoundView) {
    if is_full(who) {
        (RefineOrderView::StoreAll, RefineRoundView { step: RefineStep::Emptied, ..round })
    } else {
        batch_rule(round, who, batch)
    }
}

/// The rules of refining; `batch` is the batch that would be planned now.
pub open spec fn refine_rule(
    round: RefineRoundView,
    who: Character,
    batch: Batch,
) -> (RefineOrderView, RefineRoundView) {
    match round.step {
        RefineStep::Ready => ready_rule(round, who, batch),
        RefineStep::Emptied => batch_rule(round, who, batch),
        RefineStep::AtBank => (
            RefineOrderView::Withdraw(round.withdraw),
            RefineRoundView { step: RefineStep::Loaded, ..round },
        ),
        RefineStep::Loaded => (
            RefineOrderView::GoToWorkshop,
            RefineRoundView { step: RefineStep::AtWorkshop, ..round },
        ),
        RefineStep::AtWorkshop => if round.made < round.crafts.len() {
            (
                RefineOrderView::Craft {
                    code: round.crafts[round.made].0,
                    quantity: round.crafts[round.made].1,
                },
                RefineRoundView { made: round.made + 1, ..round },
            )
        } else {
            ready_rule(round, who, batch)
        },
        RefineStep::Closed => (RefineOrderView::Finish, round),
    }
}

/// Whether a refiner plans its next batch now.
pub open spec fn plans_batch(round: RefineRoundView, who: Character) -> bool {
    match round.step {
        RefineStep::Ready => !is_full(who),
        RefineStep::Emptied => true,
        RefineStep::AtWorkshop => round.made >= round.crafts.len() && !is_full(who),
        _ => false,
    }
}

/// Starts refining.
pub fn start_refining() -> (r: RefineRound)
    ensures
        r@.wf(),
        r@ == (RefineRoundView {
            step: RefineStep::Ready,
            crafts: Seq::empty(),
            withdraw: Seq::empty(),
            reserved: Map::empty(),
            made: 0,
        }),
        r.plan.reserved.wf(),
{
    let r = RefineRound {
        step: RefineStep::Ready,
        plan: RefiningPlan { crafts: Vec::new(), to_withdraw: Vec::new(), reserved: Table::new() },
        made: 0,
    };
    assert(craft_views(r.plan.crafts@) =~= Seq::empty());
    assert(deposit_views(r.plan.to_withdraw@) =~= Seq::empty());
    r
}

/// The batch that would be planned for a character now.
pub open spec fn batch_now(
    items: Seq<Item>,
    bank: Seq<BankItem>,
    who: Character,
    reserved: Map<Seq<char>, i32>,
    skill: Seq<char>,
) -> Batch {
    refining_batch(
        items,
        Means {
            inventory: who.inventory@,
            bank,
            reserved,
            max_items: who.inventory_max_items as int,
        },
        who,
        skill,
    )
}

impl RefineRound {
    fn next_batch(
        &mut self,
        items: &[Item],
        bank: &[BankItem],
        character: &Character,
        reserved: &Table<i32>,
        skill: &str,
    ) -> (r: RefineOrder)
        requires
            old(self)@.wf(),
            reserved.wf(),
        ensures
            final(self)@.wf(),
            final(self).plan.reserved.wf(),
            (r@, final(self)@) == batch_rule(
                old(self)@,
                *character,
                batch_now(items@, bank@, *character, reserved@, skill@),
            ),
    {
        self.plan = plan_refining_batch(items, bank, character, reserved, skill);
        self.made = 0;
        assert(craft_views(self.plan.crafts@).len() == self.plan.crafts@.len());
        assert(deposit_views(self.plan.to_withdraw@).len() == self.plan.to_withdraw@.len());
        if self.plan.crafts.len() == 0 {
            self.step = RefineStep::Closed;
            RefineOrder::StoreAll
        } else if self.plan.to_withdraw.len() == 0 {
            self.step = RefineStep::AtWorkshop;
            RefineOrder::GoToWorkshop
        } else if is_at_bank(character) {
            self.step = RefineStep::Loaded;
            RefineOrder::Withdraw(copy_stacks(&self.plan.to_withdraw))
        } else {
            self.step = RefineStep::AtBank;
            RefineOrder::GoToBank
        }
    }

    /// What a refiner does next, given what the bank holds and what is reserved.
    pub fn next(
        &mut self,
        items: &[Item],
        bank: &[BankItem],
        character: &Character,
        reserved: &Table<i32>,
        skill: &str,
    ) -> (r: RefineOrder)
        requires
            old(self)@.wf(),
            reserved.wf(),
        ensures
            final(self)@.wf(),
            plans_batch(old(self)@, *character) || old(self).plan.reserved.wf()
                ==> final(self).plan.reserved.wf(),
            (r@, final(self)@) == refine_rule(
                old(self)@,
                *character,
                batch_now(items@, bank@, *character, reserved@, skill@),
            ),
    {
        match self.step {
            RefineStep::Ready => if is_inventory_full(character) {
                self.step = RefineStep::Emptied;
                RefineOrder::StoreAll
            } else {
                self.next_batch(items, bank, character, reserved, skill)
            },
            RefineStep::Emptied => self.next_batch(items, bank, character, reserved, skill),
            RefineStep::AtBank => {
                self.step = RefineStep::Loaded;
                RefineOrder::Withdraw(copy_stacks(&self.plan.to_withdraw))
            },
            RefineStep::Loaded => {
                self.step = RefineStep::AtWorkshop;
                RefineOrder::GoToWorkshop
            },
            RefineStep::AtWorkshop => if self.made < self.plan.crafts.len() {
                let i: usize = self.made;
                self.made = i + 1;
                RefineOrder::Craft {
                    code: self.plan.crafts[i].0.clone(),
                    quantity: self.plan.crafts[i].1,
                }
            } else if is_inventory_full(character) {
                self.step = RefineStep::Emptied;
                RefineOrder::StoreAll
            } else {
                self.next_batch(items, bank, character, reserved, skill)
            },
            RefineStep::Closed => RefineOrder::Finish,
        }
    }
}

/// A refiner withdraws only at the bank, where it stands or to which it has just gone, and crafts
/// only at a workshop that it has gone to with all that the batch needs; every recipe of a batch is
/// crafted once, in order, before the next batch is planned. Batch, withdrawal and reservations
/// change only where a batch is planned, and then all to those of the new batch.
pub proof fn law_batch_is_worked_off(round: RefineRoundView, who: Character, batch: Batch)
    requires
        round.wf(),
    ensures
        ({
            let (order, after) = refine_rule(round, who, batch);
            &&& after.wf()
            &&& order is Withdraw ==> stands_at_bank(who) || round.step is AtBank
            &&& after.step is AtBank ==> order is GoToBank
            &&& after.step is Loaded ==> order is Withdraw
            &&& order is Craft ==> round.step is AtWorkshop && after.made == round.made + 1
                && order->code == round.crafts[round.made].0
            &&& after.step is AtWorkshop && !(order is Craft) ==> order is GoToWorkshop
            &&& after.crafts != round.crafts && round.step is AtWorkshop ==> round.made
                == round.crafts.len()
            &&& if plans_batch(round, who) {
                after.crafts == batch.crafts && after.withdraw == batch.withdraw && after.reserved
                    == batch.relevant
            } else {
                after.crafts == round.crafts && after.withdraw == round.withdraw && after.reserved
                    == round.reserved
            }
        }),
{
}

/// Refining ends where no batch is left, and with everything deposited.
pub proof fn law_refining_ends_with_a_deposit(round: RefineRoundView, who: Character, batch: Batch)
    requires
        round.wf(),
    ensures
        ({
            let (order, after) = refine_rule(round, who, batch);
            &&& order is Finish <==> round.step is Closed
            &&& after.step is Closed && !(round.step is Closed) ==> order is StoreAll
                && batch.crafts.len() == 0
        }),
{
}

} // verus!
