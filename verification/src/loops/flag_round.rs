//! One round of acting on flags, as rules: what to do next, given how the last step went.
//!
//! All upgrades that wait are put on in a single trip to the bank, after which the character finds
//! its target anew. Every other flag is then acted on at the bank, in the order in which the flags
//! came. Where no upgrade has sent the character elsewhere, it goes back to where it was.

use vstd::prelude::*;

use super::bank_ops::{deposit_views, is_at_bank, stands_at_bank};
use super::flag_handling::{
    equip_bodies, must_return, one_each, record_upgrades, recorded, slots_to_clear, split_flags,
    unequip_bodies, unequip_views, upgrade_pairs, upgrade_withdrawals, upgrades_in, others_in,
    withdrawals_for, Upgrade,
};
use super::utility::equip_views;
use crate::flags::{flag_views, Flag, FlagView, GameState};
use crate::types::{Character, DepositItem, EquipBody, UnequipBody};

verus! {

/// The step of a round that a character has just finished.
#[derive(Debug, Clone, Copy, PartialEq, Eq, Structural)]
pub enum FlagStep {
    /// The flags have been taken from the queue.
    Drained,
    /// It has deposited all it carried.
    Stored,
    /// It has taken off what the upgrades replace.
    Stripped,
    /// It has withdrawn the upgrades.
    Fetched,
    /// It has put them on.
    Worn,
    /// It is done with the upgrades and with some of the other flags.
    Between,
    /// It has gone to the bank for the next flag.
    AtBank,
    /// It has gone back to where it was.
    Back,
}

/// What a character does next.
#[derive(Debug)]
pub enum FlagOrder {
    /// Deposit all it carries.
    StoreAll,
    TakeOff(Vec<UnequipBody>),
    Withdraw(Vec<DepositItem>),
    PutOn(Vec<EquipBody>),
    /// Find the target anew, with the upgrades on.
    Reposition,
    GoToBank,
    /// Act on the flag at this place among the others.
    Act(usize),
    GoBack { x: i32, y: i32 },
    Finish,
}

/// What a character does next, as a mathematical value.
pub enum FlagOrderView {
    StoreAll,
    TakeOff(Seq<(Seq<char>, int)>),
    Withdraw(Seq<(Seq<char>, int)>),
    PutOn(Seq<(Seq<char>, Seq<char>, int)>),
    Reposition,
    GoToBank,
    Act(int),
    GoBack { x: i32, y: i32 },
    Finish,
}

impl View for FlagOrder {
    type V = FlagOrderView;

    open spec fn view(&self) -> FlagOrderView {
        match *self {
            FlagOrder::StoreAll => FlagOrderView::StoreAll,
            FlagOrder::TakeOff(bodies) => FlagOrderView::TakeOff(unequip_views(bodies@)),
            FlagOrder::Withdraw(items) => FlagOrderView::Withdraw(deposit_views(items@)),
            FlagOrder::PutOn(bodies) => FlagOrderView::PutOn(equip_views(bodies@)),
            FlagOrder::Reposition => FlagOrderView::Reposition,
            FlagOrder::GoToBank => FlagOrderView::GoToBank,
            FlagOrder::Act(i) => FlagOrderView::Act(i as int),
            FlagOrder::GoBack { x, y } => FlagOrderView::GoBack { x, y },
            FlagOrder::Finish => FlagOrderView::Finish,
        }
    }
}

/// A round: its last step, the upgrades, the other flags and how many of them have been acted on,
/// where the character was, and whether it has found its target anew.
#[derive(Debug)]
pub struct FlagRound {
    pub step: FlagStep,
    pub upgrades: Vec<Upgrade>,
    pub others: Vec<Flag>,
    pub acted: usize,
    pub x: i32,
    pub y: i32,
    pub repositioned: bool,
}

/// A round, as a mathematical value.
#[verifier::ext_equal]
pub struct FlagRoundView {
    pub step: FlagStep,
    pub upgrades: Seq<(Seq<char>, Seq<char>)>,
    pub others: Seq<FlagView>,
    pub acted: int,
    pub x: i32,
    pub y: i32,
    pub repositioned: bool,
}

impl View for FlagRound {
    type V = FlagRoundView;

    open spec fn view(&self) -> FlagRoundView {
        FlagRoundView {
            step: self.step,
            upgrades: upgrade_pairs(self.upgrades@),
            others: flag_views(self.others@),
            acted: self.acted as int,
            x: self.x,
            y: self.y,
            repositioned: self.repositioned,
        }
    }
}

impl FlagRoundView {
    /// No more flags have been acted on than there are, and there is one left where the character
    /// has gone to the bank for it.
    pub open spec fn wf(self) -> bool {
        &&& 0 <= self.acted <= self.others.len()
        &&& self.step is AtBank ==> self.acted < self.others.len()
    }
}

/// The round after an order that leads to a step.
pub open spec fn led_to(round: FlagRoundView, step: FlagStep) -> FlagRoundView {
    FlagRoundView { step, ..round }
}

/// What comes once the upgrades are on: the other flags, each at the bank, then the way back.
pub open spec fn other_rule(round: FlagRoundView, who: Character) -> (FlagOrderView, FlagRoundView) {
    if round.acted < round.others.len() {
        if stands_at_bank(who) || round.step is AtBank {
            (
                FlagOrderView::Act(round.acted),
                FlagRoundView { step: FlagStep::Between, acted: round.acted + 1, ..round },
            )
        } else {
            (FlagOrderView::GoToBank, led_to(round, FlagStep::AtBank))
        }
    } else if !round.repositioned && (who.x != round.x || who.y != round.y) {
        (FlagOrderView::GoBack { x: round.x, y: round.y }, led_to(round, FlagStep::Back))
    } else {
        (FlagOrderView::Finish, led_to(round, FlagStep::Back))
    }
}

/// The rules of a round.
pub open spec fn flag_rule(round: FlagRoundView, who: Character) -> (FlagOrderView, FlagRoundView) {
    let n = round.upgrades.len() as int;
    let fetch = FlagOrderView::Withdraw(withdrawals_for(round.upgrades, n));
    match round.step {
        FlagStep::Drained => if n > 0 {
            (FlagOrderView::StoreAll, led_to(round, FlagStep::Stored))
        } else {
            other_rule(round, who)
        },
        FlagStep::Stored => {
            let cleared = slots_to_clear(who, round.upgrades, n);
            if cleared.len() > 0 {
                (FlagOrderView::TakeOff(one_each(cleared)), led_to(round, FlagStep::Stripped))
            } else {
                (fetch, led_to(round, FlagStep::Fetched))
            }
        },
        FlagStep::Stripped => (fetch, led_to(round, FlagStep::Fetched)),
        FlagStep::Fetched => (
            FlagOrderView::PutOn(
                round.upgrades.map_values(|u: (Seq<char>, Seq<char>)| (u.0, u.1, 1int)),
            ),
            led_to(round, FlagStep::Worn),
        ),
        FlagStep::Worn => (
            FlagOrderView::Reposition,
            FlagRoundView { step: FlagStep::Between, repositioned: true, ..round },
        ),
        FlagStep::Between => other_rule(round, who),
        FlagStep::AtBank => other_rule(round, who),
        FlagStep::Back => (FlagOrderView::Finish, round),
    }
}

/// Starts a round with the flags that wait for a character.
pub fn start_round(pending: Vec<Flag>, character: &Character) -> (r: FlagRound)
    ensures
        r@.wf(),
        r@ == (FlagRoundView {
            step: FlagStep::Drained,
            upgrades: upgrades_in(flag_views(pending@), pending@.len() as int),
            others: others_in(flag_views(pending@), pending@.len() as int),
            acted: 0,
            x: character.x,
            y: character.y,
            repositioned: false,
        }),
{
    let (upgrades, others) = split_flags(pending);
    FlagRound {
        step: FlagStep::Drained,
        upgrades,
        others,
        acted: 0,
        x: character.x,
        y: character.y,
        repositioned: false,
    }
}

impl FlagRound {
    fn next_other(&mut self, character: &Character) -> (r: FlagOrder)
        requires
            old(self)@.wf(),
        ensures
            final(self)@.wf(),
            (r@, final(self)@) == other_rule(old(self)@, *character),
    {
        if self.acted < self.others.len() {
            let there: bool = match self.step {
                FlagStep::AtBank => true,
                _ => is_at_bank(character),
            };
            if there {
                let i: usize = self.acted;
                self.acted = i + 1;
                self.step = FlagStep::Between;
                FlagOrder::Act(i)
            } else {
                self.step = FlagStep::AtBank;
                FlagOrder::GoToBank
            }
        } else {
            self.step = FlagStep::Back;
            if must_return(self.repositioned, character, self.x, self.y) {
                FlagOrder::GoBack { x: self.x, y: self.y }
            } else {
                FlagOrder::Finish
            }
        }
    }

    /// What the character does next. Once the upgrades are on, they are recorded as worn, so that
    /// a spare copy in the bank is not flagged again.
    pub fn next(&mut self, character: &Character, state: &mut GameState, name: &str) -> (r:
        FlagOrder)
        requires
            old(self)@.wf(),
            old(state).wf(),
        ensures
            final(self)@.wf(),
            final(state).wf(),
            (r@, final(self)@) == flag_rule(old(self)@, *character),
            final(state)@ == if old(self)@.step is Worn {
                recorded(
                    old(state)@,
                    name@,
                    old(self)@.upgrades,
                    old(self)@.upgrades.len() as int,
                )
            } else {
                old(state)@
            },
    {
        let ghost before = self@;
        match self.step {
            FlagStep::Drained => if self.upgrades.len() > 0 {
                self.step = FlagStep::Stored;
                FlagOrder::StoreAll
            } else {
                self.next_other(character)
            },
            FlagStep::Stored => {
                let bodies: Vec<UnequipBody> = unequip_bodies(character, &self.upgrades);
                assert(unequip_views(bodies@).len() == bodies@.len());
                if bodies.len() > 0 {
                    self.step = FlagStep::Stripped;
                    FlagOrder::TakeOff(bodies)
                } else {
                    self.step = FlagStep::Fetched;
                    FlagOrder::Withdraw(upgrade_withdrawals(&self.upgrades))
                }
            },
            FlagStep::Stripped => {
                self.step = FlagStep::Fetched;
                FlagOrder::Withdraw(upgrade_withdrawals(&self.upgrades))
            },
            FlagStep::Fetched => {
                self.step = FlagStep::Worn;
                FlagOrder::PutOn(equip_bodies(&self.upgrades))
            },
            FlagStep::Worn => {
                record_upgrades(state, name, &self.upgrades);
                self.step = FlagStep::Between;
                self.repositioned = true;
                FlagOrder::Reposition
            },
            FlagStep::Between => self.next_other(character),
            FlagStep::AtBank => self.next_other(character),
            FlagStep::Back => FlagOrder::Finish,
        }
    }
}

/// How far a round is from its end.
pub open spec fn orders_left(round: FlagRoundView) -> int {
    match round.step {
        FlagStep::Drained => 2 * (round.others.len() - round.acted) + 7,
        FlagStep::Stored => 2 * (round.others.len() - round.acted) + 6,
        FlagStep::Stripped => 2 * (round.others.len() - round.acted) + 5,
        FlagStep::Fetched => 2 * (round.others.len() - round.acted) + 4,
        FlagStep::Worn => 2 * (round.others.len() - round.acted) + 3,
        FlagStep::Between => 2 * (round.others.len() - round.acted) + 2,
        FlagStep::AtBank => 2 * (round.others.len() - round.acted) + 1,
        FlagStep::Back => 0,
    }
}

/// Every order brings a round closer to its end.
pub proof fn law_round_ends(round: FlagRoundView, who: Character)
    requires
        round.wf(),
    ensures
        flag_rule(round, who).1.wf(),
        flag_rule(round, who).0 is Finish || 0 <= orders_left(flag_rule(round, who).1)
            < orders_left(round),
{
}

/// Every other flag is acted on exactly once, in order and at the bank, and the round does not end
/// before: an order to act is for the first flag that has not been acted on, and comes only where
/// the character stands at the bank or has just gone there.
pub proof fn law_every_flag_is_acted_on(round: FlagRoundView, who: Character)
    requires
        round.wf(),
    ensures
        ({
            let (order, after) = flag_rule(round, who);
            &&& after.others == round.others
            &&& match order {
                FlagOrderView::Act(i) => {
                    &&& i == round.acted
                    &&& after.acted == i + 1
                    &&& stands_at_bank(who) || round.step is AtBank
                },
                _ => after.acted == round.acted,
            }
            &&& after.step is AtBank ==> order is GoToBank
            &&& after.step is Back && !(round.step is Back) ==> after.acted == round.others.len()
        }),
{
}

/// An upgrade is put on only after it has been withdrawn, and withdrawn only after its slot has
/// been cleared: the steps of the trip come in this order and none is left out.
pub proof fn law_upgrades_go_on_in_order(round: FlagRoundView, who: Character)
    requires
        round.wf(),
    ensures
        ({
            let (order, after) = flag_rule(round, who);
            &&& order is PutOn ==> round.step is Fetched
            &&& after.step is Fetched ==> order is Withdraw
            &&& order is Withdraw ==> round.step is Stripped || (round.step is Stored
                && slots_to_clear(who, round.upgrades, round.upgrades.len() as int).len() == 0)
            &&& after.step is Stripped ==> order is TakeOff
            &&& order is TakeOff ==> round.step is Stored
            &&& after.step is Stored ==> order is StoreAll
            &&& after.repositioned && !round.repositioned ==> order is Reposition && round.step
                is Worn
            &&& after.step is Worn ==> order is PutOn
        }),
{
}

} // verus!
