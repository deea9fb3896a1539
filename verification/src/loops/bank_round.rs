//! A trip to the bank to deposit what a character carries, as rules: what to do next, given how the
//! last step went.

use vstd::prelude::*;

use super::bank_ops::{
    deposit_views, gold_to_deposit, is_at_bank, stacks, stacks_to_deposit, stands_at_bank,
};
use super::crafting_round::copy_stacks;
use crate::types::{Character, DepositItem};

verus! {

/// The step of a trip that a character has just finished.
#[derive(Debug, Clone, Copy, PartialEq, Eq, Structural)]
pub enum BankStep {
    /// It is about to set out.
    Ready,
    /// It has gone to the bank.
    AtBank,
    /// It has deposited its items.
    Stored,
    /// It has deposited its gold.
    Paid,
    /// It has gone back, or there is nothing to do.
    Over,
}

/// What a character does next.
#[derive(Debug)]
pub enum BankOrder {
    GoToBank,
    Store(Vec<DepositItem>),
    Pay { gold: i32 },
    GoBack { x: i32, y: i32 },
    Finish,
}

/// What a character does next, as a mathematical value.
pub enum BankOrderView {
    GoToBank,
    Store(Seq<(Seq<char>, int)>),
    Pay { gold: i32 },
    GoBack { x: i32, y: i32 },
    Finish,
}

impl View for BankOrder {
    type V = BankOrderView;

    open spec fn view(&self) -> BankOrderView {
        match *self {
            BankOrder::GoToBank => BankOrderView::GoToBank,
            BankOrder::Store(items) => BankOrderView::Store(deposit_views(items@)),
            BankOrder::Pay { gold } => BankOrderView::Pay { gold },
            BankOrder::GoBack { x, y } => BankOrderView::GoBack { x, y },
            BankOrder::Finish => BankOrderView::Finish,
        }
    }
}

/// A trip under way: its last step, what the character set out with, and where it goes back to.
#[derive(Debug)]
pub struct BankRound {
    pub step: BankStep,
    pub items: Vec<DepositItem>,
    pub home: Option<(i32, i32)>,
}

/// A trip under way, as a mathematical value.
#[verifier::ext_equal]
pub struct BankRoundView {
    pub step: BankStep,
    pub items: Seq<(Seq<char>, int)>,
    pub home: Option<(i32, i32)>,
}

impl View for BankRound {
    type V = BankRoundView;

    open spec fn view(&self) -> BankRoundView {
        BankRoundView { step: self.step, items: deposit_views(self.items@), home: self.home }
    }
}

/// What comes once the gold is deposited: the way back, where there is one.
pub open spec fn homeward_rule(round: BankRoundView) -> (BankOrderView, BankRoundView) {
    let over = BankRoundView { step: BankStep::Over, ..round };
    match round.home {
        Some((x, y)) => (BankOrderView::GoBack { x, y }, over),
        None => (BankOrderView::Finish, over),
    }
}

/// What comes once the items are deposited: the gold, where there is any.
pub open spec fn gold_rule(round: BankRoundView, who: Character) -> (BankOrderView, BankRoundView) {
    if who.gold > 0 {
        (
            BankOrderView::Pay { gold: who.gold },
            BankRoundView { step: BankStep::Paid, ..round },
        )
    } else {
        homeward_rule(round)
    }
}

/// What comes at the bank: the items, where there are any.
pub open spec fn items_rule(round: BankRoundView, who: Character) -> (BankOrderView, BankRoundView) {
    if round.items.len() > 0 {
        (BankOrderView::Store(round.items), BankRoundView { step: BankStep::Stored, ..round })
    } else {
        gold_rule(round, who)
    }
}

/// The rules of a trip. A character that does not have to go back sets out only where it has
/// something to deposit, and goes to the bank only where it is not there; one that has to go back
/// has been sent.
pub open spec fn bank_rule(round: BankRoundView, who: Character) -> (BankOrderView, BankRoundView) {
    match round.step {
        BankStep::Ready => if round.home is None && round.items.len() == 0 && who.gold <= 0 {
            (BankOrderView::Finish, BankRoundView { step: BankStep::Over, ..round })
        } else if round.home is None && stands_at_bank(who) {
            items_rule(round, who)
        } else {
            (BankOrderView::GoToBank, BankRoundView { step: BankStep::AtBank, ..round })
        },
        BankStep::AtBank => items_rule(round, who),
        BankStep::Stored => gold_rule(round, who),
        BankStep::Paid => homeward_rule(round),
        BankStep::Over => (BankOrderView::Finish, round),
    }
}

/// Starts a trip on which a character deposits all it carries and stays at the bank.
pub fn start_deposit(character: &Character) -> (r: BankRound)
    ensures
        r@ == (BankRoundView {
            step: BankStep::Ready,
            items: stacks(character.inventory@, character.inventory@.len() as int),
            home: None,
        }),
{
    BankRound { step: BankStep::Ready, items: stacks_to_deposit(&character.inventory), home: None }
}

/// Starts a trip on which a character deposits all it carries and goes back to where it was.
pub fn start_round_trip(character: &Character) -> (r: BankRound)
    ensures
        r@ == (BankRoundView {
            step: BankStep::Ready,
            items: stacks(character.inventory@, character.inventory@.len() as int),
            home: Some((character.x, character.y)),
        }),
{
    BankRound {
        step: BankStep::Ready,
        items: stacks_to_deposit(&character.inventory),
        home: Some((character.x, character.y)),
    }
}

impl BankRound {
    fn next_homeward(&mut self) -> (r: BankOrder)
        ensures
            (r@, final(self)@) == homeward_rule(old(self)@),
    {
        self.step = BankStep::Over;
        match self.home {
            Some((x, y)) => BankOrder::GoBack { x, y },
            None => BankOrder::Finish,
        }
    }

    fn next_gold(&mut self, character: &Character) -> (r: BankOrder)
        ensures
            (r@, final(self)@) == gold_rule(old(self)@, *character),
    {
        match gold_to_deposit(character) {
            Some(gold) => {
                self.step = BankStep::Paid;
                BankOrder::Pay { gold }
            },
            None => self.next_homeward(),
        }
    }

    fn next_items(&mut self, character: &Character) -> (r: BankOrder)
        ensures
            (r@, final(self)@) == items_rule(old(self)@, *character),
    {
        assert(deposit_views(self.items@).len() == self.items@.len());
        if self.items.len() > 0 {
            self.step = BankStep::Stored;
            BankOrder::Store(copy_stacks(&self.items))
        } else {
            self.next_gold(character)
        }
    }

    /// What the character does next.
    pub fn next(&mut self, character: &Character) -> (r: BankOrder)
        ensures
            (r@, final(self)@) == bank_rule(old(self)@, *character),
    {
        assert(deposit_views(self.items@).len() == self.items@.len());
        match self.step {
            BankStep::Ready => if self.home.is_none() && self.items.len() == 0 && character.gold
                <= 0 {
                self.step = BankStep::Over;
                BankOrder::Finish
            } else if self.home.is_none() && is_at_bank(character) {
                self.next_items(character)
            } else {
                self.step = BankStep::AtBank;
                BankOrder::GoToBank
            },
            BankStep::AtBank => self.next_items(character),
            BankStep::Stored => self.next_gold(character),
            BankStep::Paid => self.next_homeward(),
            BankStep::Over => BankOrder::Finish,
        }
    }
}

/// How far a trip is from its end.
pub open spec fn stops_left(round: BankRoundView) -> int {
    match round.step {
        BankStep::Ready => 4,
        BankStep::AtBank => 3,
        BankStep::Stored => 2,
        BankStep::Paid => 1,
        BankStep::Over => 0,
    }
}

/// A trip ends, deposits only at the bank, leaves no item and no gold out, and ends where the
/// character was if it has to go back.
pub proof fn law_trip_leaves_nothing_behind(round: BankRoundView, who: Character)
    ensures
        ({
            let (order, after) = bank_rule(round, who);
            &&& order is Finish || 0 <= stops_left(after) < stops_left(round)
            &&& after.items == round.items && after.home == round.home
            &&& order is Store ==> order->Store_0 == round.items && (stands_at_bank(who)
                || round.step is AtBank)
            &&& after.step is AtBank ==> order is GoToBank
            &&& (after.step is Paid || after.step is Over) && (round.step is Ready || round.step
                is AtBank) ==> round.items.len() == 0
            &&& after.step is Over && !(round.step is Paid || round.step is Over) ==> who.gold <= 0
            &&& after.step is Over && !(round.step is Over) ==> match round.home {
                Some((x, y)) => order == (BankOrderView::GoBack { x, y }),
                None => order is Finish,
            }
        }),
{
}

} // verus!
