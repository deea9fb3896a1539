//! Seeing to food, as rules: what to do next, given how the last step went.
//!
//! A character out of food goes to the bank where the bank has some, and otherwise waits to be told
//! of some. On the trip it deposits everything and stocks up its utility slots before it fills its
//! bag with food.

use vstd::prelude::*;

use super::bank_ops::{deposit_views, is_at_bank, stands_at_bank};
use super::consumables::{
    errand_for, food_errand, food_fetched, plan_food_fetch, FoodErrand,
};
use crate::flags::{GameState, StateView};
use crate::types::{BankItem, Character, DepositItem};

verus! {

/// The step that a character has just finished.
#[derive(Debug, Clone, Copy, PartialEq, Eq, Structural)]
pub enum FoodStep {
    /// It is about to look at its food.
    Ready,
    /// It has deposited all it carried.
    Stored,
    /// It has filled its empty utility slots.
    Filled,
    /// It has topped up its utility slots.
    ToppedUp,
    /// It has gone to the bank.
    AtBank,
    /// There is nothing more to do.
    Over,
}

/// What a character does next.
#[derive(Debug)]
pub enum FoodOrder {
    /// Deposit all it carries.
    StoreAll,
    /// Fill empty utility slots.
    FillUtilities,
    /// Top up utility slots.
    TopUpUtilities,
    GoToBank,
    Withdraw(Vec<DepositItem>),
    Finish,
}

/// What a character does next, as a mathematical value.
pub enum FoodOrderView {
    StoreAll,
    FillUtilities,
    TopUpUtilities,
    GoToBank,
    Withdraw(Seq<(Seq<char>, int)>),
    Finish,
}

impl View for FoodOrder {
    type V = FoodOrderView;

    open spec fn view(&self) -> FoodOrderView {
        match *self {
            FoodOrder::StoreAll => FoodOrderView::StoreAll,
            FoodOrder::FillUtilities => FoodOrderView::FillUtilities,
            FoodOrder::TopUpUtilities => FoodOrderView::TopUpUtilities,
            FoodOrder::GoToBank => FoodOrderView::GoToBank,
            FoodOrder::Withdraw(items) => FoodOrderView::Withdraw(deposit_views(items@)),
            FoodOrder::Finish => FoodOrderView::Finish,
        }
    }
}

/// What comes at the bank: the food, where any can be taken.
pub open spec fn fetch_rule(who: Character, s: StateView) -> (FoodOrderView, FoodStep) {
    let list = food_fetched(who, s.data.items@, s.bank);
    if list.len() > 0 {
        (FoodOrderView::Withdraw(list), FoodStep::Over)
    } else {
        (FoodOrderView::Finish, FoodStep::Over)
    }
}

/// The rules of seeing to food.
pub open spec fn food_rule(step: FoodStep, who: Character, s: StateView) -> (FoodOrderView, FoodStep) {
    match step {
        FoodStep::Ready => match errand_for(who, s.data.items@, s.bank) {
            FoodErrand::Fetch => (FoodOrderView::StoreAll, FoodStep::Stored),
            _ => (FoodOrderView::Finish, FoodStep::Over),
        },
        FoodStep::Stored => (FoodOrderView::FillUtilities, FoodStep::Filled),
        FoodStep::Filled => (FoodOrderView::TopUpUtilities, FoodStep::ToppedUp),
        FoodStep::ToppedUp => if stands_at_bank(who) {
            fetch_rule(who, s)
        } else {
            (FoodOrderView::GoToBank, FoodStep::AtBank)
        },
        FoodStep::AtBank => fetch_rule(who, s),
        FoodStep::Over => (FoodOrderView::Finish, FoodStep::Over),
    }
}

/// The state after a character has looked at its food: one that finds none anywhere waits to be
/// told of some.
pub open spec fn waiting_state(
    step: FoodStep,
    who: Character,
    s: StateView,
    name: Seq<char>,
) -> StateView {
    if step is Ready && errand_for(who, s.data.items@, s.bank) is Wait {
        StateView { awaiting: Some(name), ..s }
    } else {
        s
    }
}

fn fetch(character: &Character, state: &GameState) -> (r: (FoodOrder, FoodStep))
    requires
        state.wf(),
    ensures
        (r.0@, r.1) == fetch_rule(*character, state@),
{
    let bank: Vec<BankItem> = state.bank_snapshot();
    let list: Vec<DepositItem> = plan_food_fetch(character, state.data(), &bank);
    assert(deposit_views(list@).len() == list@.len());
    if list.len() > 0 {
        (FoodOrder::Withdraw(list), FoodStep::Over)
    } else {
        (FoodOrder::Finish, FoodStep::Over)
    }
}

/// What a character does next about its food, and the step that leads to. One that finds none
/// anywhere is noted as waiting.
pub fn next_food_order(
    step: FoodStep,
    character: &Character,
    state: &mut GameState,
    name: &str,
) -> (r: (FoodOrder, FoodStep))
    requires
        old(state).wf(),
    ensures
        final(state).wf(),
        (r.0@, r.1) == food_rule(step, *character, old(state)@),
        final(state)@ == waiting_state(step, *character, old(state)@, name@),
{
    match step {
        FoodStep::Ready => {
            let bank: Vec<BankItem> = state.bank_snapshot();
            match food_errand(character, state.data(), &bank) {
                FoodErrand::Fetch => (FoodOrder::StoreAll, FoodStep::Stored),
                FoodErrand::Wait => {
                    state.await_healing_consumables(name);
                    (FoodOrder::Finish, FoodStep::Over)
                },
                FoodErrand::Nothing => (FoodOrder::Finish, FoodStep::Over),
            }
        },
        FoodStep::Stored => (FoodOrder::FillUtilities, FoodStep::Filled),
        FoodStep::Filled => (FoodOrder::TopUpUtilities, FoodStep::ToppedUp),
        FoodStep::ToppedUp => if is_at_bank(character) {
            fetch(character, state)
        } else {
            (FoodOrder::GoToBank, FoodStep::AtBank)
        },
        FoodStep::AtBank => fetch(character, state),
        FoodStep::Over => (FoodOrder::Finish, FoodStep::Over),
    }
}

/// A character with food does nothing about it. One without sets out only where the bank has some;
/// it withdraws only at the bank, and only after it has deposited what it carried.
pub proof fn law_food_is_fetched_where_there_is_some(step: FoodStep, who: Character, s: StateView)
    ensures
        ({
            let (order, after) = food_rule(step, who, s);
            &&& step is Ready ==> (order is StoreAll <==> errand_for(who, s.data.items@, s.bank)
                is Fetch)
            &&& order is Withdraw ==> (step is ToppedUp && stands_at_bank(who)) || step is AtBank
            &&& after is AtBank ==> order is GoToBank
            &&& after is ToppedUp ==> order is TopUpUtilities && step is Filled
            &&& after is Filled ==> order is FillUtilities && step is Stored
            &&& after is Stored ==> order is StoreAll && step is Ready
        }),
{
}

} // verus!
