//! Stocking up the utility slots, as rules: what to do next, given how the last step went.
//!
//! Filling an empty slot takes a trip to the bank with everything deposited first; topping up a
//! slot that holds something takes only the way there. What does not fit the inventory at once is
//! withdrawn and put on in several passes.

use vstd::prelude::*;

use super::bank_ops::{deposit_views, is_at_bank, stands_at_bank};
use super::utility::{
    equip_views, free_room, free_slots, law_pass_makes_progress, missing_total, pass_over, pick_at,
    pick_utility_loadout, plan_utility_pass, remaining_of, request_views, requests_for,
    slot_is_empty, taken_stacks, top_up, top_up_requests, total, utility_picks, Pass,
    UtilityRequest,
};
use crate::api::GameData;
use crate::types::{BankItem, Character, DepositItem, EquipBody, Item};

verus! {

/// The step of stocking up that a character has just finished.
#[derive(Debug, Clone, Copy, PartialEq, Eq, Structural)]
pub enum UtilityStep {
    /// It is about to fill empty slots.
    ToFill,
    /// It has deposited all it carried.
    Stored,
    /// It has gone to the bank to fill empty slots.
    AtBankToFill,
    /// It is about to top up slots.
    ToTopUp,
    /// It knows what it wants, and is at the bank.
    AtBank,
    /// It has made the withdrawals of a pass.
    Fetched,
    /// There is nothing more to do.
    Over,
}

/// What a character does next.
#[derive(Debug)]
pub enum UtilityOrder {
    /// Deposit all it carries.
    StoreAll,
    GoToBank,
    Withdraw(Vec<DepositItem>),
    PutOn(Vec<EquipBody>),
    Finish,
}

/// What a character does next, as a mathematical value.
pub enum UtilityOrderView {
    StoreAll,
    GoToBank,
    Withdraw(Seq<(Seq<char>, int)>),
    PutOn(Seq<(Seq<char>, Seq<char>, int)>),
    Finish,
}

impl View for UtilityOrder {
    type V = UtilityOrderView;

    open spec fn view(&self) -> UtilityOrderView {
        match *self {
            UtilityOrder::StoreAll => UtilityOrderView::StoreAll,
            UtilityOrder::GoToBank => UtilityOrderView::GoToBank,
            UtilityOrder::Withdraw(items) => UtilityOrderView::Withdraw(deposit_views(items@)),
            UtilityOrder::PutOn(bodies) => UtilityOrderView::PutOn(equip_views(bodies@)),
            UtilityOrder::Finish => UtilityOrderView::Finish,
        }
    }
}

/// Stocking up under way: the last step, which slots are free, what is still missing, what the last
/// withdrawals were for, and whether anything has been put on.
#[derive(Debug)]
pub struct UtilityRound {
    pub step: UtilityStep,
    pub slot1_free: bool,
    pub slot2_free: bool,
    pub requests: Vec<UtilityRequest>,
    pub bodies: Vec<EquipBody>,
    pub equipped: bool,
}

/// Stocking up under way, as a mathematical value.
#[verifier::ext_equal]
pub struct UtilityRoundView {
    pub step: UtilityStep,
    pub slot1_free: bool,
    pub slot2_free: bool,
    pub requests: Seq<(Seq<char>, Seq<char>, int)>,
    pub bodies: Seq<(Seq<char>, Seq<char>, int)>,
    pub equipped: bool,
}

impl View for UtilityRound {
    type V = UtilityRoundView;

    open spec fn view(&self) -> UtilityRoundView {
        UtilityRoundView {
            step: self.step,
            slot1_free: self.slot1_free,
            slot2_free: self.slot2_free,
            requests: request_views(self.requests@),
            bodies: equip_views(self.bodies@),
            equipped: self.equipped,
        }
    }
}

/// What the free slots are to be filled with.
pub open spec fn fill_requests(
    who: Character,
    items: Seq<Item>,
    bank: Seq<BankItem>,
    slot1_free: bool,
    slot2_free: bool,
) -> Seq<(Seq<char>, Seq<char>, int)> {
    let picks = utility_picks(who, items, bank, slot1_free, slot2_free);
    let first = if slot1_free {
        pick_at(picks, 0)
    } else {
        None
    };
    let second = if slot2_free {
        pick_at(
            picks,
            if slot1_free {
                1
            } else {
                0
            },
        )
    } else {
        None
    };
    (match first {
        Some(p) => seq![("utility1"@, p.0, p.1)],
        None => Seq::empty(),
    }) + (match second {
        Some(p) => seq![("utility2"@, p.0, p.1)],
        None => Seq::empty(),
    })
}

/// What the slots lack to full stacks of what they hold.
pub open spec fn lacking(who: Character, bank: Seq<BankItem>) -> Seq<(Seq<char>, Seq<char>, int)> {
    top_up("utility1"@, who.utility1_slot@, who.utility1_slot_quantity as int, bank) + top_up(
        "utility2"@,
        who.utility2_slot@,
        who.utility2_slot_quantity as int,
        bank,
    )
}

/// The pass that a character has room for.
pub open spec fn next_pass(requests: Seq<(Seq<char>, Seq<char>, int)>, who: Character) -> Pass {
    pass_over(requests, free_room(who), free_slots(who), requests.len() as int)
}

/// The requests with what a pass leaves of them.
pub open spec fn left_over(
    requests: Seq<(Seq<char>, Seq<char>, int)>,
    p: Pass,
) -> Seq<(Seq<char>, Seq<char>, int)> {
    Seq::new(requests.len(), |i: int| (requests[i].0, requests[i].1, p.remaining[i]))
}

/// One more pass; none where nothing is missing or nothing fits.
pub open spec fn pass_rule(
    round: UtilityRoundView,
    who: Character,
) -> (UtilityOrderView, UtilityRoundView) {
    let p = next_pass(round.requests, who);
    let after = UtilityRoundView {
        requests: left_over(round.requests, p),
        bodies: p.taken,
        ..round
    };
    if p.taken.len() == 0 {
        (UtilityOrderView::Finish, UtilityRoundView { step: UtilityStep::Over, ..after })
    } else {
        (
            UtilityOrderView::Withdraw(taken_stacks(p.taken)),
            UtilityRoundView { step: UtilityStep::Fetched, ..after },
        )
    }
}

/// The rules of stocking up.
pub open spec fn utility_rule(
    round: UtilityRoundView,
    who: Character,
    items: Seq<Item>,
    bank: Seq<BankItem>,
) -> (UtilityOrderView, UtilityRoundView) {
    let filling = UtilityRoundView {
        requests: fill_requests(who, items, bank, round.slot1_free, round.slot2_free),
        ..round
    };
    let over = UtilityRoundView { step: UtilityStep::Over, ..round };
    match round.step {
        UtilityStep::ToFill => if round.slot1_free || round.slot2_free {
            (
                UtilityOrderView::StoreAll,
                UtilityRoundView { step: UtilityStep::Stored, ..round },
            )
        } else {
            (UtilityOrderView::Finish, over)
        },
        UtilityStep::Stored => if stands_at_bank(who) {
            pass_rule(filling, who)
        } else {
            (
                UtilityOrderView::GoToBank,
                UtilityRoundView { step: UtilityStep::AtBankToFill, ..round },
            )
        },
        UtilityStep::AtBankToFill => pass_rule(filling, who),
        UtilityStep::ToTopUp => {
            let wanted = UtilityRoundView { requests: lacking(who, bank), ..round };
            if wanted.requests.len() == 0 {
                (UtilityOrderView::Finish, UtilityRoundView { step: UtilityStep::Over, ..wanted })
            } else if stands_at_bank(who) {
                pass_rule(wanted, who)
            } else {
                (
                    UtilityOrderView::GoToBank,
                    UtilityRoundView { step: UtilityStep::AtBank, ..wanted },
                )
            }
        },
        UtilityStep::AtBank => pass_rule(round, who),
        UtilityStep::Fetched => (
            UtilityOrderView::PutOn(round.bodies),
            UtilityRoundView {
                step: UtilityStep::AtBank,
                bodies: Seq::empty(),
                equipped: true,
                ..round
            },
        ),
        UtilityStep::Over => (UtilityOrderView::Finish, round),
    }
}

/// Starts to fill the utility slots that are empty or have run dry.
pub fn start_filling(character: &Character) -> (r: UtilityRound)
    ensures
        r@ == (UtilityRoundView {
            step: UtilityStep::ToFill,
            slot1_free: character.utility1_slot@.len() == 0 || character.utility1_slot_quantity
                <= 0,
            slot2_free: character.utility2_slot@.len() == 0 || character.utility2_slot_quantity
                <= 0,
            requests: Seq::empty(),
            bodies: Seq::empty(),
            equipped: false,
        }),
{
    let r = UtilityRound {
        step: UtilityStep::ToFill,
        slot1_free: slot_is_empty(&character.utility1_slot, character.utility1_slot_quantity),
        slot2_free: slot_is_empty(&character.utility2_slot, character.utility2_slot_quantity),
        requests: Vec::new(),
        bodies: Vec::new(),
        equipped: false,
    };
    assert(request_views(r.requests@) =~= Seq::empty());
    assert(equip_views(r.bodies@) =~= Seq::empty());
    r
}

/// Starts to top up the utility slots that hold something.
pub fn start_topping_up() -> (r: UtilityRound)
    ensures
        r@ == (UtilityRoundView {
            step: UtilityStep::ToTopUp,
            slot1_free: false,
            slot2_free: false,
            requests: Seq::empty(),
            bodies: Seq::empty(),
            equipped: false,
        }),
{
    let r = UtilityRound {
        step: UtilityStep::ToTopUp,
        slot1_free: false,
        slot2_free: false,
        requests: Vec::new(),
        bodies: Vec::new(),
        equipped: false,
    };
    assert(request_views(r.requests@) =~= Seq::empty());
    assert(equip_views(r.bodies@) =~= Seq::empty());
    r
}

impl UtilityRound {
    fn next_in_pass(&mut self, character: &Character) -> (r: UtilityOrder)
        ensures
            (r@, final(self)@) == pass_rule(old(self)@, *character),
    {
        let ghost had = self.requests@;
        let ghost p = next_pass(request_views(had), *character);
        let (withdrawals, bodies) = plan_utility_pass(character, &mut self.requests);
        self.bodies = bodies;
        proof {
            let now = request_views(self.requests@);
            assert(equip_views(self.bodies@).len() == self.bodies@.len());
            assert forall|i: int| 0 <= i < now.len() implies now[i] == left_over(
                request_views(had),
                p,
            )[i] by {
                assert(self.requests@[i].slot@ == had[i].slot@);
                assert(remaining_of(self.requests@)[i] == p.remaining[i]);
            }
            assert(now =~= left_over(request_views(had), p));
        }
        if self.bodies.len() == 0 {
            self.step = UtilityStep::Over;
            UtilityOrder::Finish
        } else {
            self.step = UtilityStep::Fetched;
            UtilityOrder::Withdraw(withdrawals)
        }
    }

    fn fill(&mut self, character: &Character, data: &GameData, bank: &[BankItem])
        ensures
            final(self)@ == (UtilityRoundView {
                requests: fill_requests(
                    *character,
                    data.items@,
                    bank@,
                    old(self)@.slot1_free,
                    old(self)@.slot2_free,
                ),
                ..old(self)@
            }),
    {
        let picks = pick_utility_loadout(
            character,
            data,
            bank,
            self.slot1_free,
            self.slot2_free,
        );
        self.requests = requests_for(picks);
    }

    /// What the character does next, given what the bank holds.
    pub fn next(&mut self, character: &Character, data: &GameData, bank: &[BankItem]) -> (r:
        UtilityOrder)
        ensures
            (r@, final(self)@) == utility_rule(old(self)@, *character, data.items@, bank@),
    {
        match self.step {
            UtilityStep::ToFill => if self.slot1_free || self.slot2_free {
                self.step = UtilityStep::Stored;
                UtilityOrder::StoreAll
            } else {
                self.step = UtilityStep::Over;
                UtilityOrder::Finish
            },
            UtilityStep::Stored => if is_at_bank(character) {
                self.fill(character, data, bank);
                self.next_in_pass(character)
            } else {
                self.step = UtilityStep::AtBankToFill;
                UtilityOrder::GoToBank
            },
            UtilityStep::AtBankToFill => {
                self.fill(character, data, bank);
                self.next_in_pass(character)
            },
            UtilityStep::ToTopUp => {
                self.requests = top_up_requests(character, bank);
                assert(request_views(self.requests@).len() == self.requests@.len());
                if self.requests.len() == 0 {
                    self.step = UtilityStep::Over;
                    UtilityOrder::Finish
                } else if is_at_bank(character) {
                    self.next_in_pass(character)
                } else {
                    self.step = UtilityStep::AtBank;
                    UtilityOrder::GoToBank
                }
            },
            UtilityStep::AtBank => self.next_in_pass(character),
            UtilityStep::Fetched => {
                let mut bodies: Vec<EquipBody> = Vec::new();
                bodies.append(&mut self.bodies);
                assert(equip_views(self.bodies@) =~= Seq::empty());
                self.step = UtilityStep::AtBank;
                self.equipped = true;
                UtilityOrder::PutOn(bodies)
            },
            UtilityStep::Over => UtilityOrder::Finish,
        }
    }
}

/// A character withdraws for its utility slots only at the bank, where it stands, to which it has
/// just gone, or where it has just put on what it withdrew; and it puts on exactly what it has just
/// withdrawn.
pub proof fn law_withdrawn_items_are_put_on(
    round: UtilityRoundView,
    who: Character,
    items: Seq<Item>,
    bank: Seq<BankItem>,
)
    ensures
        ({
            let (order, after) = utility_rule(round, who, items, bank);
            &&& order is Withdraw ==> stands_at_bank(who) || round.step is AtBankToFill
                || round.step is AtBank
            &&& after.step is AtBankToFill ==> order is GoToBank
            &&& after.step is AtBank ==> order is GoToBank || order is PutOn
            &&& after.step is Fetched <==> order is Withdraw
            &&& order is Withdraw ==> order->Withdraw_0 == taken_stacks(after.bodies)
            &&& order is PutOn ==> round.step is Fetched && order->PutOn_0 == round.bodies
        }),
{
}

/// Stocking up comes to an end: a pass that withdraws anything leaves less to be had.
pub proof fn law_stocking_up_ends(round: UtilityRoundView, who: Character)
    ensures
        ({
            let (order, after) = pass_rule(round, who);
            let n = round.requests.len() as int;
            &&& after.requests.len() == n
            &&& order is Finish || missing_total(after.requests, n) < missing_total(
                round.requests,
                n,
            )
        }),
{
    let n = round.requests.len() as int;
    let p = next_pass(round.requests, who);
    law_pass_makes_progress(round.requests, free_room(who), free_slots(who), n);
    lemma_left_over(round.requests, p, n);
}

proof fn lemma_left_over(requests: Seq<(Seq<char>, Seq<char>, int)>, p: Pass, n: int)
    requires
        0 <= n <= requests.len(),
        p.remaining.len() == requests.len(),
    ensures
        missing_total(left_over(requests, p), n) == total(p.remaining, n),
    decreases n,
{
    if n > 0 {
        lemma_left_over(requests, p, n - 1);
    }
}

} // verus!
