//! What holds of the loops: when each thing is done, and with what.

use vstd::prelude::*;

use super::bank_ops::{carried, stacks, stands_at_bank, used_count};
use super::bank_round::{bank_rule, BankRoundView};
use super::consumables::{errand_for, food_fetched};
use super::crafting_round::{craft_rule, CraftRoundView};
use super::fight::{fight_facts_hold, fight_rule, FightFacts, FightStep, FighterKind};
use super::flag_handling::{one_each, slots_to_clear, withdrawals_for};
use super::flag_round::{flag_rule, FlagRoundView};
use super::food_round::{food_rule, waiting_state, FoodStep};
use super::gather::{
    facts_hold, gather_rule, is_full, step_after, GatherAction, GatherFacts, GatherMemory,
    GatherStep,
};
use super::promotion::is_promoted;
use super::refining::Batch;
use super::refining_round::{refine_rule, RefineRoundView};
use super::utility::utility_picks;
use super::utility_round::{fill_requests, lacking, utility_rule, UtilityRoundView};
use crate::flags::StateView;
use crate::optimize::skills::level_in;
use crate::types::{bank_qty, BankItem, Character, Item, MonsterDrop};

verus! {

/// When a gatherer does what. It turns to fighting where its skill has outgrown the fighter, before
/// it sets out and after every action, unless a level-up has it fitted out first. It gives up where
/// there is no target, empties a full bag before it goes there, and at the target gathers as long
/// as one more action is sure to fit. After it has processed what it gathered it acts on its flags
/// and looks for a target anew.
pub proof fn law_when_a_gatherer_does_what(step: GatherStep, m: GatherMemory, f: GatherFacts)
    ensures
        ({
            let (action, after) = gather_rule(step, m, f);
            let rose = step is Gathered && (m.prev_level matches Some(prev) && f.level > prev);
            let works = step is Arrived || (step is Gathered && !rose && !f.promoted) || (step
                is Refitted && !f.promoted);
            &&& action is SwitchToFighting <==> f.promoted && (step is Fetched || step is Refitted
                || (step is Gathered && !rose))
            &&& action is FindTarget <==> step is Fetched && !f.promoted
            &&& action is GiveUp <==> step is Targeted && !f.has_target
            &&& action is Unload <==> step is Targeted && f.has_target && f.full
            &&& action is GoToTarget <==> step is Unloaded || step is Retargeted || (step is Targeted
                && f.has_target && !f.full)
            &&& action is Refit <==> rose
            &&& action is Gather <==> works && !f.nearly_full
            &&& action is Process <==> works && f.nearly_full
            &&& action is HandleFlags <==> step is Processed
            &&& action is Retarget <==> step is Flagged
            &&& after.prev_level == if step is Gathered {
                Some(f.level)
            } else {
                m.prev_level
            }
            &&& after.max_drops == if step is Arrived {
                f.target_drops
            } else {
                m.max_drops
            }
        }),
{
}

/// Every action of a gatherer leads to the step that is named after it.
pub proof fn law_where_a_gatherers_actions_lead(action: GatherAction)
    ensures
        step_after(action) is None <==> action is SwitchToFighting || action is GiveUp,
        action is FindTarget ==> step_after(action)->0 is Targeted,
        action is Unload ==> step_after(action)->0 is Unloaded,
        action is GoToTarget ==> step_after(action)->0 is Arrived,
        action is Gather ==> step_after(action)->0 is Gathered,
        action is Refit ==> step_after(action)->0 is Refitted,
        action is Process ==> step_after(action)->0 is Processed,
        action is HandleFlags ==> step_after(action)->0 is Flagged,
        action is Retarget ==> step_after(action)->0 is Retargeted,
{
}

/// When a fighter does what. It fights when it is ready and has not fallen back, finds its gear
/// anew after a level-up, empties a full bag, fills a utility slot that ran dry, and heals before
/// every fight.
pub proof fn law_when_a_fighter_does_what(step: FightStep, kind: FighterKind, f: FightFacts)
    ensures
        ({
            let action = fight_rule(step, kind, f);
            let ready = step is Ready || step is FlaggedToppedUp;
            let bag_done = (step is Fed && !f.full) || step is UnloadedFed;
            &&& action is Fight <==> ready && (kind.dedicated || !f.demoted)
            &&& action is SwitchBack <==> ready && !kind.dedicated && f.demoted
            &&& action is Unload <==> f.full && (step is Fetched || step is Fed)
            &&& action is Supply <==> (step is Fetched && !f.full) || step is FirstUnloaded || (
            bag_done && f.ran_dry)
            &&& action is Heal <==> step is FirstTargeted || step is SuppliedToppedUp || (bag_done
                && !f.ran_dry)
            &&& action is SeeToFood <==> step is FirstToppedUp || (step is Fought && !f.levelled_up)
                || step is Refitted || step is UnloadedToppedUp
            &&& action is HandleFlags <==> step is Healed
            &&& action is TopUp <==> step is FirstSupplied || step is Unloaded || step
                is SuppliedTargeted || step is Flagged
            &&& action is TopUp ==> (action->rejudge <==> !(step is FirstSupplied))
            &&& action is Target <==> step is FirstFed || step is Supplied || (step is Fought
                && f.levelled_up)
            &&& action is Target ==> (action->refit <==> (step is FirstFed && kind.refit_on_entry)
                || step is Fought)
        }),
{
}

/// What a fighter goes by is told from its own level, bag and utility slots.
pub proof fn law_what_a_fighter_goes_by(
    f: FightFacts,
    who: Character,
    before: Character,
    prev_level: Option<i32>,
    fighter_level: int,
)
    requires
        fight_facts_hold(f, who, before, prev_level, None, fighter_level),
    ensures
        !f.demoted,
        f.levelled_up <==> prev_level is Some && who.level > prev_level->0,
        f.ran_dry <==> (before.utility1_slot_quantity > 0 && who.utility1_slot_quantity <= 0) || (
        before.utility2_slot_quantity > 0 && who.utility2_slot_quantity <= 0),
{
}

/// When a trip to the bank does what: it goes there unless there is nothing to deposit or it is
/// there already, deposits all items it set out with, then all gold the character has, and goes
/// back where it came from if it has to.
pub proof fn law_when_a_bank_trip_does_what(round: BankRoundView, who: Character)
    ensures
        ({
            let (order, after) = bank_rule(round, who);
            let nothing = round.items.len() == 0 && who.gold <= 0;
            let here = round.step is AtBank || (round.step is Ready && round.home is None
                && stands_at_bank(who) && !nothing);
            let stored = round.step is Stored || (here && round.items.len() == 0);
            let paid = round.step is Paid || (stored && who.gold <= 0);
            &&& order is GoToBank <==> round.step is Ready && !here && !(round.home is None
                && nothing)
            &&& order is Store <==> here && round.items.len() > 0
            &&& order is Store ==> order->Store_0 == round.items
            &&& order is Pay <==> stored && who.gold > 0
            &&& order is Pay ==> order->gold == who.gold
            &&& order is GoBack <==> paid && round.home is Some
            &&& order is GoBack ==> (order->x, order->y) == round.home->0
        }),
{
}

/// What a crafting trip trades: it withdraws what was planned, and deposits everything carried and
/// all gold, once everything is made.
pub proof fn law_what_a_crafting_trip_trades(round: CraftRoundView, who: Character)
    requires
        round.wf(),
    ensures
        ({
            let (order, after) = craft_rule(round, who);
            let all = stacks(who.inventory@, who.inventory@.len() as int);
            let back = round.step is BackAtBank || (round.step is Loaded && round.made
                == round.plan.len() && stands_at_bank(who));
            &&& order is Withdraw <==> round.step is AtBank || (round.step is Planned
                && stands_at_bank(who))
            &&& order is Withdraw ==> order->Withdraw_0 == round.withdraw
            &&& order is Store <==> back && all.len() > 0
            &&& order is Store ==> order->Store_0 == all
            &&& order is Pay <==> who.gold > 0 && (round.step is Stored || (back && all.len() == 0))
            &&& order is Pay ==> order->gold == who.gold
            &&& order is GoToWorkshop <==> round.step is Loaded && round.made < round.plan.len()
            &&& order is Craft <==> round.step is AtWorkshop
            &&& order is GoToBank <==> !stands_at_bank(who) && (round.step is Planned || (round.step
                is Loaded && round.made == round.plan.len()))
        }),
{
}

/// Seeing to food: a character without food sets out where the bank has some, deposits what it
/// carries, sees to its utility slots, goes to the bank and takes what it has room for; one that
/// finds none anywhere is noted as waiting, and nobody else ever is.
pub proof fn law_how_food_is_seen_to(
    step: FoodStep,
    who: Character,
    s: StateView,
    name: Seq<char>,
)
    ensures
        ({
            let (order, after) = food_rule(step, who, s);
            let list = food_fetched(who, s.data.items@, s.bank);
            let errand = errand_for(who, s.data.items@, s.bank);
            let here = step is AtBank || (step is ToppedUp && stands_at_bank(who));
            &&& order is StoreAll <==> step is Ready && errand is Fetch
            &&& order is FillUtilities <==> step is Stored
            &&& order is TopUpUtilities <==> step is Filled
            &&& order is GoToBank <==> step is ToppedUp && !stands_at_bank(who)
            &&& order is Withdraw <==> here && list.len() > 0
            &&& order is Withdraw ==> order->Withdraw_0 == list
            &&& step is Ready && errand is Wait ==> waiting_state(step, who, s, name) == (
            StateView { awaiting: Some(name), ..s })
            &&& !(step is Ready && errand is Wait) ==> waiting_state(step, who, s, name) == s
        }),
{
}

/// What a round of flags does for upgrades: it deposits everything, takes off what is in the way,
/// withdraws and puts on one item for each slot, and finds its target anew. It goes back only where
/// it has not found its target anew and is not there.
pub proof fn law_what_a_flag_round_does(round: FlagRoundView, who: Character)
    requires
        round.wf(),
    ensures
        ({
            let (order, after) = flag_rule(round, who);
            let n = round.upgrades.len() as int;
            let cleared = slots_to_clear(who, round.upgrades, n);
            let others = round.step is Between || round.step is AtBank || (round.step is Drained
                && n == 0);
            let acted = round.acted == round.others.len();
            &&& order is StoreAll <==> round.step is Drained && n > 0
            &&& order is TakeOff <==> round.step is Stored && cleared.len() > 0
            &&& order is TakeOff ==> order->TakeOff_0 == one_each(cleared)
            &&& order is Withdraw <==> round.step is Stripped || (round.step is Stored
                && cleared.len() == 0)
            &&& order is Withdraw ==> order->Withdraw_0 == withdrawals_for(round.upgrades, n)
            &&& order is PutOn <==> round.step is Fetched
            &&& order is PutOn ==> order->PutOn_0.len() == n && forall|i: int|
                0 <= i < n ==> #[trigger] order->PutOn_0[i] == (
                    round.upgrades[i].0,
                    round.upgrades[i].1,
                    1int,
                )
            &&& order is Reposition <==> round.step is Worn
            &&& order is Act <==> others && !acted && (stands_at_bank(who) || round.step is AtBank)
            &&& order is GoToBank <==> others && !acted && !stands_at_bank(who) && !(round.step
                is AtBank)
            &&& order is GoBack <==> others && acted && !round.repositioned && (who.x != round.x
                || who.y != round.y)
            &&& order is GoBack ==> order->x == round.x && order->y == round.y
        }),
{
}

/// The best pick goes into the first free utility slot, and the next into the second where both are
/// free; a slot that is not free gets nothing.
pub proof fn law_picks_go_into_the_free_slots(
    who: Character,
    items: Seq<Item>,
    bank: Seq<BankItem>,
)
    ensures
        ({
            let both = utility_picks(who, items, bank, true, true);
            let one = utility_picks(who, items, bank, true, false);
            let two = utility_picks(who, items, bank, false, true);
            &&& fill_requests(who, items, bank, false, false).len() == 0
            &&& one.len() > 0 ==> fill_requests(who, items, bank, true, false) == seq![
                ("utility1"@, one[0].0, one[0].1),
            ]
            &&& two.len() > 0 ==> fill_requests(who, items, bank, false, true) == seq![
                ("utility2"@, two[0].0, two[0].1),
            ]
            &&& both.len() >= 2 ==> fill_requests(who, items, bank, true, true) == seq![
                ("utility1"@, both[0].0, both[0].1),
                ("utility2"@, both[1].0, both[1].1),
            ]
            &&& both.len() == 1 ==> fill_requests(who, items, bank, true, true) == seq![
                ("utility1"@, both[0].0, both[0].1),
            ]
        }),
{
    let both = utility_picks(who, items, bank, true, true);
    let one = utility_picks(who, items, bank, true, false);
    let two = utility_picks(who, items, bank, false, true);
    if one.len() > 0 {
        assert(fill_requests(who, items, bank, true, false) =~= seq![
            ("utility1"@, one[0].0, one[0].1),
        ]);
    }
    if two.len() > 0 {
        assert(fill_requests(who, items, bank, false, true) =~= seq![
            ("utility2"@, two[0].0, two[0].1),
        ]);
    }
    if both.len() >= 2 {
        assert(fill_requests(who, items, bank, true, true) =~= seq![
            ("utility1"@, both[0].0, both[0].1),
            ("utility2"@, both[1].0, both[1].1),
        ]);
    }
    if both.len() == 1 {
        assert(fill_requests(who, items, bank, true, true) =~= seq![
            ("utility1"@, both[0].0, both[0].1),
        ]);
    }
}

/// A slot that holds too little is asked for under its own name, with its own item and up to a full
/// stack of it; the first slot is asked for first.
pub proof fn law_both_slots_are_topped_up(who: Character, bank: Seq<BankItem>)
    requires
        who.utility1_slot_quantity >= 0,
        who.utility2_slot_quantity >= 0,
    ensures
        ({
            let one = who.utility1_slot@.len() > 0 && who.utility1_slot_quantity < 100 && bank_qty(
                bank,
                who.utility1_slot@,
            ) > 0;
            let two = who.utility2_slot@.len() > 0 && who.utility2_slot_quantity < 100 && bank_qty(
                bank,
                who.utility2_slot@,
            ) > 0;
            let asked = lacking(who, bank);
            let second = if one {
                1int
            } else {
                0
            };
            &&& asked.len() == second + if two {
                1int
            } else {
                0
            }
            &&& one ==> asked[0].0 == "utility1"@ && asked[0].1 == who.utility1_slot@ && 0
                < asked[0].2 <= 100 - who.utility1_slot_quantity && (asked[0].2 == 100
                - who.utility1_slot_quantity || asked[0].2 == bank_qty(bank, who.utility1_slot@))
            &&& two ==> asked[second].0 == "utility2"@ && asked[second].1 == who.utility2_slot@ && 0
                < asked[second].2 <= 100 - who.utility2_slot_quantity && (asked[second].2 == 100
                - who.utility2_slot_quantity || asked[second].2 == bank_qty(
                bank,
                who.utility2_slot@,
            ))
        }),
{
}

/// When a round of stocking up does what. To fill slots it deposits everything first, goes to the
/// bank, and withdraws and puts on what it asks for, pass by pass. To top them up it sets out only
/// where something is missing.
pub proof fn law_when_stocking_up_does_what(
    round: UtilityRoundView,
    who: Character,
    items: Seq<Item>,
    bank: Seq<BankItem>,
)
    ensures
        ({
            let (order, after) = utility_rule(round, who, items, bank);
            let fill = fill_requests(who, items, bank, round.slot1_free, round.slot2_free);
            let here = stands_at_bank(who);
            &&& order is StoreAll <==> round.step is ToFill && (round.slot1_free || round.slot2_free)
            &&& order is GoToBank <==> !here && (round.step is Stored || (round.step is ToTopUp
                && lacking(who, bank).len() > 0))
            &&& order is PutOn <==> round.step is Fetched
            &&& order is PutOn ==> order->PutOn_0 == round.bodies && after.step is AtBank
                && after.equipped
            &&& order is Withdraw ==> after.step is Fetched && order->Withdraw_0.len()
                == after.bodies.len() && after.bodies.len() > 0 && forall|i: int|
                0 <= i < after.bodies.len() ==> #[trigger] order->Withdraw_0[i] == (
                    after.bodies[i].1,
                    after.bodies[i].2,
                )
            &&& round.step is AtBankToFill || (round.step is Stored && here) ==> after.requests.len()
                == fill.len() && forall|i: int|
                0 <= i < fill.len() ==> (#[trigger] after.requests[i]).0 == fill[i].0
                    && after.requests[i].1 == fill[i].1
            &&& round.step is ToTopUp && lacking(who, bank).len() > 0 ==> after.requests.len()
                == lacking(who, bank).len() && forall|i: int|
                0 <= i < lacking(who, bank).len() ==> (#[trigger] after.requests[i]).0 == lacking(
                    who,
                    bank,
                )[i].0 && after.requests[i].1 == lacking(who, bank)[i].1
            &&& round.step is AtBank ==> after.requests.len() == round.requests.len() && forall|
                i: int,
            |
                0 <= i < round.requests.len() ==> (#[trigger] after.requests[i]).0
                    == round.requests[i].0 && after.requests[i].1 == round.requests[i].1
        }),
{
}

/// When a refiner does what. A full bag is emptied before the next batch; an empty batch ends the
/// work with a deposit; what a batch lacks is withdrawn at the bank, and without anything to fetch
/// it goes straight to the workshop. There it makes one after another what the batch holds, as many
/// as it says.
pub proof fn law_when_a_refiner_does_what(round: RefineRoundView, who: Character, batch: Batch)
    requires
        round.wf(),
    ensures
        ({
            let (order, after) = refine_rule(round, who, batch);
            let starts = round.step is Ready || (round.step is AtWorkshop && round.made
                == round.crafts.len());
            let plans = round.step is Emptied || (starts && !is_full(who));
            let works = plans && batch.crafts.len() > 0;
            &&& order is StoreAll <==> (starts && is_full(who)) || (plans && batch.crafts.len() == 0)
            &&& starts && is_full(who) ==> after.step is Emptied
            &&& order is GoToBank <==> works && batch.withdraw.len() > 0 && !stands_at_bank(who)
            &&& order is Withdraw <==> round.step is AtBank || (works && batch.withdraw.len() > 0
                && stands_at_bank(who))
            &&& order is Withdraw ==> order->Withdraw_0 == if round.step is AtBank {
                round.withdraw
            } else {
                batch.withdraw
            }
            &&& order is GoToWorkshop <==> round.step is Loaded || (works && batch.withdraw.len()
                == 0)
            &&& order is Craft <==> round.step is AtWorkshop && round.made < round.crafts.len()
            &&& order is Craft ==> order->code == round.crafts[round.made].0 && order->quantity
                == round.crafts[round.made].1
            &&& plans ==> after.made == 0
        }),
{
}

/// What a gatherer goes by is told from its own level and bag. The room it leaves is that for the
/// most its target can give: the new target's on arrival, and from then on that of the target it
/// arrived at.
pub proof fn law_what_a_gatherer_goes_by(
    f: GatherFacts,
    step: GatherStep,
    m: GatherMemory,
    who: Character,
    skill: Seq<char>,
    fighter_level: int,
    target: Option<Seq<MonsterDrop>>,
)
    requires
        facts_hold(f, step, m, who, skill, fighter_level, target),
    ensures
        ({
            let room = who.inventory_max_items - carried(
                who.inventory@,
                who.inventory@.len() as int,
            );
            &&& f.full ==> room <= 0 || used_count(who.inventory@, who.inventory@.len() as int) >= 20
            &&& room <= 0 ==> f.full
            &&& step is Arrived ==> (f.nearly_full <==> room <= f.target_drops)
            &&& !(step is Arrived) ==> (f.nearly_full <==> room <= m.max_drops)
            &&& f.has_target <==> target is Some
            &&& target is None ==> f.target_drops == 0
            &&& f.level == level_in(who, skill)
            &&& f.promoted <==> is_promoted(who, skill, fighter_level)
        }),
{
}

} // verus!
