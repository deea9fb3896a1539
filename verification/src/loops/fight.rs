//! The loop of a fighter, as rules: what it does next, given how the last step went.

use vstd::prelude::*;

use super::gather::is_full;
use super::promotion::{is_promoted, should_revert};
use crate::api::getters::is_inventory_full;
use crate::types::{copy_character, same_character, Character};

verus! {

/// Whether a utility slot that held charges has run dry.
pub open spec fn has_run_dry(before: Character, after: Character) -> bool {
    ||| before.utility1_slot_quantity > 0 && after.utility1_slot_quantity <= 0
    ||| before.utility2_slot_quantity > 0 && after.utility2_slot_quantity <= 0
}

/// Whether a utility slot that held charges has run dry.
pub fn utility_ran_dry(before: &Character, after: &Character) -> (r: bool)
    ensures
        r == has_run_dry(*before, *after),
{
    (before.utility1_slot_quantity > 0 && after.utility1_slot_quantity <= 0) || (
    before.utility2_slot_quantity > 0 && after.utility2_slot_quantity <= 0)
}

/// The step of its loop that a fighter has just finished.
#[derive(Debug, Clone, Copy, PartialEq, Eq, Structural)]
pub enum FightStep {
    /// It has been fetched from the server.
    Fetched,
    /// It has emptied a full bag before the first fight.
    FirstUnloaded,
    /// It has filled empty utility slots before the first fight.
    FirstSupplied,
    /// It has topped up its utility slots before the first fight.
    FirstToppedUp,
    /// It has seen to its food before the first fight.
    FirstFed,
    /// It has found its first target.
    FirstTargeted,
    /// It has healed and is ready for the next fight.
    Ready,
    /// It has fought.
    Fought,
    /// It has been fitted out anew after a level-up.
    Refitted,
    /// It has seen to its food after a fight.
    Fed,
    /// It has emptied a full bag after a fight.
    Unloaded,
    /// It has topped up its utility slots after that.
    UnloadedToppedUp,
    /// It has seen to its food after that.
    UnloadedFed,
    /// It has filled the utility slot that ran dry.
    Supplied,
    /// It has judged its target anew after that.
    SuppliedTargeted,
    /// It has topped up the other utility slot.
    SuppliedToppedUp,
    /// It has healed after a fight.
    Healed,
    /// It has acted on its flags.
    Flagged,
    /// It has topped up its utility slots after that.
    FlaggedToppedUp,
}

/// What a fighter does next.
#[derive(Debug, Clone, Copy, PartialEq, Eq, Structural)]
pub enum FightAction {
    /// Turn back to gathering.
    SwitchBack,
    /// Empty the bag at the bank and come back.
    Unload,
    /// Fill empty utility slots.
    Supply,
    /// Top up utility slots, and judge the target anew where that changed anything and `rejudge`
    /// says so.
    TopUp { rejudge: bool },
    /// See to its food.
    SeeToFood,
    /// Find the target, and the best gear too where `refit` says so.
    Target { refit: bool },
    /// Get hit points back.
    Heal,
    Fight,
    HandleFlags,
}

/// What kind of fighter it is: the one whose level everyone else is measured against, or one that
/// turns back to gathering; and whether it starts by finding the best gear.
#[derive(Debug, Clone, Copy, PartialEq, Eq, Structural)]
pub struct FighterKind {
    pub dedicated: bool,
    pub refit_on_entry: bool,
}

/// What a fighter goes by: whether it has fallen below the threshold for fighting, whether its bag
/// is full, whether it has levelled up, and whether a utility slot has run dry in this fight.
#[derive(Debug, Clone, Copy, PartialEq, Eq, Structural)]
pub struct FightFacts {
    pub demoted: bool,
    pub full: bool,
    pub levelled_up: bool,
    pub ran_dry: bool,
}

/// What a fighter with its bag in order does: fill a slot that ran dry, or heal.
pub open spec fn after_bag(f: FightFacts) -> FightAction {
    if f.ran_dry {
        FightAction::Supply
    } else {
        FightAction::Heal
    }
}

/// What a fighter ready for the next fight does.
pub open spec fn when_ready(kind: FighterKind, f: FightFacts) -> FightAction {
    if !kind.dedicated && f.demoted {
        FightAction::SwitchBack
    } else {
        FightAction::Fight
    }
}

/// The rules of the loop.
pub open spec fn fight_rule(step: FightStep, kind: FighterKind, f: FightFacts) -> FightAction {
    match step {
        FightStep::Fetched => if f.full {
            FightAction::Unload
        } else {
            FightAction::Supply
        },
        FightStep::FirstUnloaded => FightAction::Supply,
        FightStep::FirstSupplied => FightAction::TopUp { rejudge: false },
        FightStep::FirstToppedUp => FightAction::SeeToFood,
        FightStep::FirstFed => FightAction::Target { refit: kind.refit_on_entry },
        FightStep::FirstTargeted => FightAction::Heal,
        FightStep::Ready => when_ready(kind, f),
        FightStep::Fought => if f.levelled_up {
            FightAction::Target { refit: true }
        } else {
            FightAction::SeeToFood
        },
        FightStep::Refitted => FightAction::SeeToFood,
        FightStep::Fed => if f.full {
            FightAction::Unload
        } else {
            after_bag(f)
        },
        FightStep::Unloaded => FightAction::TopUp { rejudge: true },
        FightStep::UnloadedToppedUp => FightAction::SeeToFood,
        FightStep::UnloadedFed => after_bag(f),
        FightStep::Supplied => FightAction::Target { refit: false },
        FightStep::SuppliedTargeted => FightAction::TopUp { rejudge: true },
        FightStep::SuppliedToppedUp => FightAction::Heal,
        FightStep::Healed => FightAction::HandleFlags,
        FightStep::Flagged => FightAction::TopUp { rejudge: true },
        FightStep::FlaggedToppedUp => when_ready(kind, f),
    }
}

/// The step that an action taken after a step leads to; none where it ends the loop.
pub open spec fn fight_step_after(step: FightStep, action: FightAction) -> Option<FightStep> {
    match (step, action) {
        (_, FightAction::SwitchBack) => None,
        (FightStep::Fetched, FightAction::Unload) => Some(FightStep::FirstUnloaded),
        (FightStep::Fetched, _) => Some(FightStep::FirstSupplied),
        (FightStep::FirstUnloaded, _) => Some(FightStep::FirstSupplied),
        (FightStep::FirstSupplied, _) => Some(FightStep::FirstToppedUp),
        (FightStep::FirstToppedUp, _) => Some(FightStep::FirstFed),
        (FightStep::FirstFed, _) => Some(FightStep::FirstTargeted),
        (FightStep::FirstTargeted, _) => Some(FightStep::Ready),
        (FightStep::Ready, _) => Some(FightStep::Fought),
        (FightStep::Fought, FightAction::Target { .. }) => Some(FightStep::Refitted),
        (FightStep::Fought, _) => Some(FightStep::Fed),
        (FightStep::Refitted, _) => Some(FightStep::Fed),
        (FightStep::Fed, FightAction::Unload) => Some(FightStep::Unloaded),
        (FightStep::Fed, FightAction::Supply) => Some(FightStep::Supplied),
        (FightStep::Fed, _) => Some(FightStep::Healed),
        (FightStep::Unloaded, _) => Some(FightStep::UnloadedToppedUp),
        (FightStep::UnloadedToppedUp, _) => Some(FightStep::UnloadedFed),
        (FightStep::UnloadedFed, FightAction::Supply) => Some(FightStep::Supplied),
        (FightStep::UnloadedFed, _) => Some(FightStep::Healed),
        (FightStep::Supplied, _) => Some(FightStep::SuppliedTargeted),
        (FightStep::SuppliedTargeted, _) => Some(FightStep::SuppliedToppedUp),
        (FightStep::SuppliedToppedUp, _) => Some(FightStep::Healed),
        (FightStep::Healed, _) => Some(FightStep::Flagged),
        (FightStep::Flagged, _) => Some(FightStep::FlaggedToppedUp),
        (FightStep::FlaggedToppedUp, _) => Some(FightStep::Fought),
    }
}

/// `f` holds of a character that looked like `before` before its last fight and had `prev_level`
/// after the one before.
pub open spec fn fight_facts_hold(
    f: FightFacts,
    who: Character,
    before: Character,
    prev_level: Option<i32>,
    revert_skill: Option<Seq<char>>,
    fighter_level: int,
) -> bool {
    &&& f.demoted == (revert_skill matches Some(skill) && !is_promoted(who, skill, fighter_level))
    &&& f.full == is_full(who)
    &&& f.levelled_up == (prev_level matches Some(prev) && who.level > prev)
    &&& f.ran_dry == has_run_dry(before, who)
}

/// The characters of an optional skill.
pub open spec fn opt_skill(skill: Option<&str>) -> Option<Seq<char>> {
    match skill {
        Some(s) => Some(s@),
        None => None,
    }
}

/// What a fighter does next after a step. `revert_skill` is the skill that a promoted character
/// turns back to; the dedicated fighter has none.
pub fn next_fight_action(
    step: FightStep,
    refit_on_entry: bool,
    character: &Character,
    before_fight: &Character,
    prev_level: Option<i32>,
    revert_skill: Option<&str>,
    fighter_combat_level: i32,
) -> (r: FightAction)
    ensures
        exists|f: FightFacts|
            {
                &&& #[trigger] fight_facts_hold(
                    f,
                    *character,
                    *before_fight,
                    prev_level,
                    opt_skill(revert_skill),
                    fighter_combat_level as int,
                )
                &&& r == fight_rule(
                    step,
                    FighterKind { dedicated: revert_skill is None, refit_on_entry },
                    f,
                )
            },
{
    let f = FightFacts {
        demoted: match revert_skill {
            Some(skill) => should_revert(character, skill, fighter_combat_level),
            None => false,
        },
        full: is_inventory_full(character),
        levelled_up: match prev_level {
            Some(prev) => character.level > prev,
            None => false,
        },
        ran_dry: utility_ran_dry(before_fight, character),
    };
    assert(fight_facts_hold(
        f,
        *character,
        *before_fight,
        prev_level,
        opt_skill(revert_skill),
        fighter_combat_level as int,
    ));
    let dedicated: bool = revert_skill.is_none();
    let bag_done: FightAction = if f.ran_dry {
        FightAction::Supply
    } else {
        FightAction::Heal
    };
    let ready: FightAction = if !dedicated && f.demoted {
        FightAction::SwitchBack
    } else {
        FightAction::Fight
    };
    match step {
        FightStep::Fetched => if f.full {
            FightAction::Unload
        } else {
            FightAction::Supply
        },
        FightStep::FirstUnloaded => FightAction::Supply,
        FightStep::FirstSupplied => FightAction::TopUp { rejudge: false },
        FightStep::FirstToppedUp => FightAction::SeeToFood,
        FightStep::FirstFed => FightAction::Target { refit: refit_on_entry },
        FightStep::FirstTargeted => FightAction::Heal,
        FightStep::Ready => ready,
        FightStep::Fought => if f.levelled_up {
            FightAction::Target { refit: true }
        } else {
            FightAction::SeeToFood
        },
        FightStep::Refitted => FightAction::SeeToFood,
        FightStep::Fed => if f.full {
            FightAction::Unload
        } else {
            bag_done
        },
        FightStep::Unloaded => FightAction::TopUp { rejudge: true },
        FightStep::UnloadedToppedUp => FightAction::SeeToFood,
        FightStep::UnloadedFed => bag_done,
        FightStep::Supplied => FightAction::Target { refit: false },
        FightStep::SuppliedTargeted => FightAction::TopUp { rejudge: true },
        FightStep::SuppliedToppedUp => FightAction::Heal,
        FightStep::Healed => FightAction::HandleFlags,
        FightStep::Flagged => FightAction::TopUp { rejudge: true },
        FightStep::FlaggedToppedUp => ready,
    }
}

/// The step that an action taken after a step leads to; none where it ends the loop.
pub fn next_fight_step(step: FightStep, action: FightAction) -> (r: Option<FightStep>)
    ensures
        r == fight_step_after(step, action),
{
    match (step, action) {
        (_, FightAction::SwitchBack) => None,
        (FightStep::Fetched, FightAction::Unload) => Some(FightStep::FirstUnloaded),
        (FightStep::Fetched, _) => Some(FightStep::FirstSupplied),
        (FightStep::FirstUnloaded, _) => Some(FightStep::FirstSupplied),
        (FightStep::FirstSupplied, _) => Some(FightStep::FirstToppedUp),
        (FightStep::FirstToppedUp, _) => Some(FightStep::FirstFed),
        (FightStep::FirstFed, _) => Some(FightStep::FirstTargeted),
        (FightStep::FirstTargeted, _) => Some(FightStep::Ready),
        (FightStep::Ready, _) => Some(FightStep::Fought),
        (FightStep::Fought, FightAction::Target { .. }) => Some(FightStep::Refitted),
        (FightStep::Fought, _) => Some(FightStep::Fed),
        (FightStep::Refitted, _) => Some(FightStep::Fed),
        (FightStep::Fed, FightAction::Unload) => Some(FightStep::Unloaded),
        (FightStep::Fed, FightAction::Supply) => Some(FightStep::Supplied),
        (FightStep::Fed, _) => Some(FightStep::Healed),
        (FightStep::Unloaded, _) => Some(FightStep::UnloadedToppedUp),
        (FightStep::UnloadedToppedUp, _) => Some(FightStep::UnloadedFed),
        (FightStep::UnloadedFed, FightAction::Supply) => Some(FightStep::Supplied),
        (FightStep::UnloadedFed, _) => Some(FightStep::Healed),
        (FightStep::Supplied, _) => Some(FightStep::SuppliedTargeted),
        (FightStep::SuppliedTargeted, _) => Some(FightStep::SuppliedToppedUp),
        (FightStep::SuppliedToppedUp, _) => Some(FightStep::Healed),
        (FightStep::Healed, _) => Some(FightStep::Flagged),
        (FightStep::Flagged, _) => Some(FightStep::FlaggedToppedUp),
        (FightStep::FlaggedToppedUp, _) => Some(FightStep::Fought),
    }
}

/// Whether a level-up of this fighter is what everyone else is measured against.
pub fn sets_the_bar(revert_skill: Option<&str>, levelled_up: bool) -> (r: bool)
    ensures
        r == (revert_skill is None && levelled_up),
{
    revert_skill.is_none() && levelled_up
}

/// What a fighter remembers from step to step: its level after the fight before, and how it was
/// before the last fight.
#[derive(Debug)]
pub struct FightMemory {
    pub prev_level: Option<i32>,
    pub before_fight: Character,
}

impl FightMemory {
    /// What a fighter remembers before its first fight.
    pub fn new(character: &Character) -> (m: Self)
        ensures
            m.prev_level is None,
            same_character(m.before_fight, *character),
    {
        FightMemory { prev_level: None, before_fight: copy_character(character) }
    }
}

/// What a fighter does next, whether the fight has taken it to a new level, and whether that is what
/// everyone else is measured against from now on.
#[derive(Debug, Clone, Copy, PartialEq, Eq, Structural)]
pub struct FightTurn {
    pub action: FightAction,
    pub levelled_up: bool,
    pub sets_the_bar: bool,
}

/// What a fighter does next after a step, by what it remembers. After a fight it remembers its level,
/// and before one how it is.
pub fn next_fight_turn(
    step: FightStep,
    refit_on_entry: bool,
    character: &Character,
    memory: &mut FightMemory,
    revert_skill: Option<&str>,
    fighter_combat_level: i32,
) -> (r: FightTurn)
    ensures
        exists|f: FightFacts|
            {
                &&& #[trigger] fight_facts_hold(
                    f,
                    *character,
                    old(memory).before_fight,
                    old(memory).prev_level,
                    opt_skill(revert_skill),
                    fighter_combat_level as int,
                )
                &&& r.action == fight_rule(
                    step,
                    FighterKind { dedicated: revert_skill is None, refit_on_entry },
                    f,
                )
                &&& r.levelled_up == (step is Fought && f.levelled_up)
                &&& r.sets_the_bar == (r.levelled_up && revert_skill is None)
            },
        final(memory).prev_level == if step is Fought {
            Some(character.level)
        } else {
            old(memory).prev_level
        },
        if r.action is Fight {
            same_character(final(memory).before_fight, *character)
        } else {
            final(memory).before_fight == old(memory).before_fight
        },
{
    let action: FightAction = next_fight_action(
        step,
        refit_on_entry,
        character,
        &memory.before_fight,
        memory.prev_level,
        revert_skill,
        fighter_combat_level,
    );
    let mut levelled_up: bool = false;
    if step == FightStep::Fought {
        levelled_up = match memory.prev_level {
            Some(prev) => character.level > prev,
            None => false,
        };
        memory.prev_level = Some(character.level);
    }
    if action == FightAction::Fight {
        memory.before_fight = copy_character(character);
    }
    FightTurn { action, levelled_up, sets_the_bar: sets_the_bar(revert_skill, levelled_up) }
}

/// Steps until the next fight at the latest.
pub open spec fn steps_to_fight(step: FightStep) -> nat {
    match step {
        FightStep::Fetched => 7,
        FightStep::FirstUnloaded => 6,
        FightStep::FirstSupplied => 5,
        FightStep::FirstToppedUp => 4,
        FightStep::FirstFed => 3,
        FightStep::FirstTargeted => 2,
        FightStep::Ready => 1,
        FightStep::Fought => 13,
        FightStep::Refitted => 12,
        FightStep::Fed => 11,
        FightStep::Unloaded => 10,
        FightStep::UnloadedToppedUp => 9,
        FightStep::UnloadedFed => 8,
        FightStep::Supplied => 7,
        FightStep::SuppliedTargeted => 6,
        FightStep::SuppliedToppedUp => 5,
        FightStep::Healed => 3,
        FightStep::Flagged => 2,
        FightStep::FlaggedToppedUp => 1,
    }
}

/// Whatever happens on the way, every step brings the next fight, or the return to gathering,
/// closer.
pub proof fn law_fight_comes(step: FightStep, kind: FighterKind, f: FightFacts)
    ensures
        ({
            let action = fight_rule(step, kind, f);
            action is Fight || action is SwitchBack || (fight_step_after(step, action) matches Some(
                next,
            ) && steps_to_fight(next) < steps_to_fight(step))
        }),
{
}

/// A fighter only fights after it has healed, acts on its flags between any two fights, and the
/// dedicated fighter never turns back.
pub proof fn law_fighting_is_prepared(step: FightStep, kind: FighterKind, f: FightFacts)
    ensures
        fight_rule(step, kind, f) is Fight ==> step is Ready || step is FlaggedToppedUp,
        fight_rule(step, kind, f) is Fight && !kind.dedicated ==> !f.demoted,
        kind.dedicated ==> !(fight_rule(step, kind, f) is SwitchBack),
        fight_step_after(step, fight_rule(step, kind, f)) == Some(FightStep::Ready)
            ==> fight_rule(step, kind, f) is Heal,
        fight_step_after(step, fight_rule(step, kind, f)) == Some(FightStep::Healed)
            ==> fight_rule(step, kind, f) is Heal,
        fight_step_after(step, fight_rule(step, kind, f)) == Some(FightStep::FlaggedToppedUp)
            ==> step is Flagged,
        fight_step_after(step, fight_rule(step, kind, f)) == Some(FightStep::Flagged) ==> step
            is Healed && fight_rule(step, kind, f) is HandleFlags,
{
}

} // verus!
