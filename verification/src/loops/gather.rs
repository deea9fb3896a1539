//! The loop of a gatherer, as rules: what it does next, given how the last step went.
//!
//! A gatherer works its target until one more action might not fit, processes what it has (a
//! refiner refines; the alchemist deposits and crafts), acts on its flags, looks for the best
//! target again and goes back to it. It turns to fighting as soon as its skill has outgrown the
//! fighter.

use vstd::prelude::*;

use super::bank_ops::{carried, total_carried};
use super::promotion::{is_promoted, should_promote};
use crate::api::getters::is_inventory_full;
use crate::arith::{sat_i32, saturated};
use crate::loops::bank_ops::{used_count, INVENTORY_SLOTS};
use crate::optimize::skills::{level_in, skill_level};
use crate::types::{Character, MonsterDrop};

verus! {

/// What the first `n` drops of one action can come to at most.
pub open spec fn most_drops(drops: Seq<MonsterDrop>, n: int) -> int
    decreases n,
{
    if n <= 0 {
        0
    } else {
        sat_i32(most_drops(drops, n - 1) + drops[n - 1].max_quantity)
    }
}

/// What one action can give at most.
pub fn max_drops_per_action(drops: &[MonsterDrop]) -> (r: i32)
    ensures
        r == most_drops(drops@, drops@.len() as int),
{
    let mut sum: i32 = 0;
    let mut i: usize = 0;
    while i < drops.len()
        invariant
            i <= drops@.len(),
            sum == most_drops(drops@, i as int),
        decreases drops@.len() - i,
    {
        sum = saturated(sum as i64 + drops[i].max_quantity as i64);
        i += 1;
    }
    sum
}

/// Whether one more action might give more than fits.
pub open spec fn is_nearly_full(who: Character, max_drops: int) -> bool {
    who.inventory_max_items - carried(who.inventory@, who.inventory@.len() as int) <= max_drops
}

/// Whether one more action might give more than fits.
pub fn one_action_from_full(character: &Character, max_drops: i32) -> (r: bool)
    ensures
        r == is_nearly_full(*character, max_drops as int),
{
    character.inventory_max_items as i64 - total_carried(&character.inventory) as i64
        <= max_drops as i64
}

/// Whether a character can carry no more.
pub open spec fn is_full(who: Character) -> bool {
    let n = who.inventory@.len() as int;
    used_count(who.inventory@, n) >= INVENTORY_SLOTS || carried(who.inventory@, n)
        >= who.inventory_max_items
}

/// The step of its loop that a gatherer has just finished.
#[derive(Debug, Clone, Copy, PartialEq, Eq, Structural)]
pub enum GatherStep {
    /// It has been fetched from the server.
    Fetched,
    /// A target has been looked for.
    Targeted,
    /// Its bag has been emptied before the first trip.
    Unloaded,
    /// It has gone to its target.
    Arrived,
    /// It has gathered once.
    Gathered,
    /// It has been fitted out anew after a level-up.
    Refitted,
    /// It has processed what it gathered.
    Processed,
    /// It has acted on its flags.
    Flagged,
    /// The best target has been looked for again.
    Retargeted,
}

/// What a gatherer does next.
#[derive(Debug, Clone, Copy, PartialEq, Eq, Structural)]
pub enum GatherAction {
    /// Turn to fighting.
    SwitchToFighting,
    /// There is nothing to gather: start over later.
    GiveUp,
    FindTarget,
    /// Empty the bag before the first trip.
    Unload,
    GoToTarget,
    Gather,
    /// Find the best gear and target anew.
    Refit,
    /// Refine, or deposit and craft.
    Process,
    HandleFlags,
    /// Look for the best target again; keep the old one where none is found.
    Retarget,
}

/// What a gatherer remembers from step to step: what one action at its target can give, settled
/// when it arrived, and its level after the last action.
#[derive(Debug, Clone, Copy, PartialEq, Eq, Structural)]
pub struct GatherMemory {
    pub max_drops: i32,
    pub prev_level: Option<i32>,
}

/// What a gatherer goes by: whether its skill has outgrown the fighter, whether its bag is full,
/// whether it is one action from full, its level, whether a target was found, and what one action
/// there can give.
#[derive(Debug, Clone, Copy, PartialEq, Eq, Structural)]
pub struct GatherFacts {
    pub promoted: bool,
    pub full: bool,
    pub nearly_full: bool,
    pub level: i32,
    pub has_target: bool,
    pub target_drops: i32,
}

/// What to do at the target: gather, or process where one more action might not fit.
pub open spec fn work_on(nearly_full: bool) -> GatherAction {
    if nearly_full {
        GatherAction::Process
    } else {
        GatherAction::Gather
    }
}

/// The rules of the loop.
pub open spec fn gather_rule(step: GatherStep, m: GatherMemory, f: GatherFacts) -> (
    GatherAction,
    GatherMemory,
) {
    match step {
        GatherStep::Fetched => (
            if f.promoted {
                GatherAction::SwitchToFighting
            } else {
                GatherAction::FindTarget
            },
            m,
        ),
        GatherStep::Targeted => (
            if !f.has_target {
                GatherAction::GiveUp
            } else if f.full {
                GatherAction::Unload
            } else {
                GatherAction::GoToTarget
            },
            m,
        ),
        GatherStep::Unloaded => (GatherAction::GoToTarget, m),
        GatherStep::Arrived => (
            work_on(f.nearly_full),
            GatherMemory { max_drops: f.target_drops, ..m },
        ),
        GatherStep::Gathered => if m.prev_level matches Some(prev) && f.level > prev {
            (GatherAction::Refit, GatherMemory { prev_level: Some(f.level), ..m })
        } else if f.promoted {
            (GatherAction::SwitchToFighting, GatherMemory { prev_level: Some(f.level), ..m })
        } else {
            (work_on(f.nearly_full), GatherMemory { prev_level: Some(f.level), ..m })
        },
        GatherStep::Refitted => (
            if f.promoted {
                GatherAction::SwitchToFighting
            } else {
                work_on(f.nearly_full)
            },
            m,
        ),
        GatherStep::Processed => (GatherAction::HandleFlags, m),
        GatherStep::Flagged => (GatherAction::Retarget, m),
        GatherStep::Retargeted => (GatherAction::GoToTarget, m),
    }
}

/// What to look at: the room one action needs is that of the target on arrival, and of the target
/// the gatherer arrived at from then on.
pub open spec fn room_needed(step: GatherStep, m: GatherMemory, target_drops: int) -> int {
    if step is Arrived {
        target_drops
    } else {
        m.max_drops as int
    }
}

/// `f` holds of a character.
pub open spec fn facts_hold(
    f: GatherFacts,
    step: GatherStep,
    m: GatherMemory,
    who: Character,
    skill: Seq<char>,
    fighter_level: int,
    target: Option<Seq<MonsterDrop>>,
) -> bool {
    let drops = match target {
        Some(d) => most_drops(d, d.len() as int),
        None => 0,
    };
    &&& f.promoted == is_promoted(who, skill, fighter_level)
    &&& f.full == is_full(who)
    &&& f.nearly_full == is_nearly_full(who, room_needed(step, m, drops))
    &&& f.level == level_in(who, skill)
    &&& f.has_target == (target is Some)
    &&& f.target_drops == drops
}

/// What a list of drops is, if there is one.
pub open spec fn opt_drops(target: Option<&Vec<MonsterDrop>>) -> Option<Seq<MonsterDrop>> {
    match target {
        Some(d) => Some(d@),
        None => None,
    }
}

/// What a gatherer with the given skill does next after a step. `target` gives the drops of its
/// target, if it has one.
pub fn next_gather_action(
    step: GatherStep,
    memory: &mut GatherMemory,
    character: &Character,
    skill: &str,
    fighter_combat_level: i32,
    target: Option<&Vec<MonsterDrop>>,
) -> (r: GatherAction)
    ensures
        exists|f: GatherFacts|
            {
                &&& #[trigger] facts_hold(
                    f,
                    step,
                    *old(memory),
                    *character,
                    skill@,
                    fighter_combat_level as int,
                    opt_drops(target),
                )
                &&& (r, *final(memory)) == gather_rule(step, *old(memory), f)
            },
{
    let target_drops: i32 = match target {
        Some(drops) => max_drops_per_action(drops),
        None => 0,
    };
    let room: i32 = match step {
        GatherStep::Arrived => target_drops,
        _ => memory.max_drops,
    };
    let f = GatherFacts {
        promoted: should_promote(character, skill, fighter_combat_level),
        full: is_inventory_full(character),
        nearly_full: one_action_from_full(character, room),
        level: skill_level(character, skill),
        has_target: target.is_some(),
        target_drops,
    };
    assert(facts_hold(
        f,
        step,
        *old(memory),
        *character,
        skill@,
        fighter_combat_level as int,
        opt_drops(target),
    ));
    let ghost m = *memory;
    let r: GatherAction = match step {
        GatherStep::Fetched => if f.promoted {
            GatherAction::SwitchToFighting
        } else {
            GatherAction::FindTarget
        },
        GatherStep::Targeted => if !f.has_target {
            GatherAction::GiveUp
        } else if f.full {
            GatherAction::Unload
        } else {
            GatherAction::GoToTarget
        },
        GatherStep::Unloaded => GatherAction::GoToTarget,
        GatherStep::Arrived => {
            memory.max_drops = target_drops;
            if f.nearly_full {
                GatherAction::Process
            } else {
                GatherAction::Gather
            }
        },
        GatherStep::Gathered => {
            let levelled: bool = match memory.prev_level {
                Some(prev) => f.level > prev,
                None => false,
            };
            memory.prev_level = Some(f.level);
            if levelled {
                GatherAction::Refit
            } else if f.promoted {
                GatherAction::SwitchToFighting
            } else if f.nearly_full {
                GatherAction::Process
            } else {
                GatherAction::Gather
            }
        },
        GatherStep::Refitted => if f.promoted {
            GatherAction::SwitchToFighting
        } else if f.nearly_full {
            GatherAction::Process
        } else {
            GatherAction::Gather
        },
        GatherStep::Processed => GatherAction::HandleFlags,
        GatherStep::Flagged => GatherAction::Retarget,
        GatherStep::Retargeted => GatherAction::GoToTarget,
    };
    assert((r, *memory) == gather_rule(step, m, f));
    r
}

/// The step that an action leads to; none where it ends the loop.
pub open spec fn step_after(action: GatherAction) -> Option<GatherStep> {
    match action {
        GatherAction::SwitchToFighting => None,
        GatherAction::GiveUp => None,
        GatherAction::FindTarget => Some(GatherStep::Targeted),
        GatherAction::Unload => Some(GatherStep::Unloaded),
        GatherAction::GoToTarget => Some(GatherStep::Arrived),
        GatherAction::Gather => Some(GatherStep::Gathered),
        GatherAction::Refit => Some(GatherStep::Refitted),
        GatherAction::Process => Some(GatherStep::Processed),
        GatherAction::HandleFlags => Some(GatherStep::Flagged),
        GatherAction::Retarget => Some(GatherStep::Retargeted),
    }
}

/// The step that an action leads to; none where it ends the loop.
pub fn gather_step_after(action: GatherAction) -> (r: Option<GatherStep>)
    ensures
        r == step_after(action),
{
    match action {
        GatherAction::SwitchToFighting => None,
        GatherAction::GiveUp => None,
        GatherAction::FindTarget => Some(GatherStep::Targeted),
        GatherAction::Unload => Some(GatherStep::Unloaded),
        GatherAction::GoToTarget => Some(GatherStep::Arrived),
        GatherAction::Gather => Some(GatherStep::Gathered),
        GatherAction::Refit => Some(GatherStep::Refitted),
        GatherAction::Process => Some(GatherStep::Processed),
        GatherAction::HandleFlags => Some(GatherStep::Flagged),
        GatherAction::Retarget => Some(GatherStep::Retargeted),
    }
}

/// A gatherer never gathers where one action might give more than fits, and never goes on gathering
/// once its skill has outgrown the fighter: after every action it looks, at once or right after it
/// has been fitted out anew.
pub proof fn law_gathering_is_safe(step: GatherStep, m: GatherMemory, f: GatherFacts)
    ensures
        gather_rule(step, m, f).0 is Gather ==> !f.nearly_full,
        (step is Gathered || step is Refitted || step is Fetched) && f.promoted ==> {
            ||| gather_rule(step, m, f).0 is SwitchToFighting
            ||| gather_rule(step, m, f).0 is Refit
        },
        step is Refitted && f.promoted ==> gather_rule(step, m, f).0 is SwitchToFighting,
{
}

/// A gatherer that has processed what it gathered always acts on its flags and looks for the best
/// target again before it gathers anew.
pub proof fn law_flags_are_handled_every_round(
    m0: GatherMemory,
    f0: GatherFacts,
    m1: GatherMemory,
    f1: GatherFacts,
    m2: GatherMemory,
    f2: GatherFacts,
)
    ensures
        ({
            let a0 = gather_rule(GatherStep::Processed, m0, f0).0;
            let s1 = step_after(a0)->0;
            let a1 = gather_rule(s1, m1, f1).0;
            let s2 = step_after(a1)->0;
            let a2 = gather_rule(s2, m2, f2).0;
            a0 is HandleFlags && a1 is Retarget && a2 is GoToTarget
        }),
{
}

} // verus!
