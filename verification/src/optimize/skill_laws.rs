//! What holds of skills by name: each name stands for the fields of its own skill and no others.

use vstd::prelude::*;

use super::skills::{level_in, refining_skill, xp_progress};
use crate::types::Character;

verus! {

/// Whether a name is that of a skill.
pub open spec fn is_skill(name: Seq<char>) -> bool {
    ||| name == "fishing"@
    ||| name == "mining"@
    ||| name == "woodcutting"@
    ||| name == "weaponcrafting"@
    ||| name == "gearcrafting"@
    ||| name == "jewelrycrafting"@
    ||| name == "cooking"@
    ||| name == "alchemy"@
}

/// No two skills have the same name.
pub proof fn lemma_skill_names()
    ensures
        "fishing"@ != "mining"@,
        "fishing"@ != "woodcutting"@,
        "fishing"@ != "weaponcrafting"@,
        "fishing"@ != "gearcrafting"@,
        "fishing"@ != "jewelrycrafting"@,
        "fishing"@ != "cooking"@,
        "fishing"@ != "alchemy"@,
        "mining"@ != "woodcutting"@,
        "mining"@ != "weaponcrafting"@,
        "mining"@ != "gearcrafting"@,
        "mining"@ != "jewelrycrafting"@,
        "mining"@ != "cooking"@,
        "mining"@ != "alchemy"@,
        "woodcutting"@ != "weaponcrafting"@,
        "woodcutting"@ != "gearcrafting"@,
        "woodcutting"@ != "jewelrycrafting"@,
        "woodcutting"@ != "cooking"@,
        "woodcutting"@ != "alchemy"@,
        "weaponcrafting"@ != "gearcrafting"@,
        "weaponcrafting"@ != "jewelrycrafting"@,
        "weaponcrafting"@ != "cooking"@,
        "weaponcrafting"@ != "alchemy"@,
        "gearcrafting"@ != "jewelrycrafting"@,
        "gearcrafting"@ != "cooking"@,
        "gearcrafting"@ != "alchemy"@,
        "jewelrycrafting"@ != "cooking"@,
        "jewelrycrafting"@ != "alchemy"@,
        "cooking"@ != "alchemy"@,
{
    reveal_strlit("fishing");
    reveal_strlit("mining");
    reveal_strlit("woodcutting");
    reveal_strlit("weaponcrafting");
    reveal_strlit("gearcrafting");
    reveal_strlit("jewelrycrafting");
    reveal_strlit("cooking");
    reveal_strlit("alchemy");
    assert("fishing"@.len() == 7);
    assert("mining"@.len() == 6);
    assert("woodcutting"@.len() == 11);
    assert("weaponcrafting"@.len() == 14);
    assert("gearcrafting"@.len() == 12);
    assert("jewelrycrafting"@.len() == 15);
    assert("cooking"@.len() == 7);
    assert("alchemy"@.len() == 7);
    assert("fishing"@[0] == 'f' && "cooking"@[0] == 'c' && "alchemy"@[0] == 'a');
}

/// A character's level in a skill is the field of that skill; a name that is no skill stands at 1.
pub proof fn law_level_is_the_skills_own_field(c: Character)
    ensures
        level_in(c, "fishing"@) == c.fishing_level,
        level_in(c, "mining"@) == c.mining_level,
        level_in(c, "woodcutting"@) == c.woodcutting_level,
        level_in(c, "weaponcrafting"@) == c.weaponcrafting_level,
        level_in(c, "gearcrafting"@) == c.gearcrafting_level,
        level_in(c, "jewelrycrafting"@) == c.jewelrycrafting_level,
        level_in(c, "cooking"@) == c.cooking_level,
        level_in(c, "alchemy"@) == c.alchemy_level,
        forall|name: Seq<char>| !is_skill(name) ==> #[trigger] level_in(c, name) == 1,
{
    lemma_skill_names();
}

/// Practising one skill leaves the level in every other as it was.
pub proof fn law_skills_are_independent(a: Character, b: Character)
    ensures
        a.fishing_level == b.fishing_level ==> level_in(a, "fishing"@) == level_in(b, "fishing"@),
        a.mining_level == b.mining_level ==> level_in(a, "mining"@) == level_in(b, "mining"@),
        a.woodcutting_level == b.woodcutting_level ==> level_in(a, "woodcutting"@) == level_in(
            b,
            "woodcutting"@,
        ),
        a.weaponcrafting_level == b.weaponcrafting_level ==> level_in(a, "weaponcrafting"@)
            == level_in(b, "weaponcrafting"@),
        a.gearcrafting_level == b.gearcrafting_level ==> level_in(a, "gearcrafting"@) == level_in(
            b,
            "gearcrafting"@,
        ),
        a.jewelrycrafting_level == b.jewelrycrafting_level ==> level_in(a, "jewelrycrafting"@)
            == level_in(b, "jewelrycrafting"@),
        a.cooking_level == b.cooking_level ==> level_in(a, "cooking"@) == level_in(b, "cooking"@),
        a.alchemy_level == b.alchemy_level ==> level_in(a, "alchemy"@) == level_in(b, "alchemy"@),
{
    law_level_is_the_skills_own_field(a);
    law_level_is_the_skills_own_field(b);
}

/// Progress in a skill that has a wishlist is read off that skill's own level, XP and XP of the
/// next level; its level is the one that recipes are held against.
pub proof fn law_progress_is_the_skills_own(c: Character)
    ensures
        xp_progress(c, "weaponcrafting"@) == (
            c.weaponcrafting_level as int,
            c.weaponcrafting_xp as int,
            c.weaponcrafting_max_xp as int,
        ),
        xp_progress(c, "gearcrafting"@) == (
            c.gearcrafting_level as int,
            c.gearcrafting_xp as int,
            c.gearcrafting_max_xp as int,
        ),
        xp_progress(c, "jewelrycrafting"@) == (
            c.jewelrycrafting_level as int,
            c.jewelrycrafting_xp as int,
            c.jewelrycrafting_max_xp as int,
        ),
        xp_progress(c, "alchemy"@) == (
            c.alchemy_level as int,
            c.alchemy_xp as int,
            c.alchemy_max_xp as int,
        ),
        xp_progress(c, "weaponcrafting"@).0 == level_in(c, "weaponcrafting"@),
        xp_progress(c, "gearcrafting"@).0 == level_in(c, "gearcrafting"@),
        xp_progress(c, "jewelrycrafting"@).0 == level_in(c, "jewelrycrafting"@),
        xp_progress(c, "alchemy"@).0 == level_in(c, "alchemy"@),
{
    lemma_skill_names();
}

/// Wood and ore are refined with the skill that brought them in, fish is cooked, and nothing else
/// is refined.
pub proof fn law_what_refines_what()
    ensures
        refining_skill("woodcutting"@) == "woodcutting"@,
        refining_skill("mining"@) == "mining"@,
        refining_skill("fishing"@) == "cooking"@,
        forall|name: Seq<char>|
            name != "woodcutting"@ && name != "mining"@ && name != "fishing"@
                ==> (#[trigger] refining_skill(name)).len() == 0,
{
    lemma_skill_names();
    reveal_strlit("");
    assert(""@.len() == 0);
}

} // verus!
