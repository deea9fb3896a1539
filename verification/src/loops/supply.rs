//! Quantities by item code that are drawn down or built up while a plan is made. Sums that leave
//! the 32-bit range stay at its edge.

use vstd::prelude::*;

use super::market::{stock, stock_of};
use crate::arith::{sat_i32, saturated};
use crate::table::Table;
use crate::types::{BankItem, CraftIngredient};

verus! {

/// A supply with `qty` more of `code`.
pub open spec fn with_added(supply: Map<Seq<char>, i32>, code: Seq<char>, qty: int) -> Map<
    Seq<char>,
    i32,
> {
    supply.insert(code, sat_i32(stock(supply, code) + qty) as i32)
}

/// Adds `qty` of `code`.
pub fn add_to(supply: &mut Table<i32>, code: &str, qty: i32)
    requires
        old(supply).wf(),
    ensures
        final(supply).wf(),
        final(supply)@ == with_added(old(supply)@, code@, qty as int),
{
    let sum: i64 = stock_of(supply, code) as i64 + qty as i64;
    supply.insert(code.to_owned(), saturated(sum));
}

/// Takes `qty` of `code`.
pub fn take_from(supply: &mut Table<i32>, code: &str, qty: i64)
    requires
        old(supply).wf(),
        -0x4000_0000_0000_0000 <= qty <= 0x4000_0000_0000_0000,
    ensures
        final(supply).wf(),
        final(supply)@ == with_added(old(supply)@, code@, -(qty as int)),
{
    let rest: i64 = stock_of(supply, code) as i64 - qty;
    supply.insert(code.to_owned(), saturated(rest));
}

/// Whether a supply holds each ingredient of one craft.
pub open spec fn supplies(supply: Map<Seq<char>, i32>, ingredients: Seq<CraftIngredient>) -> bool {
    forall|i: int|
        0 <= i < ingredients.len() ==> stock(supply, (#[trigger] ingredients[i]).code@)
            >= ingredients[i].quantity
}

/// Whether a supply holds each ingredient of one craft.
pub fn has_all(supply: &Table<i32>, ingredients: &[CraftIngredient]) -> (r: bool)
    requires
        supply.wf(),
    ensures
        r == supplies(supply@, ingredients@),
{
    let mut i: usize = 0;
    while i < ingredients.len()
        invariant
            i <= ingredients@.len(),
            supply.wf(),
            forall|j: int|
                0 <= j < i ==> stock(supply@, (#[trigger] ingredients@[j]).code@)
                    >= ingredients@[j].quantity,
        decreases ingredients@.len() - i,
    {
        if stock_of(supply, &ingredients[i].code) < ingredients[i].quantity {
            return false;
        }
        i += 1;
    }
    true
}

/// A supply without the first `n` ingredients of one craft.
pub open spec fn spent(
    supply: Map<Seq<char>, i32>,
    ingredients: Seq<CraftIngredient>,
    n: int,
) -> Map<Seq<char>, i32>
    decreases n,
{
    if n <= 0 {
        supply
    } else {
        with_added(
            spent(supply, ingredients, n - 1),
            ingredients[n - 1].code@,
            -(ingredients[n - 1].quantity as int),
        )
    }
}

/// Takes the ingredients of one craft.
pub fn spend(supply: &mut Table<i32>, ingredients: &[CraftIngredient])
    requires
        old(supply).wf(),
    ensures
        final(supply).wf(),
        final(supply)@ == spent(old(supply)@, ingredients@, ingredients@.len() as int),
{
    let ghost before = supply@;
    let mut i: usize = 0;
    while i < ingredients.len()
        invariant
            i <= ingredients@.len(),
            supply.wf(),
            supply@ == spent(before, ingredients@, i as int),
        decreases ingredients@.len() - i,
    {
        take_from(supply, &ingredients[i].code, ingredients[i].quantity as i64);
        i += 1;
    }
}

/// A supply with the first `n` ingredients of one craft more.
pub open spec fn saved(
    supply: Map<Seq<char>, i32>,
    ingredients: Seq<CraftIngredient>,
    n: int,
) -> Map<Seq<char>, i32>
    decreases n,
{
    if n <= 0 {
        supply
    } else {
        with_added(
            saved(supply, ingredients, n - 1),
            ingredients[n - 1].code@,
            ingredients[n - 1].quantity as int,
        )
    }
}

/// Adds the ingredients of one craft.
pub fn save(supply: &mut Table<i32>, ingredients: &[CraftIngredient])
    requires
        old(supply).wf(),
    ensures
        final(supply).wf(),
        final(supply)@ == saved(old(supply)@, ingredients@, ingredients@.len() as int),
{
    let ghost before = supply@;
    let mut i: usize = 0;
    while i < ingredients.len()
        invariant
            i <= ingredients@.len(),
            supply.wf(),
            supply@ == saved(before, ingredients@, i as int),
        decreases ingredients@.len() - i,
    {
        add_to(supply, &ingredients[i].code, ingredients[i].quantity);
        i += 1;
    }
}

/// What the first `n` stacks of a bank add up to, by code.
pub open spec fn banked(bank: Seq<BankItem>, n: int) -> Map<Seq<char>, i32>
    decreases n,
{
    if n <= 0 {
        Map::empty()
    } else {
        with_added(banked(bank, n - 1), bank[n - 1].code@, bank[n - 1].quantity as int)
    }
}

/// What a bank holds, by code.
pub fn bank_supply(bank: &[BankItem]) -> (r: Table<i32>)
    ensures
        r.wf(),
        r@ == banked(bank@, bank@.len() as int),
{
    let mut supply: Table<i32> = Table::new();
    let mut i: usize = 0;
    while i < bank.len()
        invariant
            i <= bank@.len(),
            supply.wf(),
            supply@ == banked(bank@, i as int),
        decreases bank@.len() - i,
    {
        add_to(&mut supply, &bank[i].code, bank[i].quantity);
        i += 1;
    }
    supply
}

/// Two supplies in one.
pub open spec fn merged(a: Map<Seq<char>, i32>, b: Map<Seq<char>, i32>) -> Map<Seq<char>, i32> {
    Map::new(
        |c: Seq<char>| a.contains_key(c) || b.contains_key(c),
        |c: Seq<char>| sat_i32(stock(a, c) + stock(b, c)) as i32,
    )
}

/// A supply restricted to some codes.
spec fn only(b: Map<Seq<char>, i32>, codes: Seq<Seq<char>>) -> Map<Seq<char>, i32> {
    Map::new(|c: Seq<char>| codes.contains(c), |c: Seq<char>| b[c])
}

/// Adds a second supply to a first.
pub fn merge(a: &mut Table<i32>, b: &Table<i32>)
    requires
        old(a).wf(),
        b.wf(),
    ensures
        final(a).wf(),
        final(a)@ == merged(old(a)@, b@),
{
    let ghost before = a@;
    let ghost keys = b.keys();
    proof {
        b.lemma_keys();
    }
    let mut i: usize = 0;
    assert(a@ =~= merged(before, only(b@, keys.take(0))));
    while i < b.len()
        invariant
            i <= keys.len(),
            a.wf(),
            b.wf(),
            keys == b.keys(),
            keys.no_duplicates(),
            a@ == merged(before, only(b@, keys.take(i as int))),
        decreases keys.len() - i,
    {
        let entry = b.at(i);
        let ghost had = a@;
        add_to(a, entry.0, *entry.1);
        proof {
            let code = keys[i as int];
            let done = keys.take(i as int);
            let next = keys.take(i + 1);
            assert(next =~= done.push(code));
            assert(!done.contains(code)) by {
                if done.contains(code) {
                    let j = choose|j: int| 0 <= j < done.len() && done[j] == code;
                    assert(keys[j] == keys[i as int]);
                }
            }
            assert forall|c: Seq<char>| next.contains(c) <==> (done.contains(c) || c == code) by {
                if done.contains(c) {
                    let j = choose|j: int| 0 <= j < done.len() && done[j] == c;
                    assert(next[j] == c);
                }
                if c == code {
                    assert(next[i as int] == c);
                }
                if next.contains(c) {
                    let j = choose|j: int| 0 <= j < next.len() && next[j] == c;
                    if j < i {
                        assert(done[j] == c);
                    }
                }
            }
            assert(a@ =~= merged(before, only(b@, next)));
        }
        i += 1;
    }
    proof {
        assert(keys.take(i as int) =~= keys);
        assert(only(b@, keys) =~= b@) by {
            assert forall|c: Seq<char>| keys.contains(c) <==> b@.contains_key(c) by {}
        }
    }
}

/// No ingredient is listed twice, and each takes at least nothing.
pub open spec fn is_plain_recipe(ingredients: Seq<CraftIngredient>) -> bool {
    &&& forall|i: int| 0 <= i < ingredients.len() ==> (#[trigger] ingredients[i]).quantity >= 0
    &&& forall|i: int, j: int|
        0 <= i < j < ingredients.len() ==> (#[trigger] ingredients[i]).code@ != (
        #[trigger] ingredients[j]).code@
}

/// How much of `c` the first `n` ingredients of a recipe ask for.
pub open spec fn taken_by(ings: Seq<CraftIngredient>, c: Seq<char>, n: int) -> int
    decreases n,
{
    if n <= 0 {
        0
    } else if ings[n - 1].code@ == c {
        taken_by(ings, c, n - 1) + ings[n - 1].quantity
    } else {
        taken_by(ings, c, n - 1)
    }
}

/// No quantity is below zero.
pub open spec fn is_stocked(supply: Map<Seq<char>, i32>) -> bool {
    forall|code: Seq<char>| #[trigger] supply.contains_key(code) ==> supply[code] >= 0
}

/// Taking the ingredients of a craft that a supply holds takes exactly those, and leaves no
/// quantity below zero.
pub proof fn law_spending_never_overdraws(
    supply: Map<Seq<char>, i32>,
    ingredients: Seq<CraftIngredient>,
    n: int,
)
    requires
        0 <= n <= ingredients.len(),
        is_stocked(supply),
        is_plain_recipe(ingredients),
        supplies(supply, ingredients),
    ensures
        is_stocked(spent(supply, ingredients, n)),
        forall|i: int|
            0 <= i < n ==> stock(spent(supply, ingredients, n), (#[trigger] ingredients[i]).code@)
                == stock(supply, ingredients[i].code@) - ingredients[i].quantity,
        forall|i: int|
            n <= i < ingredients.len() ==> stock(
                spent(supply, ingredients, n),
                (#[trigger] ingredients[i]).code@,
            ) == stock(supply, ingredients[i].code@),
    decreases n,
{
    if n > 0 {
        law_spending_never_overdraws(supply, ingredients, n - 1);
        let before = spent(supply, ingredients, n - 1);
        let ing = ingredients[n - 1];
        assert(stock(before, ing.code@) == stock(supply, ing.code@));
    }
}

/// What a plain recipe asks for of one code is what its one ingredient of that code takes.
pub proof fn lemma_taken_by(ings: Seq<CraftIngredient>, c: Seq<char>, n: int)
    requires
        0 <= n <= ings.len(),
        is_plain_recipe(ings),
    ensures
        taken_by(ings, c, n) >= 0,
        taken_by(ings, c, n) > 0 ==> exists|i: int|
            0 <= i < n && (#[trigger] ings[i]).code@ == c && taken_by(ings, c, n)
                == ings[i].quantity,
        (forall|i: int| 0 <= i < n ==> (#[trigger] ings[i]).code@ != c) ==> taken_by(ings, c, n)
            == 0,
    decreases n,
{
    if n > 0 {
        lemma_taken_by(ings, c, n - 1);
        if ings[n - 1].code@ == c {
            assert forall|i: int| 0 <= i < n - 1 implies (#[trigger] ings[i]).code@ != c by {
                assert(ings[n - 1].code@ == c);
            }
            assert(taken_by(ings, c, n) == ings[n - 1].quantity);
        } else if taken_by(ings, c, n) > 0 {
            let i = choose|i: int|
                0 <= i < n - 1 && (#[trigger] ings[i]).code@ == c && taken_by(ings, c, n - 1)
                    == ings[i].quantity;
            assert(ings[i].code@ == c);
        }
    }
}

/// Taking the first `n` ingredients of a craft that a supply holds takes of every code exactly what
/// they ask for.
pub proof fn law_spending_takes_what_is_asked(
    supply: Map<Seq<char>, i32>,
    ingredients: Seq<CraftIngredient>,
    n: int,
    c: Seq<char>,
)
    requires
        0 <= n <= ingredients.len(),
        is_stocked(supply),
        is_plain_recipe(ingredients),
        supplies(supply, ingredients),
    ensures
        stock(spent(supply, ingredients, n), c) == stock(supply, c) - taken_by(ingredients, c, n),
    decreases n,
{
    if n > 0 {
        law_spending_takes_what_is_asked(supply, ingredients, n - 1, c);
        lemma_taken_by(ingredients, c, n);
        if taken_by(ingredients, c, n) > 0 {
            let i = choose|i: int|
                0 <= i < n && (#[trigger] ingredients[i]).code@ == c && taken_by(ingredients, c, n)
                    == ingredients[i].quantity;
            assert(stock(supply, ingredients[i].code@) >= ingredients[i].quantity);
        }
        assert(stock(supply, c) >= 0);
    }
}

} // verus!
