//! The shared bank.

use vstd::prelude::*;

use crate::text::same;

verus! {

/// A stack of one item in the bank.
#[derive(Debug)]
pub struct BankItem {
    pub code: String,
    pub quantity: i32,
}

impl Clone for BankItem {
    fn clone(&self) -> (r: Self)
        ensures
            r == *self,
    {
        BankItem { code: self.code.clone(), quantity: self.quantity }
    }
}

/// The bank's size and the gold in it.
#[derive(Debug)]
pub struct BankDetails {
    pub slots: i32,
    pub expansions: i32,
    pub next_expansion_cost: i32,
    pub gold: i32,
}

/// The body of a gold deposit or withdrawal.
#[derive(Debug)]
pub struct GoldBody {
    pub quantity: i32,
}

/// The quantity that the first stack of `code` holds; 0 where there is none.
pub open spec fn bank_qty(bank: Seq<BankItem>, code: Seq<char>) -> int
    decreases bank.len(),
{
    if bank.len() == 0 {
        0
    } else if bank[0].code@ == code {
        bank[0].quantity as int
    } else {
        bank_qty(bank.drop_first(), code)
    }
}

/// The quantity that the first stack of `code` holds; 0 where there is none.
pub fn quantity_in(bank: &[BankItem], code: &str) -> (r: i32)
    ensures
        r == bank_qty(bank@, code@),
{
    let mut i: usize = 0;
    proof {
        assert(bank@.skip(0) =~= bank@);
    }
    while i < bank.len()
        invariant
            i <= bank.len(),
            bank_qty(bank@, code@) == bank_qty(bank@.skip(i as int), code@),
        decreases bank.len() - i,
    {
        proof {
            assert(bank@.skip(i as int).drop_first() =~= bank@.skip(i + 1));
        }
        if same(&bank[i].code, code) {
            return bank[i].quantity;
        }
        i += 1;
    }
    0
}

/// A copy of a bank snapshot.
pub fn copy_bank(bank: &[BankItem]) -> (r: Vec<BankItem>)
    ensures
        r@ == bank@,
{
    let mut out: Vec<BankItem> = Vec::new();
    let mut i: usize = 0;
    while i < bank.len()
        invariant
            i <= bank.len(),
            out@ == bank@.take(i as int),
        decreases bank.len() - i,
    {
        out.push(bank[i].clone());
        i += 1;
        assert(bank@.take(i as int) =~= bank@.take(i - 1).push(bank@[i - 1]));
    }
    assert(bank@.take(i as int) =~= bank@);
    out
}

} // verus!
