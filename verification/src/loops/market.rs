//! Sell orders of the grand exchange and the supply they make up together with the bank. Nothing
//! here places an order: claims only keep a plan from counting on the same stock twice.

use vstd::prelude::*;

use crate::arith::{fits_i32, min_int};
use crate::ranking::{by_key, is_ranking, places, rank_by_key, ranked};
use crate::table::{Duplicate, Table};
use crate::types::GEOrder;

verus! {

/// One item's sell side: (price, remaining quantity) tiers, cheapest first, and a tally of what
/// has been claimed against them.
#[derive(Debug)]
pub struct GEOrderBook {
    pub tiers: Vec<(i32, i32)>,
    pub claimed_qty: i32,
    pub claimed_cost: i32,
}

/// An order book, as a mathematical value.
#[verifier::ext_equal]
pub struct BookView {
    pub tiers: Seq<(i32, i32)>,
    pub claimed_qty: int,
    pub claimed_cost: int,
}

impl View for GEOrderBook {
    type V = BookView;

    open spec fn view(&self) -> BookView {
        BookView {
            tiers: self.tiers@,
            claimed_qty: self.claimed_qty as int,
            claimed_cost: self.claimed_cost as int,
        }
    }
}

/// The (price, quantity) of each of the first `n` orders that has any quantity left.
pub open spec fn open_offers(orders: Seq<GEOrder>, n: int) -> Seq<(i32, i32)>
    decreases n,
{
    if n <= 0 {
        Seq::empty()
    } else if orders[n - 1].quantity > 0 {
        open_offers(orders, n - 1).push((orders[n - 1].price, orders[n - 1].quantity))
    } else {
        open_offers(orders, n - 1)
    }
}

/// How high offers rank: the cheaper the higher.
pub open spec fn cheapness(offers: Seq<(i32, i32)>) -> Seq<i64> {
    offers.map_values(|o: (i32, i32)| (-o.0) as i64)
}

/// Offers, cheapest first; those of one price keep their order.
pub open spec fn cheapest_first(offers: Seq<(i32, i32)>) -> Seq<(i32, i32)> {
    ranked(by_key(cheapness(offers)), offers.len() as int).map_values(|i: int| offers[i])
}

/// How much of `avail` a claim that still wants `want` takes.
pub open spec fn taken(avail: int, want: int) -> int {
    if want <= 0 || avail <= 0 {
        0
    } else {
        min_int(avail, want)
    }
}

/// What a claim of `qty` gets from the first `n` tiers, and what that costs.
pub open spec fn claim_from(tiers: Seq<(i32, i32)>, qty: int, n: int) -> (int, int)
    decreases n,
{
    if n <= 0 {
        (0, 0)
    } else {
        let (got, cost) = claim_from(tiers, qty, n - 1);
        let take = taken(tiers[n - 1].1 as int, qty - got);
        (got + take, cost + take * tiers[n - 1].0)
    }
}

/// What a claim of `qty` gets, and what that costs.
pub open spec fn claimed(tiers: Seq<(i32, i32)>, qty: int) -> (int, int) {
    claim_from(tiers, qty, tiers.len() as int)
}

/// The tiers that a claim of `qty` leaves.
pub open spec fn tiers_left(tiers: Seq<(i32, i32)>, qty: int) -> Seq<(i32, i32)> {
    Seq::new(
        tiers.len(),
        |i: int|
            (
                tiers[i].0,
                (tiers[i].1 - taken(tiers[i].1 as int, qty - claim_from(tiers, qty, i).0)) as i32,
            ),
    )
}

/// A book after a claim of `qty`.
pub open spec fn book_after(book: BookView, qty: int) -> BookView {
    BookView {
        tiers: tiers_left(book.tiers, qty),
        claimed_qty: book.claimed_qty + claimed(book.tiers, qty).0,
        claimed_cost: book.claimed_cost + claimed(book.tiers, qty).1,
    }
}

/// The price of a claim and the tallies after it stay in the 32-bit range.
pub open spec fn claim_fits(book: BookView, qty: int) -> bool {
    &&& fits_i32(claimed(book.tiers, qty).1)
    &&& fits_i32(book_after(book, qty).claimed_qty)
    &&& fits_i32(book_after(book, qty).claimed_cost)
}

proof fn lemma_claim_bounds(tiers: Seq<(i32, i32)>, qty: int, n: int)
    requires
        0 <= n <= tiers.len(),
    ensures
        0 <= claim_from(tiers, qty, n).0,
        qty >= 0 ==> claim_from(tiers, qty, n).0 <= qty,
        qty <= 0 ==> claim_from(tiers, qty, n) == (0int, 0int),
        -0x8000_0000 * claim_from(tiers, qty, n).0 <= claim_from(tiers, qty, n).1 <= 0x8000_0000
            * claim_from(tiers, qty, n).0,
    decreases n,
{
    if n > 0 {
        lemma_claim_bounds(tiers, qty, n - 1);
        let (got, cost) = claim_from(tiers, qty, n - 1);
        let take = taken(tiers[n - 1].1 as int, qty - got);
        let price = tiers[n - 1].0 as int;
        assert(-0x8000_0000 * take <= take * price <= 0x8000_0000 * take) by (nonlinear_arith)
            requires
                0 <= take,
                -0x8000_0000 <= price <= 0x8000_0000,
        ;
        if qty <= 0 {
            assert(take == 0);
            assert(take * price == 0) by (nonlinear_arith)
                requires
                    take == 0,
            ;
        }
    }
}

impl Duplicate for GEOrderBook {
    open spec fn alike(a: Self, b: Self) -> bool {
        a@ == b@
    }

    fn duplicate(&self) -> (r: Self) {
        let mut tiers: Vec<(i32, i32)> = Vec::new();
        let mut i: usize = 0;
        while i < self.tiers.len()
            invariant
                i <= self.tiers@.len(),
                tiers@ == self.tiers@.take(i as int),
            decreases self.tiers@.len() - i,
        {
            tiers.push(self.tiers[i]);
            i += 1;
            assert(self.tiers@.take(i as int) =~= self.tiers@.take(i - 1).push(self.tiers@[i - 1]));
        }
        assert(self.tiers@.take(i as int) =~= self.tiers@);
        GEOrderBook { tiers, claimed_qty: self.claimed_qty, claimed_cost: self.claimed_cost }
    }
}

impl GEOrderBook {
    /// The book that a list of sell orders makes up.
    pub fn from_orders(orders: &[GEOrder]) -> (r: Self)
        ensures
            r@ == (BookView {
                tiers: cheapest_first(open_offers(orders@, orders@.len() as int)),
                claimed_qty: 0,
                claimed_cost: 0,
            }),
    {
        let mut offers: Vec<(i32, i32)> = Vec::new();
        let mut keys: Vec<i64> = Vec::new();
        let mut i: usize = 0;
        assert(keys@ =~= cheapness(offers@));
        while i < orders.len()
            invariant
                i <= orders.len(),
                offers@ == open_offers(orders@, i as int),
                keys@ == cheapness(offers@),
            decreases orders.len() - i,
        {
            if orders[i].quantity > 0 {
                let ghost had = offers@;
                offers.push((orders[i].price, orders[i].quantity));
                keys.push(-(orders[i].price as i64));
                assert(keys@ =~= cheapness(offers@));
            }
            i += 1;
        }
        let order: Vec<usize> = rank_by_key(&keys);
        let mut tiers: Vec<(i32, i32)> = Vec::new();
        let ghost target = cheapest_first(offers@);
        let mut k: usize = 0;
        while k < order.len()
            invariant
                k <= order@.len(),
                order@.len() == offers@.len(),
                keys@ == cheapness(offers@),
                places(order@) == ranked(by_key(keys@), keys@.len() as int),
                is_ranking(places(order@), by_key(keys@), keys@.len() as int),
                target == cheapest_first(offers@),
                tiers@ == target.take(k as int),
            decreases order@.len() - k,
        {
            assert(places(order@)[k as int] == order@[k as int]);
            tiers.push(offers[order[k]]);
            k += 1;
            assert(target.take(k as int) =~= target.take(k - 1).push(target[k - 1]));
        }
        assert(target.take(k as int) =~= target);
        GEOrderBook { tiers, claimed_qty: 0, claimed_cost: 0 }
    }

    /// What a claim of `qty` would get and cost.
    pub fn quote(&self, qty: i32) -> (r: (i32, i64))
        ensures
            r.0 == claimed(self@.tiers, qty as int).0,
            r.1 == claimed(self@.tiers, qty as int).1,
    {
        let mut got: i32 = 0;
        let mut cost: i64 = 0;
        let mut i: usize = 0;
        while i < self.tiers.len()
            invariant
                i <= self.tiers@.len(),
                claim_from(self.tiers@, qty as int, i as int) == (got as int, cost as int),
            decreases self.tiers@.len() - i,
        {
            proof {
                lemma_claim_bounds(self.tiers@, qty as int, i as int);
                lemma_claim_bounds(self.tiers@, qty as int, i + 1);
            }
            let (price, avail): (i32, i32) = self.tiers[i];
            if qty > 0 && qty - got > 0 && avail > 0 {
                let want: i32 = qty - got;
                let take: i32 = if avail <= want {
                    avail
                } else {
                    want
                };
                proof {
                    assert(-0x8000_0000 * take <= take * price <= 0x8000_0000 * take)
                        by (nonlinear_arith)
                        requires
                            0 <= take,
                            -0x8000_0000 <= price <= 0x8000_0000,
                    ;
                }
                cost = cost + take as i64 * price as i64;
                got = got + take;
            }
            i += 1;
        }
        (got, cost)
    }

    /// Claims up to `qty` units from the cheapest tiers. Returns the units obtained, fewer than
    /// `qty` where the book does not hold that many, and what they cost.
    pub fn claim(&mut self, qty: i32) -> (r: (i32, i32))
        requires
            claim_fits(old(self)@, qty as int),
        ensures
            r.0 == claimed(old(self)@.tiers, qty as int).0,
            r.1 == claimed(old(self)@.tiers, qty as int).1,
            final(self)@ == book_after(old(self)@, qty as int),
    {
        let quoted: (i32, i64) = self.quote(qty);
        let ghost before = self.tiers@;
        let n: usize = self.tiers.len();
        let mut got: i32 = 0;
        let mut i: usize = 0;
        while i < n
            invariant
                i <= n,
                n == before.len(),
                self.tiers@.len() == n,
                self.claimed_qty == old(self).claimed_qty,
                self.claimed_cost == old(self).claimed_cost,
                claim_from(before, qty as int, i as int).0 == got,
                forall|j: int| i <= j < n ==> #[trigger] self.tiers@[j] == before[j],
                forall|j: int| 0 <= j < i ==> #[trigger] self.tiers@[j] == tiers_left(before, qty as int)[j],
            decreases n - i,
        {
            proof {
                lemma_claim_bounds(before, qty as int, i as int);
                lemma_claim_bounds(before, qty as int, i + 1);
            }
            let (price, avail): (i32, i32) = self.tiers[i];
            assert(self.tiers@[i as int] == before[i as int]);
            if qty > 0 && qty - got > 0 && avail > 0 {
                let want: i32 = qty - got;
                let take: i32 = if avail <= want {
                    avail
                } else {
                    want
                };
                self.tiers.set(i, (price, avail - take));
                got = got + take;
            }
            assert(self.tiers@[i as int] == tiers_left(before, qty as int)[i as int]);
            i += 1;
        }
        assert(self.tiers@ =~= tiers_left(before, qty as int));
        self.claimed_qty = self.claimed_qty + quoted.0;
        self.claimed_cost = self.claimed_cost + quoted.1 as i32;
        (quoted.0, quoted.1 as i32)
    }
}

/// The books of every item that a plan cares about.
#[derive(Debug)]
pub struct GEMarket {
    pub books: Table<GEOrderBook>,
}

/// The books of a table, as mathematical values.
pub open spec fn book_views(books: Map<Seq<char>, GEOrderBook>) -> Map<Seq<char>, BookView> {
    books.map_values(|b: GEOrderBook| b@)
}

/// The purchases that the first `n` books have been claimed for.
pub open spec fn purchases_of(
    books: Map<Seq<char>, BookView>,
    codes: Seq<Seq<char>>,
    n: int,
) -> Seq<(Seq<char>, int, int)>
    decreases n,
{
    if n <= 0 {
        Seq::empty()
    } else {
        let book = books[codes[n - 1]];
        if book.claimed_qty > 0 {
            purchases_of(books, codes, n - 1).push(
                (codes[n - 1], book.claimed_qty, book.claimed_cost),
            )
        } else {
            purchases_of(books, codes, n - 1)
        }
    }
}

/// A list of purchases, as mathematical values.
pub open spec fn purchase_views(purchases: Seq<(String, i32, i32)>) -> Seq<(Seq<char>, int, int)> {
    purchases.map_values(|p: (String, i32, i32)| (p.0@, p.1 as int, p.2 as int))
}

impl GEMarket {
    /// Claims up to `qty` units of `code`; nothing where nobody sells it.
    pub fn claim(&mut self, code: &str, qty: i32) -> (r: (i32, i32))
        requires
            old(self).books.wf(),
            book_views(old(self).books@).contains_key(code@) ==> claim_fits(
                book_views(old(self).books@)[code@],
                qty as int,
            ),
        ensures
            final(self).books.wf(),
            ({
                let before = book_views(old(self).books@);
                let after = book_views(final(self).books@);
                if before.contains_key(code@) {
                    &&& r.0 == claimed(before[code@].tiers, qty as int).0
                    &&& r.1 == claimed(before[code@].tiers, qty as int).1
                    &&& after == before.insert(code@, book_after(before[code@], qty as int))
                } else {
                    r == (0i32, 0i32) && after == before
                }
            }),
    {
        let ghost before = book_views(self.books@);
        let mut book: GEOrderBook = match self.books.get(code) {
            Some(b) => b.duplicate(),
            None => {
                return (0, 0);
            },
        };
        assert(book@ == before[code@]);
        let got: (i32, i32) = book.claim(qty);
        self.books.insert(code.to_owned(), book);
        assert(book_views(self.books@) =~= before.insert(
            code@,
            book_after(before[code@], qty as int),
        ));
        got
    }

    /// Everything claimed, as (code, quantity, gold spent).
    pub fn purchases(&self) -> (r: Vec<(String, i32, i32)>)
        requires
            self.books.wf(),
        ensures
            purchase_views(r@) == purchases_of(
                book_views(self.books@),
                self.books.keys(),
                self.books.keys().len() as int,
            ),
    {
        let mut out: Vec<(String, i32, i32)> = Vec::new();
        let ghost views = book_views(self.books@);
        assert(purchase_views(out@) =~= Seq::empty());
        let mut i: usize = 0;
        while i < self.books.len()
            invariant
                i <= self.books.keys().len(),
                self.books.wf(),
                views == book_views(self.books@),
                purchase_views(out@) == purchases_of(views, self.books.keys(), i as int),
            decreases self.books.keys().len() - i,
        {
            let entry = self.books.at(i);
            if entry.1.claimed_qty > 0 {
                let ghost had = out@;
                out.push((entry.0.clone(), entry.1.claimed_qty, entry.1.claimed_cost));
                assert(purchase_views(out@) =~= purchase_views(had).push(
                    (entry.0@, entry.1.claimed_qty as int, entry.1.claimed_cost as int),
                ));
            }
            i += 1;
        }
        out
    }
}

/// Free stock in the bank and paid stock on the exchange, passed through a plan so that nothing is
/// counted on twice.
#[derive(Debug)]
pub struct Ledger {
    pub bank: Table<i32>,
    pub market: GEMarket,
}

/// A ledger, as a mathematical value.
#[verifier::ext_equal]
pub struct LedgerView {
    pub bank: Map<Seq<char>, i32>,
    pub books: Map<Seq<char>, BookView>,
}

impl View for Ledger {
    type V = LedgerView;

    open spec fn view(&self) -> LedgerView {
        LedgerView { bank: self.bank@, books: book_views(self.market.books@) }
    }
}

/// How much of `code` a supply holds.
pub open spec fn stock(supply: Map<Seq<char>, i32>, code: Seq<char>) -> int {
    if supply.contains_key(code) {
        supply[code] as int
    } else {
        0
    }
}

/// How much of `code` a supply holds.
pub fn stock_of(supply: &Table<i32>, code: &str) -> (r: i32)
    requires
        supply.wf(),
    ensures
        r == stock(supply@, code@),
{
    match supply.get(code) {
        Some(q) => *q,
        None => 0,
    }
}

/// How many of `qty` the bank's free stock leaves to be had, and the ledger without that stock.
pub open spec fn drawn(l: LedgerView, code: Seq<char>, qty: int) -> (int, LedgerView) {
    let free = min_int(stock(l.bank, code), qty);
    (
        qty - free,
        LedgerView { bank: l.bank.insert(code, (stock(l.bank, code) - free) as i32), ..l },
    )
}

/// Whether the exchange sells `qty` of `code`.
pub open spec fn sells(l: LedgerView, code: Seq<char>, qty: int) -> bool {
    &&& l.books.contains_key(code)
    &&& claimed(l.books[code].tiers, qty).0 == qty
    &&& claim_fits(l.books[code], qty)
}

/// The ledger after `qty` of `code` have been bought.
pub open spec fn ledger_after(l: LedgerView, code: Seq<char>, qty: int) -> LedgerView {
    LedgerView { books: l.books.insert(code, book_after(l.books[code], qty)), ..l }
}

impl Default for Ledger {
    /// An empty ledger.
    fn default() -> (r: Self)
        ensures
            r.wf(),
            r@ == (LedgerView { bank: Map::empty(), books: Map::empty() }),
    {
        let r = Ledger { bank: Table::new(), market: GEMarket { books: Table::new() } };
        assert(r@ =~= (LedgerView { bank: Map::empty(), books: Map::empty() }));
        r
    }
}

impl Ledger {
    /// The tables are well formed.
    pub open spec fn wf(&self) -> bool {
        self.bank.wf() && self.market.books.wf()
    }

    /// A copy of the ledger.
    pub fn copied(&self) -> (r: Self)
        requires
            self.wf(),
        ensures
            r.wf(),
            r@ == self@,
    {
        let bank: Table<i32> = self.bank.copied();
        let books: Table<GEOrderBook> = self.market.books.duplicate();
        assert(book_views(books@) =~= book_views(self.market.books@));
        Ledger { bank, market: GEMarket { books } }
    }

    /// Takes as much of `qty` as the bank has for free. Returns what is left to be had; none where
    /// that leaves the 32-bit range.
    pub fn draw(&mut self, code: &str, qty: i32) -> (r: Option<i32>)
        requires
            old(self).wf(),
            qty > 0,
        ensures
            final(self).wf(),
            match r {
                Some(rest) => rest == drawn(old(self)@, code@, qty as int).0 && final(self)@ == drawn(
                    old(self)@,
                    code@,
                    qty as int,
                ).1,
                None => !fits_i32(drawn(old(self)@, code@, qty as int).0),
            },
    {
        let have: i32 = stock_of(&self.bank, code);
        let free: i32 = if have <= qty {
            have
        } else {
            qty
        };
        let rest: i64 = qty as i64 - free as i64;
        if rest > i32::MAX as i64 {
            return None;
        }
        let left: i32 = if have <= qty {
            0
        } else {
            have - qty
        };
        self.bank.insert(code.to_owned(), left);
        assert(self@ =~= drawn(old(self)@, code@, qty as int).1);
        Some(rest as i32)
    }

    /// Buys `qty` of `code` if the exchange sells that many. Returns what they cost.
    pub fn buy(&mut self, code: &str, qty: i32) -> (r: Option<i32>)
        requires
            old(self).wf(),
        ensures
            final(self).wf(),
            r is Some <==> sells(old(self)@, code@, qty as int),
            match r {
                Some(cost) => cost == claimed(old(self)@.books[code@].tiers, qty as int).1
                    && final(self)@ == ledger_after(old(self)@, code@, qty as int),
                None => final(self)@ == old(self)@,
            },
    {
        let fits: bool = match self.market.books.get(code) {
            Some(book) => {
                let quoted: (i32, i64) = book.quote(qty);
                proof {
                    lemma_claim_bounds(book@.tiers, qty as int, book@.tiers.len() as int);
                }
                quoted.0 == qty && i32::MIN as i64 <= quoted.1 && quoted.1 <= i32::MAX as i64
                    && book.claimed_qty as i64 + qty as i64 <= i32::MAX as i64
                    && book.claimed_qty as i64 + qty as i64 >= i32::MIN as i64
                    && book.claimed_cost as i64 + quoted.1 <= i32::MAX as i64
                    && book.claimed_cost as i64 + quoted.1 >= i32::MIN as i64
            },
            None => false,
        };
        if !fits {
            return None;
        }
        let got: (i32, i32) = self.market.claim(code, qty);
        assert(self@ =~= ledger_after(old(self)@, code@, qty as int));
        Some(got.1)
    }
}

} // verus!
