//! Ranking by a key, best first; of two with the same key the earlier one comes first.

use vstd::prelude::*;

verus! {

/// `i` put into `order` behind the last place that does not rank below it.
pub open spec fn placed(order: Seq<int>, below: spec_fn(int, int) -> bool, i: int) -> Seq<int>
    decreases order.len(),
{
    if order.len() == 0 || !below(order.last(), i) {
        order.push(i)
    } else {
        placed(order.drop_last(), below, i).push(order.last())
    }
}

/// The places 0 to `n`, ranked best first.
pub open spec fn ranked(below: spec_fn(int, int) -> bool, n: int) -> Seq<int>
    decreases n,
{
    if n <= 0 {
        Seq::empty()
    } else {
        placed(ranked(below, n - 1), below, n - 1)
    }
}

/// One place ranks below another where its number is smaller.
pub open spec fn by_key(keys: Seq<i64>) -> spec_fn(int, int) -> bool {
    |a: int, b: int| keys[a] < keys[b]
}

/// One place ranks below another where its fraction is smaller.
pub open spec fn by_fraction(keys: Seq<(i64, i64)>) -> spec_fn(int, int) -> bool {
    |a: int, b: int| keys[a].0 * keys[b].1 < keys[b].0 * keys[a].1
}

/// `order` lists each place from 0 to `n` once; none ranks below one that comes later, and places
/// that rank the same stand in their own order.
pub open spec fn is_ranking(order: Seq<int>, below: spec_fn(int, int) -> bool, n: int) -> bool {
    &&& order.len() == n
    &&& forall|i: int| 0 <= i < n ==> 0 <= #[trigger] order[i] < n
    &&& forall|v: int| 0 <= v < n ==> order.contains(v)
    &&& forall|i: int, j: int|
        0 <= i < j < n ==> {
            &&& #[trigger] order[i] != #[trigger] order[j]
            &&& !below(order[i], order[j])
            &&& !below(order[j], order[i]) ==> order[i] < order[j]
        }
}

/// `below` is a strict order of the places 0 to `n`, save that places may rank the same.
pub open spec fn is_weak_order(below: spec_fn(int, int) -> bool, n: int) -> bool {
    &&& forall|a: int, b: int|
        0 <= a < n && 0 <= b < n ==> !(#[trigger] below(a, b) && below(b, a))
    &&& forall|a: int, b: int, c: int|
        0 <= a < n && 0 <= b < n && 0 <= c < n && !(#[trigger] below(a, b)) && !(#[trigger] below(
            b,
            c,
        )) ==> !below(a, c)
}

proof fn lemma_placed_at(order: Seq<int>, below: spec_fn(int, int) -> bool, i: int, p: int)
    requires
        0 <= p <= order.len(),
        p > 0 ==> !below(order[p - 1], i),
        forall|j: int| p <= j < order.len() ==> below(#[trigger] order[j], i),
    ensures
        placed(order, below, i) == order.insert(p, i),
    decreases order.len(),
{
    if p == order.len() {
        assert(order.insert(p, i) =~= order.push(i));
    } else {
        let rest = order.drop_last();
        assert(below(order.last(), i));
        assert forall|j: int| p <= j < rest.len() implies below(#[trigger] rest[j], i) by {
            assert(rest[j] == order[j]);
        }
        lemma_placed_at(rest, below, i, p);
        assert(rest.insert(p, i).push(order.last()) =~= order.insert(p, i));
    }
}

proof fn lemma_place(order: Seq<int>, below: spec_fn(int, int) -> bool, i: int) -> (p: int)
    ensures
        0 <= p <= order.len(),
        p > 0 ==> !below(order[p - 1], i),
        forall|j: int| p <= j < order.len() ==> below(#[trigger] order[j], i),
    decreases order.len(),
{
    if order.len() == 0 || !below(order.last(), i) {
        order.len() as int
    } else {
        let rest = order.drop_last();
        let p = lemma_place(rest, below, i);
        assert forall|j: int| p <= j < order.len() implies below(#[trigger] order[j], i) by {
            if j < rest.len() {
                assert(rest[j] == order[j]);
            }
        }
        p
    }
}

/// A ranking lists every place once, best first, and keeps the order of those that rank the same.
pub proof fn law_ranking(below: spec_fn(int, int) -> bool, n: int)
    requires
        0 <= n,
        is_weak_order(below, n),
    ensures
        is_ranking(ranked(below, n), below, n),
    decreases n,
{
    if n > 0 {
        law_ranking(below, n - 1);
        let before = ranked(below, n - 1);
        let i = n - 1;
        let p = lemma_place(before, below, i);
        lemma_placed_at(before, below, i, p);
        let after = ranked(below, n);
        assert(after == before.insert(p, i));
        assert forall|v: int| 0 <= v < n implies after.contains(v) by {
            if v == i {
                assert(after[p] == i);
            } else {
                let k = before.index_of(v);
                assert(before.contains(v));
                assert(before[k] == v);
                if k < p {
                    assert(after[k] == v);
                } else {
                    assert(after[k + 1] == v);
                }
            }
        }
        assert forall|a: int, b: int| 0 <= a < b < n implies {
            &&& #[trigger] after[a] != #[trigger] after[b]
            &&& !below(after[a], after[b])
            &&& !below(after[b], after[a]) ==> after[a] < after[b]
        } by {
            let a2 = if a < p { a } else { a - 1 };
            let b2 = if b < p { b } else { b - 1 };
            if a != p && b != p {
                assert(after[a] == before[a2] && after[b] == before[b2]);
            } else if b == p {
                assert(after[a] == before[a]);
                if a < p - 1 {
                    let last = before[p - 1];
                    assert(!below(before[a], last));
                    assert(!below(last, i));
                }
            } else {
                assert(after[b] == before[b - 1]);
                assert(below(before[b - 1], i));
                assert(!below(i, before[b - 1]));
            }
        }
    }
}

/// Numbers rank as they are ordered.
pub proof fn lemma_keys_are_ordered(keys: Seq<i64>)
    ensures
        is_weak_order(by_key(keys), keys.len() as int),
{
}

/// Fractions with positive denominators rank as their values are ordered.
pub proof fn lemma_fractions_are_ordered(keys: Seq<(i64, i64)>)
    requires
        forall|i: int| 0 <= i < keys.len() ==> (#[trigger] keys[i]).1 > 0,
    ensures
        is_weak_order(by_fraction(keys), keys.len() as int),
{
    let below = by_fraction(keys);
    let n = keys.len() as int;
    assert forall|a: int, b: int, c: int|
        0 <= a < n && 0 <= b < n && 0 <= c < n && !(#[trigger] below(a, b)) && !(#[trigger] below(
            b,
            c,
        )) implies !below(a, c) by {
        let (an, ad, bn, bd, cn, cd) = (
            keys[a].0 as int,
            keys[a].1 as int,
            keys[b].0 as int,
            keys[b].1 as int,
            keys[c].0 as int,
            keys[c].1 as int,
        );
        assert(keys[a].1 > 0 && keys[b].1 > 0 && keys[c].1 > 0);
        assert(an * cd >= cn * ad) by (nonlinear_arith)
            requires
                an * bd >= bn * ad,
                bn * cd >= cn * bd,
                ad > 0,
                bd > 0,
                cd > 0,
        {
            assert(an * bd * cd >= bn * ad * cd);
            assert(bn * cd * ad >= cn * bd * ad);
            assert((an * cd) * bd >= (cn * ad) * bd);
        }
    }
}

/// A list of places, as mathematical numbers.
pub open spec fn places(order: Seq<usize>) -> Seq<int> {
    order.map_values(|i: usize| i as int)
}

/// Ranks places by number, best first; equal numbers keep their order.
pub fn rank_by_key(keys: &[i64]) -> (order: Vec<usize>)
    ensures
        order@.len() == keys@.len(),
        places(order@) == ranked(by_key(keys@), keys@.len() as int),
        is_ranking(places(order@), by_key(keys@), keys@.len() as int),
{
    let mut order: Vec<usize> = Vec::new();
    let ghost below = by_key(keys@);
    proof {
        lemma_keys_are_ordered(keys@);
        assert(places(order@) =~= ranked(below, 0));
    }
    let mut i: usize = 0;
    while i < keys.len()
        invariant
            i <= keys.len(),
            order@.len() == i,
            below == by_key(keys@),
            forall|j: int| 0 <= j < i ==> (#[trigger] order@[j]) < i,
            places(order@) == ranked(below, i as int),
        decreases keys.len() - i,
    {
        let mut p: usize = i;
        while p > 0 && keys[order[p - 1]] < keys[i]
            invariant
                p <= i,
                i < keys.len(),
                order@.len() == i,
                below == by_key(keys@),
                forall|j: int| 0 <= j < i ==> (#[trigger] order@[j]) < i,
                forall|j: int| p <= j < i ==> below(#[trigger] places(order@)[j], i as int),
            decreases p,
        {
            assert(places(order@)[p - 1] == order@[p - 1]);
            p -= 1;
        }
        proof {
            if p > 0 {
                assert(places(order@)[p - 1] == order@[p - 1]);
            }
            lemma_placed_at(places(order@), below, i as int, p as int);
        }
        let ghost before = order@;
        order.insert(p, i);
        proof {
            assert(places(order@) =~= places(before).insert(p as int, i as int));
        }
        i += 1;
    }
    proof {
        law_ranking(below, keys@.len() as int);
    }
    order
}

/// Ranks places by fraction, best first; equal fractions keep their order.
pub fn rank_by_fraction(keys: &[(i64, i64)]) -> (order: Vec<usize>)
    requires
        forall|i: int| 0 <= i < keys@.len() ==> (#[trigger] keys@[i]).1 > 0,
    ensures
        order@.len() == keys@.len(),
        places(order@) == ranked(by_fraction(keys@), keys@.len() as int),
        is_ranking(places(order@), by_fraction(keys@), keys@.len() as int),
{
    let mut order: Vec<usize> = Vec::new();
    let ghost below = by_fraction(keys@);
    proof {
        lemma_fractions_are_ordered(keys@);
        assert(places(order@) =~= ranked(below, 0));
    }
    let mut i: usize = 0;
    while i < keys.len()
        invariant
            i <= keys.len(),
            order@.len() == i,
            below == by_fraction(keys@),
            forall|j: int| 0 <= j < i ==> (#[trigger] order@[j]) < i,
            places(order@) == ranked(below, i as int),
        decreases keys.len() - i,
    {
        let mut p: usize = i;
        while p > 0 && is_less(keys[order[p - 1]], keys[i])
            invariant
                p <= i,
                i < keys.len(),
                order@.len() == i,
                below == by_fraction(keys@),
                forall|j: int| 0 <= j < i ==> (#[trigger] order@[j]) < i,
                forall|j: int| p <= j < i ==> below(#[trigger] places(order@)[j], i as int),
            decreases p,
        {
            assert(places(order@)[p - 1] == order@[p - 1]);
            p -= 1;
        }
        proof {
            if p > 0 {
                assert(places(order@)[p - 1] == order@[p - 1]);
            }
            lemma_placed_at(places(order@), below, i as int, p as int);
        }
        let ghost before = order@;
        order.insert(p, i);
        proof {
            assert(places(order@) =~= places(before).insert(p as int, i as int));
        }
        i += 1;
    }
    proof {
        law_ranking(below, keys@.len() as int);
    }
    order
}

/// Whether one fraction with a positive denominator is less than another.
pub fn is_less(a: (i64, i64), b: (i64, i64)) -> (r: bool)
    ensures
        r == (a.0 * b.1 < b.0 * a.1),
{
    proof {
        let (a0, a1, b0, b1) = (a.0, a.1, b.0, b.1);
        assert(i128::MIN <= a0 * b1 <= i128::MAX && i128::MIN <= b0 * a1 <= i128::MAX)
            by (nonlinear_arith)
            requires
                i64::MIN <= a0 <= i64::MAX,
                i64::MIN <= a1 <= i64::MAX,
                i64::MIN <= b0 <= i64::MAX,
                i64::MIN <= b1 <= i64::MAX,
        ;
    }
    (a.0 as i128) * (b.1 as i128) < (b.0 as i128) * (a.1 as i128)
}

/// The place of the greatest of the first `n` keys, the last one where several are greatest.
pub open spec fn last_best(keys: Seq<Option<i64>>, n: int) -> Option<int>
    decreases n,
{
    if n <= 0 {
        None
    } else {
        let before = last_best(keys, n - 1);
        match keys[n - 1] {
            Some(k) => match before {
                Some(b) => if keys[b]->0 <= k {
                    Some(n - 1)
                } else {
                    before
                },
                None => Some(n - 1),
            },
            None => before,
        }
    }
}

/// The place found holds a key; no key is greater, and none behind it is as great.
pub proof fn law_last_best(keys: Seq<Option<i64>>, n: int)
    requires
        0 <= n <= keys.len(),
    ensures
        match last_best(keys, n) {
            Some(b) => {
                &&& 0 <= b < n
                &&& keys[b] is Some
                &&& forall|i: int|
                    0 <= i < n && (#[trigger] keys[i]) is Some ==> keys[i]->0 <= keys[b]->0 && (
                    keys[i]->0 == keys[b]->0 ==> i <= b)
            },
            None => forall|i: int| 0 <= i < n ==> (#[trigger] keys[i]) is None,
        },
    decreases n,
{
    if n > 0 {
        law_last_best(keys, n - 1);
    }
}

/// The place of the greatest key, the last one where several are greatest.
pub fn find_last_best(keys: &[Option<i64>]) -> (r: Option<usize>)
    ensures
        match r {
            Some(b) => last_best(keys@, keys@.len() as int) == Some(b as int) && b < keys@.len()
                && keys@[b as int] is Some,
            None => last_best(keys@, keys@.len() as int) is None,
        },
{
    let mut best: Option<usize> = None;
    let mut i: usize = 0;
    while i < keys.len()
        invariant
            i <= keys@.len(),
            match best {
                Some(b) => last_best(keys@, i as int) == Some(b as int) && b < i && keys@[b as int]
                    is Some,
                None => last_best(keys@, i as int) is None,
            },
        decreases keys@.len() - i,
    {
        if let Some(k) = keys[i] {
            let wins: bool = match best {
                Some(b) => match keys[b] {
                    Some(top) => top <= k,
                    None => true,
                },
                None => true,
            };
            if wins {
                best = Some(i);
            }
        }
        i += 1;
    }
    best
}

/// The place of the greatest of the first `n` keys, the first one where several are greatest.
pub open spec fn first_best(keys: Seq<Option<i64>>, n: int) -> Option<int>
    decreases n,
{
    if n <= 0 {
        None
    } else {
        let before = first_best(keys, n - 1);
        match keys[n - 1] {
            Some(k) => match before {
                Some(b) => if keys[b]->0 < k {
                    Some(n - 1)
                } else {
                    before
                },
                None => Some(n - 1),
            },
            None => before,
        }
    }
}

/// The place found holds a key; no key is greater, and none before it is as great.
pub proof fn law_first_best(keys: Seq<Option<i64>>, n: int)
    requires
        0 <= n <= keys.len(),
    ensures
        match first_best(keys, n) {
            Some(b) => {
                &&& 0 <= b < n
                &&& keys[b] is Some
                &&& forall|i: int|
                    0 <= i < n && (#[trigger] keys[i]) is Some ==> keys[i]->0 <= keys[b]->0 && (
                    keys[i]->0 == keys[b]->0 ==> b <= i)
            },
            None => forall|i: int| 0 <= i < n ==> (#[trigger] keys[i]) is None,
        },
    decreases n,
{
    if n > 0 {
        law_first_best(keys, n - 1);
    }
}

/// The place of the greatest key, the first one where several are greatest.
pub fn find_first_best(keys: &[Option<i64>]) -> (r: Option<usize>)
    ensures
        match r {
            Some(b) => first_best(keys@, keys@.len() as int) == Some(b as int) && b < keys@.len()
                && keys@[b as int] is Some,
            None => first_best(keys@, keys@.len() as int) is None,
        },
{
    let mut best: Option<usize> = None;
    let mut i: usize = 0;
    while i < keys.len()
        invariant
            i <= keys@.len(),
            match best {
                Some(b) => first_best(keys@, i as int) == Some(b as int) && b < i && keys@[b as int]
                    is Some,
                None => first_best(keys@, i as int) is None,
            },
        decreases keys@.len() - i,
    {
        if let Some(k) = keys[i] {
            let wins: bool = match best {
                Some(b) => match keys[b] {
                    Some(top) => top < k,
                    None => true,
                },
                None => true,
            };
            if wins {
                best = Some(i);
            }
        }
        i += 1;
    }
    best
}

} // verus!
