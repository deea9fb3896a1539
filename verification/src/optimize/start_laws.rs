//! What holds of the starting points of a loadout search.

use vstd::prelude::*;

use super::brute_force::{
    next_random, random_choices, seed_state, shuffled, slots_wf, SlotCandidates,
    BRUTE_FORCE_RESTARTS,
};

verus! {

/// The state of the generator after `n` steps.
pub open spec fn state_after(state: u64, n: nat) -> u64
    decreases n,
{
    if n == 0 {
        state
    } else {
        next_random(state_after(state, (n - 1) as nat))
    }
}

/// A step of the generator loses nothing: different states lead to different states, and only from
/// zero does it get to zero.
pub proof fn law_generator_loses_nothing(a: u64, b: u64)
    ensures
        a != b ==> next_random(a) != next_random(b),
        a != 0 ==> next_random(a) != 0,
{
    assert(a != b ==> ({
        let a1 = a ^ (a << 13u64);
        let b1 = b ^ (b << 13u64);
        a1 != b1
    })) by (bit_vector);
    let a1 = a ^ (a << 13u64);
    let b1 = b ^ (b << 13u64);
    assert(a1 != b1 ==> (a1 ^ (a1 >> 7u64)) != (b1 ^ (b1 >> 7u64))) by (bit_vector);
    let a2 = a1 ^ (a1 >> 7u64);
    let b2 = b1 ^ (b1 >> 7u64);
    assert(a2 != b2 ==> (a2 ^ (a2 << 17u64)) != (b2 ^ (b2 << 17u64))) by (bit_vector);
    assert(a != 0 ==> (a ^ (a << 13u64)) != 0) by (bit_vector);
    assert(a1 != 0 ==> (a1 ^ (a1 >> 7u64)) != 0) by (bit_vector);
    assert(a2 != 0 ==> (a2 ^ (a2 << 17u64)) != 0) by (bit_vector);
}

proof fn lemma_states_stay_apart(a: u64, b: u64, n: nat)
    requires
        a != b,
        a != 0,
    ensures
        state_after(a, n) != state_after(b, n),
        state_after(a, n) != 0,
    decreases n,
{
    if n > 0 {
        lemma_states_stay_apart(a, b, (n - 1) as nat);
        law_generator_loses_nothing(
            state_after(a, (n - 1) as nat),
            state_after(b, (n - 1) as nat),
        );
    }
}

/// Multiples of the generator's odd constant, taken by 64 bits, differ: the constant has an
/// inverse.
proof fn lemma_multiples_differ(p: int, q: int)
    requires
        0 <= p < q < 0x1_0000_0000_0000_0000,
    ensures
        0x9E3779B97F4A7C15 * p % 0x1_0000_0000_0000_0000 != 0x9E3779B97F4A7C15 * q
            % 0x1_0000_0000_0000_0000,
{
    let k: int = 0x9E3779B97F4A7C15;
    let m: int = 0x1_0000_0000_0000_0000;
    let inverse: int = 0xF1DE83E19937733D;
    let c: int = 0x957BBF35006ED677;
    if k * p % m == k * q % m {
        let t = k * q / m - k * p / m;
        vstd::arithmetic::div_mod::lemma_fundamental_div_mod(k * p, m);
        vstd::arithmetic::div_mod::lemma_fundamental_div_mod(k * q, m);
        let d = q - p;
        assert(k * d == m * t) by (nonlinear_arith)
            requires
                d == q - p,
                t == k * q / m - k * p / m,
                k * p == m * (k * p / m) + k * p % m,
                k * q == m * (k * q / m) + k * q % m,
                k * p % m == k * q % m,
        ;
        assert(k * inverse == 1 + c * m);
        assert(d == m * (t * inverse - c * d)) by (nonlinear_arith)
            requires
                k * d == m * t,
                k * inverse == 1 + c * m,
        ;
        let e = t * inverse - c * d;
        assert(d == m * e && 0 < d < m);
        assert(e > 0 ==> m * e >= m) by (nonlinear_arith)
            requires
                m > 0,
        ;
        assert(e <= 0 ==> m * e <= 0) by (nonlinear_arith)
            requires
                m > 0,
        ;
    }
}

/// A search starts 1024 times, and no two starts ever draw from the same state after the same
/// number of steps. None of them runs dry at zero, where a generator would stay.
pub proof fn law_starts_differ(a: u64, b: u64, n: nat)
    requires
        a < b < BRUTE_FORCE_RESTARTS,
    ensures
        BRUTE_FORCE_RESTARTS == 1024,
        state_after(seed_state(a), n) != state_after(seed_state(b), n),
        state_after(seed_state(a), n) != 0,
{
    let k: int = 0x9E3779B97F4A7C15;
    let m: int = 0x1_0000_0000_0000_0000;
    let (p, q) = (a + 1, b + 1);
    lemma_multiples_differ(0, p);
    lemma_multiples_differ(p, q);
    assert(k * 0 % m == 0);
    assert(seed_state(a) == k * p % m && seed_state(b) == k * q % m);
    lemma_states_stay_apart(seed_state(a), seed_state(b), n);
}

proof fn lemma_drawn_state(slots: Seq<SlotCandidates>, state: u64, n: int)
    requires
        0 <= n <= slots.len(),
    ensures
        random_choices(slots, state, n).1 == state_after(state, n as nat),
        random_choices(slots, state, n).0.len() == n,
    decreases n,
{
    if n > 0 {
        lemma_drawn_state(slots, state, n - 1);
    }
}

/// A start other than the first draws one number for each slot and takes the candidate it points
/// at, so that every candidate of a slot, the empty one among them, can come up.
pub proof fn law_one_draw_for_each_slot(
    slots: Seq<SlotCandidates>,
    state: u64,
    n: int,
    k: int,
)
    requires
        0 <= k < n <= slots.len(),
        slots_wf(slots),
    ensures
        random_choices(slots, state, n).0.len() == n,
        random_choices(slots, state, n).0[k] == state_after(state, (k + 1) as nat) as int
            % slots[k].candidates@.len() as int,
        random_choices(slots, state, n).0[k] < slots[k].candidates@.len(),
    decreases n,
{
    lemma_drawn_state(slots, state, n);
    lemma_drawn_state(slots, state, n - 1);
    if k < n - 1 {
        law_one_draw_for_each_slot(slots, state, n - 1, k);
    } else {
        let len = slots[k].candidates@.len() as int;
        let next = next_random(random_choices(slots, state, n - 1).1);
        assert(state_after(state, n as nat) == next);
        vstd::arithmetic::div_mod::lemma_mod_bound(next as int, len);
    }
}

/// A shuffle draws, for each place from the last down, one of the places up to it and swaps the
/// two: what was drawn stays there, and nothing behind the place moves.
pub proof fn law_shuffle_draws_from_the_end(order: Seq<usize>, state: u64, i: int, k: int)
    requires
        0 < i < order.len(),
        i <= k < order.len(),
    ensures
        ({
            let after = shuffled(order, state, i).0;
            &&& after.len() == order.len()
            &&& after[i] == order[next_random(state) as int % (i + 1)]
            &&& k > i ==> after[k] == order[k]
        }),
    decreases i,
{
    let j = next_random(state) as int % (i + 1);
    vstd::arithmetic::div_mod::lemma_mod_bound(next_random(state) as int, i + 1);
    let swapped = order.update(i, order[j]).update(j, order[i]);
    assert(swapped[i] == order[j]);
    lemma_shuffle_keeps_the_end(swapped, next_random(state), i - 1, i);
    lemma_shuffle_keeps_the_end(swapped, next_random(state), i - 1, k);
    assert(k > i ==> swapped[k] == order[k]);
}

proof fn lemma_shuffle_keeps_the_end(order: Seq<usize>, state: u64, i: int, k: int)
    requires
        i < k < order.len(),
    ensures
        shuffled(order, state, i).0.len() == order.len(),
        k >= 0 ==> shuffled(order, state, i).0[k] == order[k],
    decreases i,
{
    if i > 0 {
        let j = next_random(state) as int % (i + 1);
        vstd::arithmetic::div_mod::lemma_mod_bound(next_random(state) as int, i + 1);
        let swapped = order.update(i, order[j]).update(j, order[i]);
        lemma_shuffle_keeps_the_end(swapped, next_random(state), i - 1, k);
    }
}

} // verus!
