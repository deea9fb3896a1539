//! What holds of the shared state and its flags, whatever the characters do.

use vstd::prelude::*;

use crate::flags::{
    after_bank_refresh, after_restock, after_upgrades, after_wishlist, already_waiting,
    any_craftable, bank_holds, flag_everyone, flag_slots, flagged, get_text, pending_of,
    upgrade_flag, upgrade_in_bank, worn_by, ActionView, FlagView, Pending, StateView,
};
use crate::optimize::slot_rating::{is_upgrade, RankedItem, SlotRating};
use crate::types::BankItem;

verus! {

/// Nothing that waits in `p` is lost or reordered in `q`; what is new stands behind it.
pub open spec fn grows_to(p: Pending, q: Pending) -> bool {
    forall|name: Seq<char>| #[trigger]
        p.contains_key(name) ==> q.contains_key(name) && p[name].is_prefix_of(q[name])
}

/// Queuing a flag keeps every flag that waits, in its order, touches nobody else's, and leaves the
/// request waiting.
pub proof fn law_queuing_keeps_what_waits(p: Pending, target: Seq<char>, flag: FlagView)
    ensures
        grows_to(p, flagged(p, target, flag)),
        forall|name: Seq<char>|
            name != target ==> pending_of(flagged(p, target, flag), name) == pending_of(p, name),
        exists|i: int|
            0 <= i < pending_of(flagged(p, target, flag), target).len() && (
            #[trigger] pending_of(flagged(p, target, flag), target)[i]).action == flag.action,
{
    let q = flagged(p, target, flag);
    let w = pending_of(p, target);
    if already_waiting(w, flag.action) {
        let i = choose|i: int| 0 <= i < w.len() && (#[trigger] w[i]).action == flag.action;
        assert(pending_of(q, target)[i].action == flag.action);
    } else {
        assert(pending_of(q, target)[w.len() as int].action == flag.action);
    }
}

/// A request that waits already is not queued again, unless it asks to fetch items.
pub proof fn law_flag_is_queued_once(p: Pending, target: Seq<char>, flag: FlagView)
    requires
        !(flag.action is Retrieve),
    ensures
        flagged(flagged(p, target, flag), target, flag) == flagged(p, target, flag),
{
    law_queuing_keeps_what_waits(p, target, flag);
    let q = flagged(p, target, flag);
    assert(already_waiting(pending_of(q, target), flag.action));
    assert(flagged(q, target, flag) =~= q);
}

/// A request that does not wait yet goes to the end of the queue, and so does every request to fetch
/// items, whatever waits: those add up. A request that waits leaves the queue as it is.
pub proof fn law_new_requests_queue_at_the_end(p: Pending, target: Seq<char>, flag: FlagView)
    ensures
        ({
            let before = pending_of(p, target);
            let after = pending_of(flagged(p, target, flag), target);
            let waits = exists|i: int|
                0 <= i < before.len() && (#[trigger] before[i]).action == flag.action;
            &&& flag.action is Retrieve || !waits ==> after == before.push(flag)
            &&& !(flag.action is Retrieve) && waits ==> after == before
        }),
{
}

proof fn lemma_upgrade_found(
    ranked: Seq<RankedItem>,
    equipped: Option<Seq<char>>,
    bank: Seq<BankItem>,
    from: int,
)
    requires
        0 <= from,
    ensures
        upgrade_in_bank(ranked, equipped, bank, from) matches Some(i) ==> from <= i < ranked.len()
            && is_upgrade(ranked[i], ranked, equipped) && bank_holds(bank, ranked[i].code@)
            && forall|j: int|
            from <= j < i ==> !(is_upgrade(#[trigger] ranked[j], ranked, equipped) && bank_holds(
                bank,
                ranked[j].code@,
            )),
        upgrade_in_bank(ranked, equipped, bank, from) is None ==> forall|j: int|
            from <= j < ranked.len() ==> !(is_upgrade(#[trigger] ranked[j], ranked, equipped)
                && bank_holds(bank, ranked[j].code@)),
    decreases ranked.len() - from,
{
    if from < ranked.len() && !(is_upgrade(ranked[from], ranked, equipped) && bank_holds(
        bank,
        ranked[from].code@,
    )) {
        lemma_upgrade_found(ranked, equipped, bank, from + 1);
    }
}

/// `flag` tells to put on the first entry of one of the first `n` rankings that beats what is worn
/// in its slot and lies in the bank.
pub open spec fn is_bank_upgrade(
    flag: FlagView,
    slots: Seq<SlotRating>,
    n: int,
    bank: Seq<BankItem>,
    equipped: Map<Seq<char>, Seq<char>>,
) -> bool {
    exists|k: int, i: int|
        {
            &&& 0 <= k < n
            &&& 0 <= i < slots[k].ranked@.len()
            &&& flag == upgrade_flag(slots[k].slot@, #[trigger] slots[k].ranked@[i].code@)
            &&& is_upgrade(slots[k].ranked@[i], slots[k].ranked@, get_text(equipped, slots[k].slot@))
            &&& bank_holds(bank, slots[k].ranked@[i].code@)
        }
}

/// Whatever a look at the bank queues for a character is a genuine upgrade: the bank holds it, it
/// is not what the character wears in that slot, and it is rated above what the character wears.
/// Nobody else's flags change.
pub proof fn law_bank_flags_are_upgrades(
    p: Pending,
    name: Seq<char>,
    slots: Seq<SlotRating>,
    n: int,
    bank: Seq<BankItem>,
    equipped: Map<Seq<char>, Seq<char>>,
)
    requires
        0 <= n <= slots.len(),
    ensures
        grows_to(p, flag_slots(p, name, slots, n, bank, equipped)),
        pending_of(p, name).is_prefix_of(
            pending_of(flag_slots(p, name, slots, n, bank, equipped), name),
        ),
        forall|j: int|
            pending_of(p, name).len() <= j < pending_of(
                flag_slots(p, name, slots, n, bank, equipped),
                name,
            ).len() ==> is_bank_upgrade(
                #[trigger] pending_of(flag_slots(p, name, slots, n, bank, equipped), name)[j],
                slots,
                n,
                bank,
                equipped,
            ),
        forall|other: Seq<char>|
            other != name ==> pending_of(flag_slots(p, name, slots, n, bank, equipped), other)
                == pending_of(p, other),
    decreases n,
{
    if n > 0 {
        law_bank_flags_are_upgrades(p, name, slots, n - 1, bank, equipped);
        let before = flag_slots(p, name, slots, n - 1, bank, equipped);
        let after = flag_slots(p, name, slots, n, bank, equipped);
        let r = slots[n - 1];
        let gear = get_text(equipped, r.slot@);
        lemma_upgrade_found(r.ranked@, gear, bank, 0);
        let old_len = pending_of(p, name).len() as int;
        match upgrade_in_bank(r.ranked@, gear, bank, 0) {
            Some(i) => {
                let f = upgrade_flag(r.slot@, r.ranked@[i].code@);
                law_queuing_keeps_what_waits(before, name, f);
                assert(pending_of(before, name).is_prefix_of(pending_of(after, name)));
                assert forall|j: int| old_len <= j < pending_of(after, name).len() implies is_bank_upgrade(
                    #[trigger] pending_of(after, name)[j],
                    slots,
                    n,
                    bank,
                    equipped,
                ) by {
                    if j < pending_of(before, name).len() {
                        let g = pending_of(before, name)[j];
                        assert(pending_of(after, name)[j] == g);
                        assert(is_bank_upgrade(g, slots, n - 1, bank, equipped));
                        let (k, m) = choose|k: int, m: int|
                            {
                                &&& 0 <= k < n - 1
                                &&& 0 <= m < slots[k].ranked@.len()
                                &&& g == upgrade_flag(
                                    slots[k].slot@,
                                    #[trigger] slots[k].ranked@[m].code@,
                                )
                                &&& is_upgrade(
                                    slots[k].ranked@[m],
                                    slots[k].ranked@,
                                    get_text(equipped, slots[k].slot@),
                                )
                                &&& bank_holds(bank, slots[k].ranked@[m].code@)
                            };
                        assert(g == upgrade_flag(slots[k].slot@, slots[k].ranked@[m].code@));
                    } else {
                        assert(pending_of(after, name)[j] == f);
                        assert(f == upgrade_flag(
                            slots[n - 1].slot@,
                            slots[n - 1].ranked@[i].code@,
                        ));
                    }
                }
            },
            None => {
                assert forall|j: int| old_len <= j < pending_of(after, name).len() implies is_bank_upgrade(
                    #[trigger] pending_of(after, name)[j],
                    slots,
                    n,
                    bank,
                    equipped,
                ) by {
                    let g = pending_of(before, name)[j];
                    assert(is_bank_upgrade(g, slots, n - 1, bank, equipped));
                    let (k, m) = choose|k: int, m: int|
                        {
                            &&& 0 <= k < n - 1
                            &&& 0 <= m < slots[k].ranked@.len()
                            &&& g == upgrade_flag(
                                slots[k].slot@,
                                #[trigger] slots[k].ranked@[m].code@,
                            )
                            &&& is_upgrade(
                                slots[k].ranked@[m],
                                slots[k].ranked@,
                                get_text(equipped, slots[k].slot@),
                            )
                            &&& bank_holds(bank, slots[k].ranked@[m].code@)
                        };
                    assert(g == upgrade_flag(slots[k].slot@, slots[k].ranked@[m].code@));
                }
            },
        }
    }
}

/// `action` waits for `name`.
spec fn waits(p: Pending, name: Seq<char>, action: ActionView) -> bool {
    p.contains_key(name) && already_waiting(p[name], action)
}

/// Every upgrade that the bank holds for the first `n` slots has been flagged.
spec fn slots_settled(
    p: Pending,
    name: Seq<char>,
    slots: Seq<SlotRating>,
    n: int,
    bank: Seq<BankItem>,
    equipped: Map<Seq<char>, Seq<char>>,
) -> bool {
    forall|k: int|
        0 <= k < n ==> (upgrade_in_bank(
            (#[trigger] slots[k]).ranked@,
            get_text(equipped, slots[k].slot@),
            bank,
            0,
        ) matches Some(i) ==> waits(
            p,
            name,
            upgrade_flag(slots[k].slot@, slots[k].ranked@[i].code@).action,
        ))
}

proof fn lemma_grown_waits(p: Pending, q: Pending, name: Seq<char>, action: ActionView)
    requires
        waits(p, name, action),
        grows_to(p, q),
    ensures
        waits(q, name, action),
{
    let i = choose|i: int| 0 <= i < p[name].len() && (#[trigger] p[name][i]).action == action;
    assert(q[name][i].action == action);
}

proof fn lemma_waiting_is_kept(p: Pending, name: Seq<char>, flag: FlagView)
    requires
        waits(p, name, flag.action),
    ensures
        flagged(p, name, flag) == p,
{
    assert(flagged(p, name, flag) =~= p);
}

proof fn lemma_slots_settle(
    p: Pending,
    name: Seq<char>,
    slots: Seq<SlotRating>,
    n: int,
    bank: Seq<BankItem>,
    equipped: Map<Seq<char>, Seq<char>>,
)
    requires
        0 <= n <= slots.len(),
    ensures
        slots_settled(flag_slots(p, name, slots, n, bank, equipped), name, slots, n, bank, equipped),
        grows_to(p, flag_slots(p, name, slots, n, bank, equipped)),
    decreases n,
{
    law_bank_flags_are_upgrades(p, name, slots, n, bank, equipped);
    if n > 0 {
        lemma_slots_settle(p, name, slots, n - 1, bank, equipped);
        let before = flag_slots(p, name, slots, n - 1, bank, equipped);
        let after = flag_slots(p, name, slots, n, bank, equipped);
        let r = slots[n - 1];
        match upgrade_in_bank(r.ranked@, get_text(equipped, r.slot@), bank, 0) {
            Some(i) => {
                let f = upgrade_flag(r.slot@, r.ranked@[i].code@);
                law_queuing_keeps_what_waits(before, name, f);
                assert(waits(after, name, f.action));
                assert forall|k: int| 0 <= k < n implies (upgrade_in_bank(
                    (#[trigger] slots[k]).ranked@,
                    get_text(equipped, slots[k].slot@),
                    bank,
                    0,
                ) matches Some(j) ==> waits(
                    after,
                    name,
                    upgrade_flag(slots[k].slot@, slots[k].ranked@[j].code@).action,
                )) by {
                    if k < n - 1 {
                        if let Some(j) = upgrade_in_bank(
                            slots[k].ranked@,
                            get_text(equipped, slots[k].slot@),
                            bank,
                            0,
                        ) {
                            lemma_grown_waits(
                                before,
                                after,
                                name,
                                upgrade_flag(slots[k].slot@, slots[k].ranked@[j].code@).action,
                            );
                        }
                    }
                }
            },
            None => {},
        }
    }
}

proof fn lemma_settled_slots_stay(
    p: Pending,
    name: Seq<char>,
    slots: Seq<SlotRating>,
    n: int,
    bank: Seq<BankItem>,
    equipped: Map<Seq<char>, Seq<char>>,
)
    requires
        0 <= n <= slots.len(),
        slots_settled(p, name, slots, n, bank, equipped),
    ensures
        flag_slots(p, name, slots, n, bank, equipped) == p,
    decreases n,
{
    if n > 0 {
        assert(slots_settled(p, name, slots, n - 1, bank, equipped));
        lemma_settled_slots_stay(p, name, slots, n - 1, bank, equipped);
        let r = slots[n - 1];
        if let Some(i) = upgrade_in_bank(r.ranked@, get_text(equipped, r.slot@), bank, 0) {
            lemma_waiting_is_kept(p, name, upgrade_flag(r.slot@, r.ranked@[i].code@));
        }
    }
}

/// Every upgrade that the bank holds for the first `n` rated characters has been flagged.
spec fn everyone_settled(
    p: Pending,
    names: Seq<Seq<char>>,
    n: int,
    ratings: Map<Seq<char>, Seq<SlotRating>>,
    bank: Seq<BankItem>,
    equipped: Map<Seq<char>, Map<Seq<char>, Seq<char>>>,
) -> bool {
    forall|k: int|
        0 <= k < n ==> slots_settled(
            p,
            #[trigger] names[k],
            ratings[names[k]],
            ratings[names[k]].len() as int,
            bank,
            worn_by(equipped, names[k]),
        )
}

proof fn lemma_grown_settled(
    p: Pending,
    q: Pending,
    name: Seq<char>,
    slots: Seq<SlotRating>,
    n: int,
    bank: Seq<BankItem>,
    equipped: Map<Seq<char>, Seq<char>>,
)
    requires
        slots_settled(p, name, slots, n, bank, equipped),
        grows_to(p, q),
    ensures
        slots_settled(q, name, slots, n, bank, equipped),
{
    assert forall|k: int| 0 <= k < n implies (upgrade_in_bank(
        (#[trigger] slots[k]).ranked@,
        get_text(equipped, slots[k].slot@),
        bank,
        0,
    ) matches Some(j) ==> waits(
        q,
        name,
        upgrade_flag(slots[k].slot@, slots[k].ranked@[j].code@).action,
    )) by {
        if let Some(j) = upgrade_in_bank(
            slots[k].ranked@,
            get_text(equipped, slots[k].slot@),
            bank,
            0,
        ) {
            lemma_grown_waits(
                p,
                q,
                name,
                upgrade_flag(slots[k].slot@, slots[k].ranked@[j].code@).action,
            );
        }
    }
}

proof fn lemma_everyone_settles(
    p: Pending,
    names: Seq<Seq<char>>,
    n: int,
    ratings: Map<Seq<char>, Seq<SlotRating>>,
    bank: Seq<BankItem>,
    equipped: Map<Seq<char>, Map<Seq<char>, Seq<char>>>,
)
    requires
        0 <= n <= names.len(),
    ensures
        everyone_settled(
            flag_everyone(p, names, n, ratings, bank, equipped),
            names,
            n,
            ratings,
            bank,
            equipped,
        ),
        grows_to(p, flag_everyone(p, names, n, ratings, bank, equipped)),
    decreases n,
{
    if n > 0 {
        lemma_everyone_settles(p, names, n - 1, ratings, bank, equipped);
        let before = flag_everyone(p, names, n - 1, ratings, bank, equipped);
        let after = flag_everyone(p, names, n, ratings, bank, equipped);
        let name = names[n - 1];
        lemma_slots_settle(
            before,
            name,
            ratings[name],
            ratings[name].len() as int,
            bank,
            worn_by(equipped, name),
        );
        assert forall|k: int| 0 <= k < n implies slots_settled(
            after,
            #[trigger] names[k],
            ratings[names[k]],
            ratings[names[k]].len() as int,
            bank,
            worn_by(equipped, names[k]),
        ) by {
            if k < n - 1 {
                lemma_grown_settled(
                    before,
                    after,
                    names[k],
                    ratings[names[k]],
                    ratings[names[k]].len() as int,
                    bank,
                    worn_by(equipped, names[k]),
                );
            }
        }
        assert(grows_to(p, after)) by {
            assert forall|q: Seq<char>| #[trigger] p.contains_key(q) implies after.contains_key(q)
                && p[q].is_prefix_of(after[q]) by {
                assert(before.contains_key(q));
                assert(p[q].is_prefix_of(before[q]) && before[q].is_prefix_of(after[q]));
                assert(after[q].take(p[q].len() as int) =~= p[q]);
            }
        }
    }
}

proof fn lemma_settled_everyone_stays(
    p: Pending,
    names: Seq<Seq<char>>,
    n: int,
    ratings: Map<Seq<char>, Seq<SlotRating>>,
    bank: Seq<BankItem>,
    equipped: Map<Seq<char>, Map<Seq<char>, Seq<char>>>,
)
    requires
        0 <= n <= names.len(),
        everyone_settled(p, names, n, ratings, bank, equipped),
    ensures
        flag_everyone(p, names, n, ratings, bank, equipped) == p,
    decreases n,
{
    if n > 0 {
        lemma_settled_everyone_stays(p, names, n - 1, ratings, bank, equipped);
        let name = names[n - 1];
        lemma_settled_slots_stay(
            p,
            name,
            ratings[name],
            ratings[name].len() as int,
            bank,
            worn_by(equipped, name),
        );
    }
}

proof fn lemma_grows_through(p: Pending, q: Pending, r: Pending)
    requires
        grows_to(p, q),
        grows_to(q, r),
    ensures
        grows_to(p, r),
{
    assert forall|name: Seq<char>| #[trigger] p.contains_key(name) implies r.contains_key(name)
        && p[name].is_prefix_of(r[name]) by {
        assert(q.contains_key(name));
        assert(r[name].take(p[name].len() as int) =~= p[name]);
    }
}

/// A bank refresh loses no flag that waits, and refreshing again with the same contents changes
/// nothing: flags never pile up, however often anyone visits the bank.
pub proof fn law_bank_refresh_settles(s: StateView, bank: Seq<BankItem>)
    ensures
        grows_to(s.pending, after_bank_refresh(s, bank).pending),
        after_bank_refresh(after_bank_refresh(s, bank), bank) == after_bank_refresh(s, bank),
{
    let s0 = StateView { bank, ..s };
    let s1 = after_upgrades(s0);
    let s2 = after_restock(s1);
    let s3 = after_wishlist(s2);
    let n = s.rated.len() as int;
    lemma_everyone_settles(s.pending, s.rated, n, s.ratings, bank, s.equipped);
    if let Some(name) = s1.awaiting {
        law_queuing_keeps_what_waits(
            s1.pending,
            name,
            FlagView { from: "bank"@, action: ActionView::Heal },
        );
    }
    assert(grows_to(s1.pending, s2.pending));
    if let Some(owner) = s2.wishlist_owner {
        law_queuing_keeps_what_waits(
            s2.pending,
            owner,
            FlagView { from: "bank"@, action: ActionView::CraftGear },
        );
    }
    assert(grows_to(s2.pending, s3.pending));
    lemma_grows_through(s1.pending, s2.pending, s3.pending);
    lemma_grows_through(s.pending, s1.pending, s3.pending);
    assert forall|k: int| 0 <= k < n implies slots_settled(
        s3.pending,
        #[trigger] s.rated[k],
        s.ratings[s.rated[k]],
        s.ratings[s.rated[k]].len() as int,
        bank,
        worn_by(s.equipped, s.rated[k]),
    ) by {
        lemma_grown_settled(
            s1.pending,
            s3.pending,
            s.rated[k],
            s.ratings[s.rated[k]],
            s.ratings[s.rated[k]].len() as int,
            bank,
            worn_by(s.equipped, s.rated[k]),
        );
    }
    lemma_settled_everyone_stays(s3.pending, s.rated, n, s.ratings, bank, s.equipped);
    assert(after_upgrades(StateView { bank, ..s3 }) =~= s3);
    assert(after_restock(s3) =~= s3);
    if let Some(owner) = s3.wishlist_owner {
        if any_craftable(s3.data.items@, s3.bank, s3.wishlist_equipment) {
            let f = FlagView { from: "bank"@, action: ActionView::CraftGear };
            law_flag_is_queued_once(s2.pending, owner, f);
        }
    }
    assert(after_wishlist(s3) =~= s3);
}

/// The flags drained are exactly those that waited, and none waits afterwards.
pub proof fn law_draining_leaves_nothing(p: Pending, name: Seq<char>)
    ensures
        pending_of(p.remove(name), name).len() == 0,
        forall|other: Seq<char>|
            other != name ==> pending_of(p.remove(name), other) == pending_of(p, other),
{
}

} // verus!
