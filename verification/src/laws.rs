//! What holds of every queue, every request and every instant.

use vstd::prelude::*;
use crate::queue::{
    ahead, ascending, due, lemma_boundary, lemma_parted_at, lemma_parts_in_order, pending,
    reached, slot, wait_for, with_request,
};
use crate::request::WakeRequest;
use crate::time::time_left;

verus! {

/// A request is released by the prune at `now` exactly when it is queued and
/// its deadline is at or before `now`; it is kept exactly when it is queued
/// and its deadline lies after `now`.
pub proof fn law_released_iff_due<H>(s: Seq<WakeRequest<H>>, now: u128, r: WakeRequest<H>)
    ensures
        due(s, now).contains(r) <==> s.contains(r) && r.deadline <= now,
        pending(s, now).contains(r) <==> s.contains(r) && r.deadline > now,
{
    let released = due(s, now);
    let kept = pending(s, now);
    if released.contains(r) {
        s.lemma_filter_contains_rev(reached(now), r);
        let i = choose|i: int| 0 <= i < released.len() && released[i] == r;
        s.lemma_filter_pred(reached(now), i);
    }
    if kept.contains(r) {
        s.lemma_filter_contains_rev(ahead(now), r);
        let i = choose|i: int| 0 <= i < kept.len() && kept[i] == r;
        s.lemma_filter_pred(ahead(now), i);
    }
    if s.contains(r) {
        let i = choose|i: int| 0 <= i < s.len() && s[i] == r;
        if r.deadline <= now {
            s.lemma_filter_contains(reached(now), i);
        } else {
            s.lemma_filter_contains(ahead(now), i);
        }
    }
}

/// No request is released early: one that was made at `start` for a wait of
/// `duration` and is released by the prune at `now` has waited for at least
/// `duration`.
pub proof fn law_never_released_early<H>(
    s: Seq<WakeRequest<H>>,
    start: u128,
    duration: u128,
    now: u128,
    r: WakeRequest<H>,
)
    requires
        r.deadline == start + duration,
        due(s, now).contains(r),
    ensures
        now - start >= duration,
{
    law_released_iff_due(s, now, r);
}

/// A request that asks for no wait at all is released by the first prune
/// after it was accepted, and so is every request whose deadline that prune
/// has reached.
pub proof fn law_due_arrival_released_at_next_prune<H>(
    s: Seq<WakeRequest<H>>,
    r: WakeRequest<H>,
    now: u128,
)
    requires
        r.deadline <= now,
    ensures
        due(with_request(s, r), now).contains(r),
        !pending(with_request(s, r), now).contains(r),
{
    let grown = with_request(s, r);
    s.lemma_filter_len(reached(r.deadline));
    assert(grown[slot(s, r.deadline)] == r);
    law_released_iff_due(grown, now, r);
}

/// Pruning neither loses nor invents a request: the released ones followed
/// by the kept ones are the queue as it was.
pub proof fn law_prune_partitions<H>(s: Seq<WakeRequest<H>>, now: u128)
    requires
        ascending(s),
    ensures
        due(s, now) + pending(s, now) == s,
{
    let k = lemma_boundary(s, now);
    assert(s.take(k) + s.skip(k) =~= s);
}

/// Requests come out in ascending order of deadline, what stays is still in
/// ascending order, and no request is released later than one with the same
/// or a later deadline that was queued with it.
pub proof fn law_release_order<H>(s: Seq<WakeRequest<H>>, now: u128)
    requires
        ascending(s),
    ensures
        ascending(due(s, now)),
        ascending(pending(s, now)),
        forall|a: WakeRequest<H>, b: WakeRequest<H>|
            s.contains(a) && a.deadline <= b.deadline && #[trigger] due(s, now).contains(b)
                ==> #[trigger] due(s, now).contains(a),
{
    let k = lemma_boundary(s, now);
    lemma_parts_in_order(s, now, k);
    let released = due(s, now);
    assert forall|a: WakeRequest<H>, b: WakeRequest<H>|
        s.contains(a) && a.deadline <= b.deadline && #[trigger] released.contains(
            b,
        ) implies #[trigger] released.contains(a) by {
        law_released_iff_due(s, now, a);
        law_released_iff_due(s, now, b);
    }
}

/// The whole queue is released by the first prune at or after its latest
/// deadline, and by none before.
pub proof fn law_all_released_at_latest_deadline<H>(s: Seq<WakeRequest<H>>, now: u128)
    requires
        ascending(s),
        s.len() > 0,
    ensures
        s.last().deadline <= now <==> due(s, now) == s,
        s.last().deadline <= now <==> pending(s, now).len() == 0,
{
    let k = lemma_boundary(s, now);
    if s.last().deadline <= now {
        assert(k == s.len()) by {
            if k < s.len() {
                assert(s[s.len() - 1].deadline > now);
            }
        }
        assert(s.take(k) =~= s);
    } else {
        assert(k < s.len()) by {
            if k == s.len() {
                assert(s[s.len() - 1].deadline <= now);
            }
        }
    }
}

/// Pruning at `earlier` and then at `later` releases, in all and in the same
/// order, what one prune at `later` releases, and keeps what it keeps.
pub proof fn law_prune_in_stages<H>(s: Seq<WakeRequest<H>>, earlier: u128, later: u128)
    requires
        ascending(s),
        earlier <= later,
    ensures
        due(s, earlier) + due(pending(s, earlier), later) == due(s, later),
        pending(pending(s, earlier), later) == pending(s, later),
{
    let k1 = lemma_boundary(s, earlier);
    let k2 = lemma_boundary(s, later);
    let rest = pending(s, earlier);
    assert(k1 <= k2) by {
        if k2 < k1 {
            assert(s[k2].deadline <= earlier);
            assert(s[k2].deadline > later);
        }
    }
    assert forall|i: int| 0 <= i < k2 - k1 implies (#[trigger] rest[i]).deadline <= later by {
        assert(s[k1 + i].deadline <= later);
    }
    assert forall|i: int| k2 - k1 <= i < rest.len() implies (#[trigger] rest[i]).deadline
        > later by {
        assert(s[k1 + i].deadline > later);
    }
    lemma_parted_at(rest, later, k2 - k1);
    assert(s.take(k1) + s.skip(k1).take(k2 - k1) =~= s.take(k2));
    assert(s.skip(k1).skip(k2 - k1) =~= s.skip(k2));
}

/// Accepting a request keeps the queue in ascending order, adds that request
/// and nothing else, and leaves the others in the order they had.
pub proof fn law_accept_keeps_order<H>(s: Seq<WakeRequest<H>>, r: WakeRequest<H>)
    requires
        ascending(s),
    ensures
        ascending(with_request(s, r)),
        0 <= slot(s, r.deadline) <= s.len(),
        with_request(s, r)[slot(s, r.deadline)] == r,
        with_request(s, r).remove(slot(s, r.deadline)) == s,
        forall|i: int| 0 <= i < slot(s, r.deadline) ==> (#[trigger] s[i]).deadline <= r.deadline,
        forall|i: int| slot(s, r.deadline) <= i < s.len() ==> (#[trigger] s[i]).deadline > r.deadline,
{
    let k = lemma_boundary(s, r.deadline);
    let grown = with_request(s, r);
    assert(slot(s, r.deadline) == k);
    assert(grown.remove(k) =~= s);
    assert forall|i: int, j: int| 0 <= i <= j < grown.len() implies grown[i].deadline
        <= grown[j].deadline by {
        if j < k {
            assert(s[i].deadline <= s[j].deadline);
        } else if j == k {
            if i < k {
                assert(s[i].deadline <= r.deadline);
            }
        } else {
            assert(s[j - 1].deadline > r.deadline);
            if i < k {
                assert(s[i].deadline <= s[j - 1].deadline);
            } else if i > k {
                assert(s[i - 1].deadline <= s[j - 1].deadline);
            }
        }
    }
}

/// The wait never runs past a pending deadline: it is at most the time left
/// to each request in the queue, and at most the idle wait where nothing is
/// pending.
pub proof fn law_wait_ends_by_every_deadline<H>(s: Seq<WakeRequest<H>>, now: u128, i: int)
    requires
        ascending(s),
        0 <= i < s.len(),
    ensures
        wait_for(s, now) <= time_left(s[i].deadline, now),
{
    assert(s[0].deadline <= s[i].deadline);
}

/// An arrival preempts the wait in progress: once a request is accepted, the
/// next wait is the shorter of the time left to its deadline and the wait
/// that the queue asked for before, however long that was.
pub proof fn law_arrival_preempts_wait<H>(s: Seq<WakeRequest<H>>, r: WakeRequest<H>, now: u128)
    requires
        ascending(s),
    ensures
        wait_for(with_request(s, r), now) <= time_left(r.deadline, now),
        s.len() == 0 ==> wait_for(with_request(s, r), now) == time_left(r.deadline, now),
        s.len() > 0 ==> wait_for(with_request(s, r), now) == if time_left(r.deadline, now)
            < wait_for(s, now) {
            time_left(r.deadline, now)
        } else {
            wait_for(s, now)
        },
{
    law_accept_keeps_order(s, r);
    let k = slot(s, r.deadline);
    let grown = with_request(s, r);
    if s.len() > 0 {
        if k == 0 {
            assert(grown[0] == r);
            assert(s[0].deadline > r.deadline);
        } else {
            assert(grown[0] == s[0]);
            assert(s[0].deadline <= r.deadline);
        }
    } else {
        assert(grown[0] == r);
    }
}

} // verus!
