//! The pending queue as a sequence of wake requests in ascending order of
//! deadline, and what pruning, accepting and waiting mean on it.

use vstd::prelude::*;
use crate::request::WakeRequest;
use crate::time::{time_left, IDLE_WAIT};

verus! {

/// Deadlines never decrease along `s`.
pub open spec fn ascending<H>(s: Seq<WakeRequest<H>>) -> bool {
    forall|i: int, j: int| 0 <= i <= j < s.len() ==> s[i].deadline <= s[j].deadline
}

/// The test that a request's deadline has been reached at `now`.
pub open spec fn reached<H>(now: u128) -> spec_fn(WakeRequest<H>) -> bool {
    |r: WakeRequest<H>| r.is_due(now)
}

/// The test that a request's deadline still lies after `now`.
pub open spec fn ahead<H>(now: u128) -> spec_fn(WakeRequest<H>) -> bool {
    |r: WakeRequest<H>| !r.is_due(now)
}

/// The requests of `s` whose deadline has been reached at `now`, in the
/// order in which `s` holds them.
pub open spec fn due<H>(s: Seq<WakeRequest<H>>, now: u128) -> Seq<WakeRequest<H>> {
    s.filter(reached(now))
}

/// The requests of `s` whose deadline still lies after `now`, in the order
/// in which `s` holds them.
pub open spec fn pending<H>(s: Seq<WakeRequest<H>>, now: u128) -> Seq<WakeRequest<H>> {
    s.filter(ahead(now))
}

/// The place that a request with deadline `deadline` takes in `s`: behind
/// every request whose deadline is at or before its own.
pub open spec fn slot<H>(s: Seq<WakeRequest<H>>, deadline: u128) -> int {
    due(s, deadline).len() as int
}

/// The queue `s` after it has accepted `request`.
pub open spec fn with_request<H>(s: Seq<WakeRequest<H>>, request: WakeRequest<H>) -> Seq<
    WakeRequest<H>,
> {
    s.insert(slot(s, request.deadline), request)
}

/// How long the scheduler may block at `now` with `s` pending: until the
/// earliest deadline, or for `IDLE_WAIT` where nothing is pending.
pub open spec fn wait_for<H>(s: Seq<WakeRequest<H>>, now: u128) -> u128 {
    if s.len() == 0 {
        IDLE_WAIT
    } else {
        time_left(s[0].deadline, now)
    }
}

/// Where a position `k` parts `s` into requests due at `now` and requests
/// still pending, those two parts are exactly `due` and `pending`.
pub proof fn lemma_parted_at<H>(s: Seq<WakeRequest<H>>, now: u128, k: int)
    requires
        0 <= k <= s.len(),
        forall|i: int| 0 <= i < k ==> (#[trigger] s[i]).deadline <= now,
        forall|i: int| k <= i < s.len() ==> (#[trigger] s[i]).deadline > now,
    ensures
        due(s, now) == s.take(k),
        pending(s, now) == s.skip(k),
    decreases s.len(),
{
    reveal(Seq::filter);
    if s.len() == 0 {
        assert(s.take(k) =~= s);
        assert(s.skip(k) =~= s);
    } else {
        let front = s.drop_last();
        if k == s.len() {
            lemma_parted_at(front, now, k - 1);
            assert(front.take(k - 1).push(s.last()) =~= s.take(k));
            assert(front.skip(k - 1) =~= Seq::<WakeRequest<H>>::empty());
            assert(s.skip(k) =~= Seq::<WakeRequest<H>>::empty());
        } else {
            lemma_parted_at(front, now, k);
            assert(front.take(k) =~= s.take(k));
            assert(front.skip(k).push(s.last()) =~= s.skip(k));
        }
    }
}

/// What parting an ascending queue at `k` gives: two ascending parts, the
/// first due at `now` and the second still pending.
pub proof fn lemma_parts_in_order<H>(s: Seq<WakeRequest<H>>, now: u128, k: int)
    requires
        ascending(s),
        0 <= k <= s.len(),
        forall|i: int| 0 <= i < k ==> (#[trigger] s[i]).deadline <= now,
        forall|i: int| k <= i < s.len() ==> (#[trigger] s[i]).deadline > now,
    ensures
        due(s, now) == s.take(k),
        pending(s, now) == s.skip(k),
        ascending(due(s, now)),
        ascending(pending(s, now)),
        forall|i: int| 0 <= i < due(s, now).len() ==> (#[trigger] due(s, now)[i]).deadline <= now,
        forall|i: int|
            0 <= i < pending(s, now).len() ==> (#[trigger] pending(s, now)[i]).deadline > now,
{
    lemma_parted_at(s, now, k);
    let front = s.take(k);
    let back = s.skip(k);
    assert forall|i: int| 0 <= i < front.len() implies (#[trigger] front[i]).deadline <= now by {
        assert(s[i].deadline <= now);
    }
    assert forall|i: int| 0 <= i < back.len() implies (#[trigger] back[i]).deadline > now by {
        assert(s[k + i].deadline > now);
    }
    assert forall|i: int, j: int| 0 <= i <= j < front.len() implies front[i].deadline
        <= front[j].deadline by {
        assert(s[i].deadline <= s[j].deadline);
    }
    assert forall|i: int, j: int| 0 <= i <= j < back.len() implies back[i].deadline
        <= back[j].deadline by {
        assert(s[k + i].deadline <= s[k + j].deadline);
    }
}

/// In a queue in ascending order the requests due at `now` are the first
/// `k` and the pending ones are the rest, for the `k` that is returned.
pub proof fn lemma_boundary<H>(s: Seq<WakeRequest<H>>, now: u128) -> (k: int)
    requires
        ascending(s),
    ensures
        0 <= k <= s.len(),
        forall|i: int| 0 <= i < k ==> (#[trigger] s[i]).deadline <= now,
        forall|i: int| k <= i < s.len() ==> (#[trigger] s[i]).deadline > now,
        due(s, now) == s.take(k),
        pending(s, now) == s.skip(k),
    decreases s.len(),
{
    let k = if s.len() == 0 {
        0
    } else if s.last().deadline <= now {
        assert forall|i: int| 0 <= i < s.len() implies (#[trigger] s[i]).deadline <= now by {
            assert(s[i].deadline <= s[s.len() - 1].deadline);
        }
        s.len() as int
    } else {
        let front = s.drop_last();
        assert forall|i: int, j: int| 0 <= i <= j < front.len() implies front[i].deadline
            <= front[j].deadline by {
            assert(s[i].deadline <= s[j].deadline);
        }
        let k = lemma_boundary(front, now);
        assert forall|i: int| 0 <= i < k implies (#[trigger] s[i]).deadline <= now by {
            assert(front[i].deadline <= now);
        }
        assert forall|i: int| k <= i < s.len() implies (#[trigger] s[i]).deadline > now by {
            if i < front.len() {
                assert(front[i].deadline > now);
            }
        }
        k
    };
    lemma_parted_at(s, now, k);
    k
}

} // verus!
