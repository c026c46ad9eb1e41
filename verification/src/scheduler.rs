//! The scheduler: the single owner of the pending queue, and its decisions,
//! one cycle at a time.
//!
//! The driver owns the clock and the channel. Each turn of its loop it reads
//! the clock and calls [`Scheduler::begin_cycle`], releases what comes back,
//! blocks on the channel for the timeout it was given, and reports what ended
//! the wait to [`Scheduler::on_event`], which says whether to go round again.

use vstd::prelude::*;
use crate::queue::{
    ascending, due, lemma_parted_at, lemma_parts_in_order, pending, wait_for, with_request,
};
use crate::request::WakeRequest;
use crate::time::{remaining, IDLE_WAIT};

verus! {

/// What ended the scheduler's wait on its channel.
pub enum Event<H> {
    /// A new request arrived before the timeout ran out.
    Arrived(WakeRequest<H>),
    /// The timeout ran out with nothing received.
    TimedOut,
    /// Every producer is gone: nothing will arrive any more.
    Disconnected,
}

/// What the driver does after an event.
pub enum Flow<H> {
    /// Start the next cycle.
    Continue,
    /// Leave the loop. The requests that were still queued come back with
    /// it: they are released at once, whatever time they had left.
    Shutdown(Vec<WakeRequest<H>>),
}

/// What one cycle decided.
pub struct Cycle<H> {
    /// The requests whose deadline has passed, earliest first. Handing them
    /// back releases them.
    pub resolved: Vec<WakeRequest<H>>,
    /// How long the driver may block on the channel, in nanoseconds.
    pub timeout: u128,
}

/// The owner of the pending queue: the requests accepted and not yet handed
/// back, kept in ascending order of deadline.
pub struct Scheduler<H> {
    entries: Vec<WakeRequest<H>>,
}

impl<H> View for Scheduler<H> {
    type V = Seq<WakeRequest<H>>;

    /// The pending queue, earliest deadline first.
    closed spec fn view(&self) -> Seq<WakeRequest<H>> {
        self.entries@
    }
}

impl<H> Scheduler<H> {
    #[verifier::type_invariant]
    spec fn in_order(self) -> bool {
        ascending(self.entries@)
    }

    /// A scheduler with nothing pending.
    pub fn new() -> (scheduler: Self)
        ensures
            scheduler@ == Seq::<WakeRequest<H>>::empty(),
    {
        Scheduler { entries: Vec::new() }
    }

    /// The number of requests accepted and not yet handed back.
    pub fn pending_count(&self) -> (n: usize)
        ensures
            n == self@.len(),
    {
        self.entries.len()
    }

    /// The earliest deadline in the queue, `None` where nothing is pending.
    pub fn earliest_deadline(&self) -> (deadline: Option<u128>)
        ensures
            self@.len() == 0 <==> deadline.is_none(),
            self@.len() > 0 ==> deadline == Some(self@[0].deadline),
            forall|i: int|
                0 <= i < self@.len() ==> deadline.unwrap() <= (#[trigger] self@[i]).deadline,
    {
        proof {
            use_type_invariant(self);
        }
        if self.entries.len() == 0 {
            None
        } else {
            Some(self.entries[0].deadline)
        }
    }

    /// Moves the entries out and leaves the queue empty.
    fn take_entries(&mut self) -> (entries: Vec<WakeRequest<H>>)
        ensures
            entries@ == old(self)@,
            ascending(entries@),
            final(self)@ == Seq::<WakeRequest<H>>::empty(),
    {
        proof {
            use_type_invariant(&*self);
        }
        let mut taken = Scheduler { entries: Vec::new() };
        std::mem::swap(self, &mut taken);
        taken.entries
    }

    /// Removes every request whose deadline is at or before `now` and hands
    /// them back, earliest first. The others stay, in their order.
    pub fn prune(&mut self, now: u128) -> (resolved: Vec<WakeRequest<H>>)
        ensures
            resolved@ == due(old(self)@, now),
            final(self)@ == pending(old(self)@, now),
            forall|i: int| 0 <= i < resolved@.len() ==> (#[trigger] resolved@[i]).deadline <= now,
            forall|i: int|
                0 <= i < final(self)@.len() ==> (#[trigger] final(self)@[i]).deadline > now,
            ascending(old(self)@),
            ascending(resolved@),
            ascending(final(self)@),
    {
        let mut entries = self.take_entries();
        let mut k: usize = 0;
        while k < entries.len() && entries[k].deadline <= now
            invariant
                k <= entries.len(),
                forall|i: int| 0 <= i < k ==> (#[trigger] entries@[i]).deadline <= now,
            decreases entries.len() - k,
        {
            k += 1;
        }
        proof {
            assert forall|i: int| k <= i < entries@.len() implies (#[trigger] entries@[i]).deadline
                > now by {
                assert(entries@[k as int].deadline <= entries@[i].deadline);
            }
            lemma_parts_in_order(entries@, now, k as int);
        }
        let rest = entries.split_off(k);
        *self = Scheduler { entries: rest };
        entries
    }

    /// How long the driver may block at `now` before the queue needs
    /// attention again: until the earliest deadline, zero where that has
    /// passed already, or the idle wait where nothing is pending.
    pub fn next_timeout(&self, now: u128) -> (timeout: u128)
        ensures
            timeout == wait_for(self@, now),
            ascending(self@),
    {
        proof {
            use_type_invariant(self);
        }
        if self.entries.len() == 0 {
            IDLE_WAIT
        } else {
            remaining(self.entries[0].deadline, now)
        }
    }

    /// Accepts `request`, keeping the queue in ascending order of deadline.
    /// Among requests with the same deadline the one accepted first stays
    /// first.
    pub fn accept(&mut self, request: WakeRequest<H>)
        ensures
            final(self)@ == with_request(old(self)@, request),
            ascending(old(self)@),
            ascending(final(self)@),
    {
        let mut entries = self.take_entries();
        let mut k: usize = 0;
        while k < entries.len() && entries[k].deadline <= request.deadline
            invariant
                k <= entries.len(),
                forall|i: int|
                    0 <= i < k ==> (#[trigger] entries@[i]).deadline <= request.deadline,
            decreases entries.len() - k,
        {
            k += 1;
        }
        proof {
            lemma_parted_at(entries@, request.deadline, k as int);
        }
        entries.insert(k, request);
        *self = Scheduler { entries };
    }

    /// Removes every request, due or not, and hands them back, earliest
    /// first.
    pub fn shut_down(&mut self) -> (abandoned: Vec<WakeRequest<H>>)
        ensures
            abandoned@ == old(self)@,
            ascending(old(self)@),
            final(self)@ == Seq::<WakeRequest<H>>::empty(),
    {
        self.take_entries()
    }

    /// Opens a cycle at `now`: releases every request whose deadline is at
    /// or before `now`, and says how long the driver may then block: until
    /// the earliest deadline that is left, or for the idle wait where none
    /// is.
    pub fn begin_cycle(&mut self, now: u128) -> (cycle: Cycle<H>)
        ensures
            cycle.resolved@ == due(old(self)@, now),
            final(self)@ == pending(old(self)@, now),
            cycle.timeout == wait_for(final(self)@, now),
            forall|i: int|
                0 <= i < cycle.resolved@.len() ==> (#[trigger] cycle.resolved@[i]).deadline <= now,
            forall|i: int|
                0 <= i < final(self)@.len() ==> now + cycle.timeout <= (
                #[trigger] final(self)@[i]).deadline,
            cycle.timeout > 0,
            ascending(old(self)@),
            ascending(cycle.resolved@),
            ascending(final(self)@),
    {
        let resolved = self.prune(now);
        let timeout = self.next_timeout(now);
        Cycle { resolved, timeout }
    }

    /// Takes in what ended the wait. An arrival is queued by its deadline, a
    /// timeout changes nothing, and a disconnect empties the queue and ends
    /// the loop.
    pub fn on_event(&mut self, event: Event<H>) -> (flow: Flow<H>)
        ensures
            match event {
                Event::Arrived(request) => flow is Continue && final(self)@ == with_request(
                    old(self)@,
                    request,
                ),
                Event::TimedOut => flow is Continue && final(self)@ == old(self)@,
                Event::Disconnected => flow matches Flow::Shutdown(abandoned) && abandoned@ == old(
                    self,
                )@ && final(self)@ == Seq::<WakeRequest<H>>::empty(),
            },
            ascending(old(self)@),
            ascending(final(self)@),
    {
        proof {
            use_type_invariant(&*self);
        }
        match event {
            Event::Arrived(request) => {
                self.accept(request);
                Flow::Continue
            },
            Event::TimedOut => Flow::Continue,
            Event::Disconnected => {
                let abandoned = self.shut_down();
                Flow::Shutdown(abandoned)
            },
        }
    }
}

} // verus!
