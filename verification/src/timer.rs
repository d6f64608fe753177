//! The time-keeping facility's core: a min-ordered queue of pending timed
//! wake-ups, each an absolute deadline paired with a callback handle. The
//! background timing thread that owns the queue repeatedly asks for the next
//! action: wake the earliest entry that is due, sleep until the earliest
//! deadline, or idle when nothing is pending. The thread, the clock and the
//! wakers live outside this crate; the queue's logic is verified here.

use vstd::prelude::*;
use vstd::multiset::Multiset;

verus! {

broadcast use vstd::seq_lib::group_to_multiset_ensures;

/// One pending wake-up: an absolute deadline and the handle of the suspended
/// operation to notify.
#[derive(Clone, Copy, PartialEq, Eq, Structural, Debug)]
pub struct ScheduledWake {
    pub at: u64,
    pub handle: u64,
}

/// What the timing thread should do next.
#[derive(Clone, Copy, PartialEq, Eq, Structural, Debug)]
pub enum TimerAction {
    /// This entry's deadline has passed: notify it. It has been removed from
    /// the queue.
    Wake(ScheduledWake),
    /// Nothing is due yet: sleep until this deadline.
    SleepUntil(u64),
    /// The queue is empty: yield until new wake-ups arrive.
    Idle,
}

/// The pending wake-ups, as an unordered collection with min-extraction.
pub struct WakeQueue {
    entries: Vec<ScheduledWake>,
}

impl View for WakeQueue {
    type V = Multiset<ScheduledWake>;

    closed spec fn view(&self) -> Multiset<ScheduledWake> {
        self.entries@.to_multiset()
    }
}

impl WakeQueue {
    pub fn new() -> (q: WakeQueue)
        ensures
            q@ == Multiset::<ScheduledWake>::empty(),
    {
        let q = WakeQueue { entries: Vec::new() };
        proof {
            assert(q.entries@.to_multiset() =~= Multiset::<ScheduledWake>::empty());
        }
        q
    }

    pub fn len(&self) -> (r: usize)
        ensures
            r == self@.len(),
    {
        self.entries.len()
    }

    pub fn is_empty(&self) -> (r: bool)
        ensures
            r == (self@.len() == 0),
    {
        self.entries.len() == 0
    }

    /// Adds a pending wake-up.
    pub fn push(&mut self, at: u64, handle: u64) -> (r: Result<(), ()>)
        ensures
            r is Ok,
            final(self)@ == old(self)@.insert(ScheduledWake { at, handle }),
    {
        self.entries.push(ScheduledWake { at, handle });
        proof {
            assert(self.entries@ == old(self).entries@.push(ScheduledWake { at, handle }));
        }
        Ok(())
    }

    /// The scheduling decision at enqueue time: a deadline already reached is
    /// woken at once and never enqueued; a future deadline joins the queue.
    pub fn schedule(&mut self, at: u64, now: u64, handle: u64) -> (immediate: bool)
        ensures
            immediate <==> at <= now,
            immediate ==> final(self)@ == old(self)@,
            !immediate ==> final(self)@ == old(self)@.insert(ScheduledWake { at, handle }),
    {
        if at <= now {
            true
        } else {
            let _ = self.push(at, handle);
            false
        }
    }

    /// The timing thread's decision: pop and wake the entry with the earliest
    /// deadline when it is due, else report how long to sleep, or that the
    /// queue is empty. Whatever is returned is minimal among all pending
    /// deadlines.
    pub fn next_action(&mut self, now: u64) -> (r: TimerAction)
        ensures
            match r {
                TimerAction::Wake(e) => e.at <= now && old(self)@.count(e) > 0 && final(self)@
                    == old(self)@.remove(e) && forall|x: ScheduledWake|
                    old(self)@.count(x) > 0 ==> e.at <= x.at,
                TimerAction::SleepUntil(at) => at > now && final(self)@ == old(self)@ && exists|
                    e: ScheduledWake,
                |
                    old(self)@.count(e) > 0 && e.at == at && forall|x: ScheduledWake|
                        old(self)@.count(x) > 0 ==> e.at <= x.at,
                TimerAction::Idle => old(self)@.len() == 0 && final(self)@ == old(self)@,
            },
    {
        if self.entries.len() == 0 {
            return TimerAction::Idle;
        }
        let mut best: usize = 0;
        let mut i: usize = 1;
        while i < self.entries.len()
            invariant
                self == old(self),
                self.entries@.len() > 0,
                0 <= best < i <= self.entries@.len(),
                forall|j: int| 0 <= j < i ==> self.entries@[best as int].at <= self.entries@[j].at,
            decreases self.entries@.len() - i,
        {
            if self.entries[i].at < self.entries[best].at {
                best = i;
            }
            i = i + 1;
        }
        let ghost e = self.entries@[best as int];
        proof {
            assert(self@.count(e) > 0) by {
                assert(self.entries@.contains(e));
            }
            assert forall|x: ScheduledWake| self@.count(x) > 0 implies e.at <= x.at by {
                assert(self.entries@.contains(x));
                let j = choose|j: int| 0 <= j < self.entries@.len() && self.entries@[j] == x;
                assert(e.at <= self.entries@[j].at);
            }
        }
        let earliest = self.entries[best];
        if earliest.at <= now {
            let removed = self.entries.remove(best);
            proof {
                assert(self.entries@.to_multiset() =~= old(self).entries@.to_multiset().remove(e));
            }
            TimerAction::Wake(removed)
        } else {
            TimerAction::SleepUntil(earliest.at)
        }
    }
}

} // verus!
