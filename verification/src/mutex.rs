//! Blocking mutex (the waiting thread sleeps instead of spinning).
use vstd::prelude::*;
use std::collections::VecDeque;
use crate::table::{zeroed_slot, reset_slot};

verus! {

/// What a blocking mutex holds, as mathematical values.
#[verifier::ext_equal]
pub struct MutexState {
    /// Whether some thread holds the mutex.
    pub locked: bool,
    /// Threads asleep on the mutex, first to be woken first.
    pub waiters: Seq<usize>,
    /// Units of the mutex free for the deadlock detector (one when nobody holds it).
    pub avail: int,
    /// Per thread: units the detector counts as held by that thread.
    pub allocation: Seq<isize>,
    /// Per thread: units the thread waits for.
    pub need: Seq<isize>,
}

impl MutexState {
    /// A thread waits only while the mutex is held, and every waiter has a
    /// slot in the need table.
    pub open spec fn wf(self) -> bool {
        &&& !self.locked ==> self.waiters.len() == 0
        &&& forall|i: int| 0 <= i < self.waiters.len() ==> (#[trigger] self.waiters[i] as int) < self.need.len()
    }

    /// The bookkeeping of the deadlock detector agrees with the lock bit:
    /// one free unit exactly when nobody holds the mutex.
    pub open spec fn avail_matches_lock(self) -> bool {
        self.avail == if self.locked { 0int } else { 1int }
    }

    /// State after `tid` asked for the mutex without bookkeeping: it takes a
    /// free mutex, or joins the end of the queue.
    pub open spec fn after_lock(self, tid: usize) -> MutexState {
        if self.locked {
            MutexState { waiters: self.waiters.push(tid), ..self }
        } else {
            MutexState { locked: true, ..self }
        }
    }

    /// State after a release without bookkeeping: the first waiter inherits
    /// the mutex, or the mutex becomes free.
    pub open spec fn after_unlock(self) -> MutexState {
        if self.waiters.len() > 0 {
            MutexState { waiters: self.waiters.drop_first(), ..self }
        } else {
            MutexState { locked: false, ..self }
        }
    }

    /// `tid` may ask for the mutex with bookkeeping: it has the table slot
    /// that the request updates, and no counter leaves `isize`.
    pub open spec fn can_lock_tid(self, tid: usize) -> bool {
        &&& self.locked ==> (tid as int) < self.need.len() && self.need[tid as int] < isize::MAX
        &&& !self.locked ==> {
            &&& (tid as int) < self.allocation.len()
            &&& self.avail > isize::MIN
            &&& self.allocation[tid as int] < isize::MAX
        }
    }

    /// State after `tid` asked for the mutex with bookkeeping: a free mutex
    /// is taken (one unit moves from `avail` to the allocation of `tid`);
    /// on a held one `tid` queues and its need grows by one.
    pub open spec fn after_lock_tid(self, tid: usize) -> MutexState {
        let t = tid as int;
        if self.locked {
            MutexState {
                waiters: self.waiters.push(tid),
                need: self.need.update(t, (self.need[t] + 1) as isize),
                ..self
            }
        } else {
            MutexState {
                locked: true,
                avail: self.avail - 1,
                allocation: self.allocation.update(t, (self.allocation[t] + 1) as isize),
                ..self
            }
        }
    }

    /// `tid` may release the mutex with bookkeeping: it is held, and no
    /// counter leaves `isize`.
    pub open spec fn can_unlock_tid(self, tid: usize) -> bool {
        &&& self.locked
        &&& self.waiters.len() > 0 ==> self.need[self.waiters[0] as int] > isize::MIN
        &&& self.waiters.len() == 0 ==> {
            &&& (tid as int) < self.allocation.len()
            &&& self.avail < isize::MAX
            &&& self.allocation[tid as int] > isize::MIN
        }
    }

    /// State after `tid` released the mutex with bookkeeping: the first
    /// waiter is woken and no longer waits (its need drops by one), the
    /// mutex staying held; with no waiter the unit goes back from the
    /// allocation of `tid` to `avail` and the mutex is free.
    pub open spec fn after_unlock_tid(self, tid: usize) -> MutexState {
        if self.waiters.len() > 0 {
            let w = self.waiters[0] as int;
            MutexState {
                waiters: self.waiters.drop_first(),
                need: self.need.update(w, (self.need[w] - 1) as isize),
                ..self
            }
        } else {
            let t = tid as int;
            MutexState {
                locked: false,
                avail: self.avail + 1,
                allocation: self.allocation.update(t, (self.allocation[t] - 1) as isize),
                ..self
            }
        }
    }

    /// State after the slots of `tid` were made ready and cleared.
    pub open spec fn after_set_tid(self, tid: usize) -> MutexState {
        MutexState {
            allocation: zeroed_slot(self.allocation, tid as int),
            need: zeroed_slot(self.need, tid as int),
            ..self
        }
    }
}

/// Blocking Mutex struct
pub struct MutexBlocking {
    /// inner
    pub inner: MutexBlockingInner,
}

/// The fields of a blocking mutex.
pub struct MutexBlockingInner {
    pub locked: bool,
    pub wait_queue: VecDeque<usize>,
    /// avail
    pub avail: isize,
    /// alloc
    pub allocation: Vec<isize>,
    /// need
    pub need: Vec<isize>,
}

impl View for MutexBlocking {
    type V = MutexState;

    open spec fn view(&self) -> MutexState {
        MutexState {
            locked: self.inner.locked,
            waiters: self.inner.wait_queue@,
            avail: self.inner.avail as int,
            allocation: self.inner.allocation@,
            need: self.inner.need@,
        }
    }
}

impl MutexBlocking {
    /// Create a new blocking mutex
    pub fn new() -> (m: Self)
        ensures
            m@ == (MutexState {
                locked: false,
                waiters: Seq::empty(),
                avail: 1,
                allocation: Seq::empty(),
                need: Seq::empty(),
            }),
            m@.wf(),
    {
        MutexBlocking {
            inner: MutexBlockingInner {
                locked: false,
                wait_queue: VecDeque::new(),
                avail: 1,
                allocation: Vec::new(),
                need: Vec::new(),
            },
        }
    }

    /// lock the blocking mutex: returns `true` when the caller `tid` was
    /// queued and must now sleep, `false` when it holds the mutex.
    pub fn lock(&mut self, tid: usize) -> (blocked: bool)
        requires
            old(self)@.wf(),
            old(self)@.locked ==> (tid as int) < old(self)@.need.len(),
        ensures
            final(self)@ == old(self)@.after_lock(tid),
            blocked == old(self)@.locked,
            blocked ==> final(self)@.waiters == old(self)@.waiters.push(tid),
            final(self)@.wf(),
    {
        if self.inner.locked {
            self.inner.wait_queue.push_back(tid);
            true
        } else {
            self.inner.locked = true;
            false
        }
    }

    /// unlock the blocking mutex: returns the waiter that now holds the
    /// mutex and must be woken, if there is one.
    pub fn unlock(&mut self) -> (woken: Option<usize>)
        requires
            old(self)@.wf(),
            old(self)@.locked,
        ensures
            final(self)@ == old(self)@.after_unlock(),
            woken == (if old(self)@.waiters.len() > 0 { Some(old(self)@.waiters[0]) } else { None::<usize> }),
            final(self)@.waiters == old(self)@.waiters.subrange(if old(self)@.waiters.len() > 0 { 1int } else { 0int }, old(self)@.waiters.len() as int),
            final(self)@.wf(),
    {
        if let Some(waking_task) = self.inner.wait_queue.pop_front() {
            Some(waking_task)
        } else {
            self.inner.locked = false;
            None
        }
    }

    /// lock the blocking mutex, keeping the deadlock detector's counts:
    /// returns `true` when `tid` was queued and must now sleep.
    pub fn lock_tid(&mut self, tid: usize) -> (blocked: bool)
        requires
            old(self)@.wf(),
            old(self)@.can_lock_tid(tid),
        ensures
            final(self)@ == old(self)@.after_lock_tid(tid),
            blocked == old(self)@.locked,
            blocked ==> final(self)@.waiters == old(self)@.waiters.push(tid),
            !blocked ==> final(self)@.waiters == old(self)@.waiters,
            final(self)@.wf(),
            old(self)@.avail_matches_lock() ==> final(self)@.avail_matches_lock(),
    {
        if self.inner.locked {
            self.inner.wait_queue.push_back(tid);
            let n = self.inner.need[tid] + 1;
            self.inner.need.set(tid, n);
            true
        } else {
            self.inner.locked = true;
            self.inner.avail = self.inner.avail - 1;
            let a = self.inner.allocation[tid] + 1;
            self.inner.allocation.set(tid, a);
            false
        }
    }

    /// unlock the blocking mutex, keeping the deadlock detector's counts:
    /// returns the waiter that now holds the mutex and must be woken.
    pub fn unlock_tid(&mut self, tid: usize) -> (woken: Option<usize>)
        requires
            old(self)@.wf(),
            old(self)@.can_unlock_tid(tid),
        ensures
            final(self)@ == old(self)@.after_unlock_tid(tid),
            woken == (if old(self)@.waiters.len() > 0 { Some(old(self)@.waiters[0]) } else { None::<usize> }),
            final(self)@.waiters == old(self)@.waiters.subrange(if old(self)@.waiters.len() > 0 { 1int } else { 0int }, old(self)@.waiters.len() as int),
            final(self)@.wf(),
            old(self)@.avail_matches_lock() ==> final(self)@.avail_matches_lock(),
    {
        if let Some(waking_task) = self.inner.wait_queue.pop_front() {
            let wakeup_tid = waking_task;
            let n = self.inner.need[wakeup_tid] - 1;
            self.inner.need.set(wakeup_tid, n);
            Some(waking_task)
        } else {
            self.inner.locked = false;
            self.inner.avail = self.inner.avail + 1;
            let a = self.inner.allocation[tid] - 1;
            self.inner.allocation.set(tid, a);
            None
        }
    }

    /// set tid
    pub fn set_tid(&mut self, tid: usize)
        requires
            old(self)@.wf(),
            tid < usize::MAX,
        ensures
            final(self)@ == old(self)@.after_set_tid(tid),
            final(self)@.wf(),
    {
        reset_slot(&mut self.inner.allocation, tid);
        reset_slot(&mut self.inner.need, tid);
    }
}

} // verus!
