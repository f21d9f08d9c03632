//! Counting semaphore with blocking `down`.
use vstd::prelude::*;
use std::collections::VecDeque;
use crate::table::{zeroed_slot, reset_slot};

verus! {

/// What a semaphore holds, as mathematical values.
#[verifier::ext_equal]
pub struct SemaphoreState {
    /// Units left; when negative, minus the number of sleeping threads.
    pub count: int,
    /// Threads asleep in `down`, first to be woken first.
    pub waiters: Seq<usize>,
    /// Units free for the deadlock detector.
    pub avail: int,
    /// Per thread: units the detector counts as held by that thread.
    pub allocation: Seq<isize>,
    /// Per thread: units the thread waits for.
    pub need: Seq<isize>,
}

impl SemaphoreState {
    /// The number of sleepers is the deficit of the count, the free units
    /// are its positive part, and every sleeper has a need slot.
    pub open spec fn wf(self) -> bool {
        &&& self.waiters.len() == (if self.count < 0 { -self.count } else { 0int })
        &&& self.avail == (if self.count > 0 { self.count } else { 0int })
        &&& forall|i: int| 0 <= i < self.waiters.len() ==> (#[trigger] self.waiters[i] as int) < self.need.len()
    }

    /// `tid` may take a unit: it has the table slot that the request
    /// updates, and no counter leaves `isize`.
    pub open spec fn can_down(self, tid: usize) -> bool {
        &&& self.count > isize::MIN
        &&& self.count <= 0 ==> (tid as int) < self.need.len() && self.need[tid as int] < isize::MAX
        &&& self.count > 0 ==> (tid as int) < self.allocation.len() && self.allocation[tid as int] < isize::MAX
    }

    /// State after `tid` took a unit: with a unit left it moves from `avail`
    /// to the allocation of `tid`; otherwise `tid` queues and its need grows.
    pub open spec fn after_down(self, tid: usize) -> SemaphoreState {
        let t = tid as int;
        if self.count > 0 {
            SemaphoreState {
                count: self.count - 1,
                avail: self.avail - 1,
                allocation: self.allocation.update(t, (self.allocation[t] + 1) as isize),
                ..self
            }
        } else {
            SemaphoreState {
                count: self.count - 1,
                waiters: self.waiters.push(tid),
                need: self.need.update(t, (self.need[t] + 1) as isize),
                ..self
            }
        }
    }

    /// `tid` may give a unit back: no counter leaves `isize`.
    pub open spec fn can_up(self, tid: usize) -> bool {
        &&& self.count < isize::MAX
        &&& self.count < 0 ==> self.need[self.waiters[0] as int] > isize::MIN
        &&& self.count >= 0 ==> {
            &&& (tid as int) < self.allocation.len()
            &&& self.allocation[tid as int] > isize::MIN
        }
    }

    /// State after `tid` gave a unit back: a sleeper, if any, is woken and
    /// no longer waits; otherwise the unit goes from the allocation of `tid`
    /// back to `avail`.
    pub open spec fn after_up(self, tid: usize) -> SemaphoreState {
        if self.count < 0 {
            let w = self.waiters[0] as int;
            SemaphoreState {
                count: self.count + 1,
                waiters: self.waiters.drop_first(),
                need: self.need.update(w, (self.need[w] - 1) as isize),
                ..self
            }
        } else {
            let t = tid as int;
            SemaphoreState {
                count: self.count + 1,
                avail: self.avail + 1,
                allocation: self.allocation.update(t, (self.allocation[t] - 1) as isize),
                ..self
            }
        }
    }

    /// State after the slots of `tid` were made ready and cleared.
    pub open spec fn after_set_tid(self, tid: usize) -> SemaphoreState {
        SemaphoreState {
            allocation: zeroed_slot(self.allocation, tid as int),
            need: zeroed_slot(self.need, tid as int),
            ..self
        }
    }
}

/// semaphore structure
pub struct Semaphore {
    /// semaphore inner
    pub inner: SemaphoreInner,
}

/// The fields of a semaphore.
pub struct SemaphoreInner {
    pub count: isize,
    pub wait_queue: VecDeque<usize>,
    pub avail: isize,
    pub allocation: Vec<isize>,
    pub need: Vec<isize>,
}

impl View for Semaphore {
    type V = SemaphoreState;

    open spec fn view(&self) -> SemaphoreState {
        SemaphoreState {
            count: self.inner.count as int,
            waiters: self.inner.wait_queue@,
            avail: self.inner.avail as int,
            allocation: self.inner.allocation@,
            need: self.inner.need@,
        }
    }
}

impl Semaphore {
    /// Create a new semaphore
    pub fn new(res_count: usize) -> (s: Self)
        requires
            res_count <= isize::MAX,
        ensures
            s@ == (SemaphoreState {
                count: res_count as int,
                waiters: Seq::empty(),
                avail: res_count as int,
                allocation: Seq::empty(),
                need: Seq::empty(),
            }),
            s@.wf(),
    {
        Semaphore {
            inner: SemaphoreInner {
                count: res_count as isize,
                wait_queue: VecDeque::new(),
                avail: res_count as isize,
                allocation: Vec::new(),
                need: Vec::new(),
            },
        }
    }

    /// up operation of semaphore: returns the sleeper to wake, if any.
    pub fn up(&mut self, tid: usize) -> (woken: Option<usize>)
        requires
            old(self)@.wf(),
            old(self)@.can_up(tid),
        ensures
            final(self)@ == old(self)@.after_up(tid),
            woken == (if old(self)@.count < 0 { Some(old(self)@.waiters[0]) } else { None::<usize> }),
            final(self)@.waiters == old(self)@.waiters.subrange(if old(self)@.count < 0 { 1int } else { 0int }, old(self)@.waiters.len() as int),
            final(self)@.wf(),
    {
        self.inner.count = self.inner.count + 1;
        if self.inner.count <= 0 {
            if let Some(task) = self.inner.wait_queue.pop_front() {
                let wakeup_tid = task;
                let n = self.inner.need[wakeup_tid] - 1;
                self.inner.need.set(wakeup_tid, n);
                Some(task)
            } else {
                None
            }
        } else {
            self.inner.avail = self.inner.avail + 1;
            let a = self.inner.allocation[tid] - 1;
            self.inner.allocation.set(tid, a);
            None
        }
    }

    /// down operation of semaphore: returns `true` when `tid` was queued
    /// and must now sleep.
    pub fn down(&mut self, tid: usize) -> (blocked: bool)
        requires
            old(self)@.wf(),
            old(self)@.can_down(tid),
        ensures
            final(self)@ == old(self)@.after_down(tid),
            blocked == (old(self)@.count <= 0),
            blocked ==> final(self)@.waiters == old(self)@.waiters.push(tid),
            !blocked ==> final(self)@.waiters == old(self)@.waiters,
            final(self)@.wf(),
    {
        self.inner.count = self.inner.count - 1;
        if self.inner.count < 0 {
            let n = self.inner.need[tid] + 1;
            self.inner.need.set(tid, n);
            self.inner.wait_queue.push_back(tid);
            true
        } else {
            self.inner.avail = self.inner.avail - 1;
            let a = self.inner.allocation[tid] + 1;
            self.inner.allocation.set(tid, a);
            false
        }
    }

    /// set tid
    pub fn set_tid(&mut self, tid: usize)
        requires
            old(self)@.wf(),
            tid < usize::MAX,
        ensures
            final(self)@ == old(self)@.after_set_tid(tid),
            final(self)@.wf(),
    {
        reset_slot(&mut self.inner.allocation, tid);
        reset_slot(&mut self.inner.need, tid);
    }
}

} // verus!
