//! Condition variable whose waiters sleep in a queue.
use vstd::prelude::*;
use std::collections::VecDeque;
use crate::mutex::MutexBlocking;

verus! {

/// Condition variable
pub struct Condvar {
    /// inner
    pub inner: CondvarInner,
}

/// The fields of a condition variable.
pub struct CondvarInner {
    pub wait_queue: VecDeque<usize>,
}

impl View for Condvar {
    /// The sleeping threads, first to be woken first.
    type V = Seq<usize>;

    open spec fn view(&self) -> Seq<usize> {
        self.inner.wait_queue@
    }
}

impl Condvar {
    /// Create a condition variable with no waiter.
    pub fn new() -> (c: Self)
        ensures
            c@ == Seq::<usize>::empty(),
    {
        Condvar { inner: CondvarInner { wait_queue: VecDeque::new() } }
    }

    /// Wake the first waiter, if any: returns it.
    pub fn signal(&mut self) -> (woken: Option<usize>)
        ensures
            old(self)@.len() > 0 ==> woken == Some(old(self)@[0]) && final(self)@ == old(self)@.drop_first(),
            old(self)@.len() == 0 ==> woken is None && final(self)@ == old(self)@,
    {
        self.inner.wait_queue.pop_front()
    }

    /// The first half of a wait by `tid`: release `mutex` (its first waiter,
    /// returned, inherits it) and queue `tid` on the condition variable.
    /// The caller then sleeps, and takes `mutex` again once woken.
    pub fn wait(&mut self, mutex: &mut MutexBlocking, tid: usize) -> (woken: Option<usize>)
        requires
            old(mutex)@.wf(),
            old(mutex)@.locked,
        ensures
            final(mutex)@ == old(mutex)@.after_unlock(),
            final(mutex)@.wf(),
            woken == (if old(mutex)@.waiters.len() > 0 { Some(old(mutex)@.waiters[0]) } else { None::<usize> }),
            final(self)@ == old(self)@.push(tid),
    {
        let woken = mutex.unlock();
        self.inner.wait_queue.push_back(tid);
        woken
    }
}

} // verus!
