//! The synchronisation system calls of a process. Each call computes the
//! new state and its result, and names the scheduling step (sleep, wake a
//! thread) that the kernel then performs.
use vstd::prelude::*;
use crate::mutex::{MutexBlocking, MutexState};
use crate::semaphore::{Semaphore, SemaphoreState};
use crate::condvar::Condvar;
use crate::banker::detect_safe;
use crate::process::{ProcessInner, request_is_unsafe, detector_input, task_span};
use crate::table::{zeros, zeroed_slot, first_free};

verus! {

/// What the scheduler does once a system call returned.
#[derive(PartialEq, Eq, Structural, Debug, Clone, Copy)]
pub enum Action {
    /// The calling thread keeps running.
    Continue,
    /// The calling thread sleeps until some thread wakes it.
    Block,
    /// The thread with this tid is woken; the calling thread keeps running.
    Wake(usize),
    /// The calling thread sleeps until the timer reaches this time (ms).
    SleepUntil(usize),
    /// The calling thread sleeps on a condition variable after the thread
    /// `woken`, if any, was woken; once woken itself it takes mutex
    /// `mutex_id` again with `MutexBlocking::lock`.
    WaitCondvar { woken: Option<usize>, mutex_id: usize },
}

/// The value a system call returns to the process, and the scheduling step.
#[derive(PartialEq, Eq, Structural, Debug, Clone, Copy)]
pub struct SyscallOutcome {
    pub ret: isize,
    pub action: Action,
}

/// The value the detector returns for a refused request.
pub open spec fn refused() -> SyscallOutcome {
    SyscallOutcome { ret: -0xDEADisize, action: Action::Continue }
}

/// `new` is `old` with mutex `id` in state `s`, everything else unchanged.
pub open spec fn mutex_updated(old: ProcessInner, new: ProcessInner, id: int, s: MutexState) -> bool {
    &&& new.mutex_list@.len() == old.mutex_list@.len()
    &&& new.mutex_list@[id] is Some
    &&& new.mutex_list@[id].unwrap()@ == s
    &&& forall|i: int| 0 <= i < old.mutex_list@.len() && i != id ==> new.mutex_list@[i] == old.mutex_list@[i]
    &&& new.semaphore_list == old.semaphore_list
    &&& new.condvar_list == old.condvar_list
    &&& new.tasks == old.tasks
    &&& new.deadlock_detect == old.deadlock_detect
}

/// `new` is `old` with semaphore `id` in state `s`, everything else unchanged.
pub open spec fn semaphore_updated(old: ProcessInner, new: ProcessInner, id: int, s: SemaphoreState) -> bool {
    &&& new.semaphore_list@.len() == old.semaphore_list@.len()
    &&& new.semaphore_list@[id] is Some
    &&& new.semaphore_list@[id].unwrap()@ == s
    &&& forall|i: int| 0 <= i < old.semaphore_list@.len() && i != id ==> new.semaphore_list@[i] == old.semaphore_list@[i]
    &&& new.mutex_list == old.mutex_list
    &&& new.condvar_list == old.condvar_list
    &&& new.tasks == old.tasks
    &&& new.deadlock_detect == old.deadlock_detect
}

/// `tid` is a live thread of the process.
pub open spec fn is_live(p: ProcessInner, tid: usize) -> bool {
    (tid as int) < p.tasks@.len() && p.tasks@[tid as int]
}

/// Whether deadlock detection refuses the request of `tid` for mutex `id`.
pub open spec fn mutex_lock_refused(p: ProcessInner, tid: usize, id: usize) -> bool {
    &&& p.deadlock_detect
    &&& p.mutex_list@[id as int].unwrap()@.avail == 0
    &&& request_is_unsafe(p.mutex_list@, p.tasks@, id as int, tid as int)
}

/// mutex lock syscall: thread `tid` asks for mutex `mutex_id`.
pub fn sys_mutex_lock(process: &mut ProcessInner, tid: usize, mutex_id: usize) -> (out: SyscallOutcome)
    requires
        old(process).wf(),
        (mutex_id as int) < old(process).mutex_list@.len(),
        old(process).mutex_list@[mutex_id as int] is Some,
        old(process).mutex_list@[mutex_id as int].unwrap()@.can_lock_tid(tid),
        old(process).deadlock_detect && old(process).mutex_list@[mutex_id as int].unwrap()@.avail == 0
            && is_live(*old(process), tid)
            ==> old(process).mutex_list@[mutex_id as int].unwrap()@.need[tid as int] < isize::MAX,
    ensures
        final(process).wf(),
        mutex_lock_refused(*old(process), tid, mutex_id) ==> out == refused() && *final(process) == *old(process),
        !mutex_lock_refused(*old(process), tid, mutex_id) ==> {
            let m = old(process).mutex_list@[mutex_id as int].unwrap()@;
            &&& out == (SyscallOutcome { ret: 0, action: if m.locked { Action::Block } else { Action::Continue } })
            &&& mutex_updated(*old(process), *final(process), mutex_id as int, m.after_lock_tid(tid))
        },
{
    let mutex_avail = match &process.mutex_list[mutex_id] {
        Some(m) => m.inner.avail,
        None => 1,
    };
    if process.deadlock_detect && mutex_avail == 0 {
        let (work, all_allocation, all_need) = detector_input(&process.mutex_list, &process.tasks, mutex_id, tid);
        if !detect_safe(work, &all_allocation, &all_need) {
            return SyscallOutcome { ret: -0xDEAD, action: Action::Continue };
        }
    }
    let blocked = match &mut process.mutex_list[mutex_id] {
        Some(m) => m.lock_tid(tid),
        None => false,
    };
    SyscallOutcome { ret: 0, action: if blocked { Action::Block } else { Action::Continue } }
}


/// A mutex just made for a process whose live tids lie below `span`.
pub open spec fn fresh_mutex(span: int) -> MutexState {
    MutexState { locked: false, waiters: Seq::empty(), avail: 1, allocation: zeros(span), need: zeros(span) }
}

/// A semaphore with `res_count` units just made for a process whose live
/// tids lie below `span`.
pub open spec fn fresh_semaphore(res_count: int, span: int) -> SemaphoreState {
    SemaphoreState { count: res_count, waiters: Seq::empty(), avail: res_count, allocation: zeros(span), need: zeros(span) }
}

/// `id` is the first free id of `list`, where a new object goes.
pub open spec fn is_first_free<T>(list: Seq<Option<T>>, id: int) -> bool {
    &&& 0 <= id <= list.len()
    &&& forall|j: int| 0 <= j < id ==> #[trigger] list[j] is Some
    &&& id < list.len() ==> list[id] is None
}

/// `new` is `old` with a new object at the first free id `id`: the list
/// grows only when no id was free, and every other entry is unchanged.
pub open spec fn placed<T>(old: Seq<Option<T>>, new: Seq<Option<T>>, id: int) -> bool {
    &&& is_first_free(old, id)
    &&& new.len() == (if id < old.len() { old.len() } else { old.len() + 1 })
    &&& new[id] is Some
    &&& forall|j: int| 0 <= j < old.len() && j != id ==> new[j] == old[j]
}

/// Clearing a slot at or past the end of a zero table gives a longer zero table.
proof fn lemma_zeroed_slot_of_zeros(len: int, tid: int)
    requires
        0 <= len <= tid,
    ensures
        zeroed_slot(zeros(len), tid) =~= zeros(tid + 1),
{
    assert forall|j: int| 0 <= j < tid + 1 implies #[trigger] zeroed_slot(zeros(len), tid)[j] == zeros(tid + 1)[j] by {
        if j < len {
            assert(zeros(len)[j] == 0isize);
        }
    }
}

/// mutex create syscall: returns the id of a new free mutex, the first free
/// id of the process. `blocking` does not matter: every mutex blocks.
pub fn sys_mutex_create(process: &mut ProcessInner, blocking: bool) -> (id: isize)
    requires
        old(process).wf(),
        old(process).mutex_list@.len() < isize::MAX,
    ensures
        final(process).wf(),
        placed(old(process).mutex_list@, final(process).mutex_list@, id as int),
        final(process).mutex_list@[id as int].unwrap()@ == fresh_mutex(task_span(old(process).tasks@, old(process).tasks@.len() as int)),
        final(process).semaphore_list == old(process).semaphore_list,
        final(process).condvar_list == old(process).condvar_list,
        final(process).tasks == old(process).tasks,
        final(process).deadlock_detect == old(process).deadlock_detect,
{
    let mut mutex = MutexBlocking::new();
    assert(mutex@ =~= fresh_mutex(0));
    let mut t: usize = 0;
    while t < process.tasks.len()
        invariant
            t <= process.tasks@.len(),
            mutex@ == fresh_mutex(task_span(process.tasks@, t as int)),
            0 <= task_span(process.tasks@, t as int) <= t,
            forall|k: int| 0 <= k < t && process.tasks@[k] ==> k < task_span(process.tasks@, t as int),
        decreases process.tasks.len() - t,
    {
        if process.tasks[t] {
            mutex.set_tid(t);
            proof { lemma_zeroed_slot_of_zeros(task_span(process.tasks@, t as int), t as int); }
        }
        assert(mutex@ =~= fresh_mutex(task_span(process.tasks@, t + 1)));
        t = t + 1;
    }
    let id = first_free(&process.mutex_list);
    if id < process.mutex_list.len() {
        process.mutex_list.set(id, Some(mutex));
    } else {
        process.mutex_list.push(Some(mutex));
    }
    id as isize
}

/// mutex unlock syscall: thread `tid` releases mutex `mutex_id`; its first
/// waiter, if any, inherits it and is woken.
pub fn sys_mutex_unlock(process: &mut ProcessInner, tid: usize, mutex_id: usize) -> (out: SyscallOutcome)
    requires
        old(process).wf(),
        (mutex_id as int) < old(process).mutex_list@.len(),
        old(process).mutex_list@[mutex_id as int] is Some,
        old(process).mutex_list@[mutex_id as int].unwrap()@.can_unlock_tid(tid),
    ensures
        final(process).wf(),
        ({
            let m = old(process).mutex_list@[mutex_id as int].unwrap()@;
            &&& out == (SyscallOutcome {
                ret: 0,
                action: if m.waiters.len() > 0 { Action::Wake(m.waiters[0]) } else { Action::Continue },
            })
            &&& mutex_updated(*old(process), *final(process), mutex_id as int, m.after_unlock_tid(tid))
        }),
{
    let woken = match &mut process.mutex_list[mutex_id] {
        Some(m) => m.unlock_tid(tid),
        None => None,
    };
    match woken {
        Some(w) => SyscallOutcome { ret: 0, action: Action::Wake(w) },
        None => SyscallOutcome { ret: 0, action: Action::Continue },
    }
}

/// semaphore create syscall: returns the id of a new semaphore with
/// `res_count` units, the first free id of the process.
pub fn sys_semaphore_create(process: &mut ProcessInner, res_count: usize) -> (id: isize)
    requires
        old(process).wf(),
        old(process).semaphore_list@.len() < isize::MAX,
        res_count <= isize::MAX,
    ensures
        final(process).wf(),
        placed(old(process).semaphore_list@, final(process).semaphore_list@, id as int),
        final(process).semaphore_list@[id as int].unwrap()@
            == fresh_semaphore(res_count as int, task_span(old(process).tasks@, old(process).tasks@.len() as int)),
        final(process).mutex_list == old(process).mutex_list,
        final(process).condvar_list == old(process).condvar_list,
        final(process).tasks == old(process).tasks,
        final(process).deadlock_detect == old(process).deadlock_detect,
{
    let mut sem = Semaphore::new(res_count);
    assert(sem@ =~= fresh_semaphore(res_count as int, 0));
    let mut t: usize = 0;
    while t < process.tasks.len()
        invariant
            t <= process.tasks@.len(),
            sem@ == fresh_semaphore(res_count as int, task_span(process.tasks@, t as int)),
            sem@.wf(),
            0 <= task_span(process.tasks@, t as int) <= t,
            forall|k: int| 0 <= k < t && process.tasks@[k] ==> k < task_span(process.tasks@, t as int),
        decreases process.tasks.len() - t,
    {
        if process.tasks[t] {
            sem.set_tid(t);
            proof { lemma_zeroed_slot_of_zeros(task_span(process.tasks@, t as int), t as int); }
        }
        assert(sem@ =~= fresh_semaphore(res_count as int, task_span(process.tasks@, t + 1)));
        t = t + 1;
    }
    let id = first_free(&process.semaphore_list);
    if id < process.semaphore_list.len() {
        process.semaphore_list.set(id, Some(sem));
    } else {
        process.semaphore_list.push(Some(sem));
    }
    id as isize
}

/// semaphore up syscall: thread `tid` gives a unit of semaphore `sem_id`
/// back; the first sleeper, if any, is woken.
pub fn sys_semaphore_up(process: &mut ProcessInner, tid: usize, sem_id: usize) -> (out: SyscallOutcome)
    requires
        old(process).wf(),
        (sem_id as int) < old(process).semaphore_list@.len(),
        old(process).semaphore_list@[sem_id as int] is Some,
        old(process).semaphore_list@[sem_id as int].unwrap()@.can_up(tid),
    ensures
        final(process).wf(),
        ({
            let s = old(process).semaphore_list@[sem_id as int].unwrap()@;
            &&& out == (SyscallOutcome {
                ret: 0,
                action: if s.count < 0 { Action::Wake(s.waiters[0]) } else { Action::Continue },
            })
            &&& semaphore_updated(*old(process), *final(process), sem_id as int, s.after_up(tid))
        }),
{
    let woken = match &mut process.semaphore_list[sem_id] {
        Some(s) => s.up(tid),
        None => None,
    };
    match woken {
        Some(w) => SyscallOutcome { ret: 0, action: Action::Wake(w) },
        None => SyscallOutcome { ret: 0, action: Action::Continue },
    }
}

/// Whether deadlock detection refuses the request of `tid` for semaphore `id`.
pub open spec fn semaphore_down_refused(p: ProcessInner, tid: usize, id: usize) -> bool {
    &&& p.deadlock_detect
    &&& p.semaphore_list@[id as int].unwrap()@.avail == 0
    &&& request_is_unsafe(p.semaphore_list@, p.tasks@, id as int, tid as int)
}

/// semaphore down syscall: thread `tid` takes a unit of semaphore `sem_id`,
/// sleeping when none is left, unless deadlock detection refuses.
pub fn sys_semaphore_down(process: &mut ProcessInner, tid: usize, sem_id: usize) -> (out: SyscallOutcome)
    requires
        old(process).wf(),
        (sem_id as int) < old(process).semaphore_list@.len(),
        old(process).semaphore_list@[sem_id as int] is Some,
        old(process).semaphore_list@[sem_id as int].unwrap()@.can_down(tid),
    ensures
        final(process).wf(),
        semaphore_down_refused(*old(process), tid, sem_id) ==> out == refused() && *final(process) == *old(process),
        !semaphore_down_refused(*old(process), tid, sem_id) ==> {
            let s = old(process).semaphore_list@[sem_id as int].unwrap()@;
            &&& out == (SyscallOutcome { ret: 0, action: if s.count <= 0 { Action::Block } else { Action::Continue } })
            &&& semaphore_updated(*old(process), *final(process), sem_id as int, s.after_down(tid))
        },
{
    let sem_avail = match &process.semaphore_list[sem_id] {
        Some(s) => s.inner.avail,
        None => 1,
    };
    if process.deadlock_detect && sem_avail == 0 {
        let (work, all_allocation, all_need) = detector_input(&process.semaphore_list, &process.tasks, sem_id, tid);
        if !detect_safe(work, &all_allocation, &all_need) {
            return SyscallOutcome { ret: -0xDEAD, action: Action::Continue };
        }
    }
    let blocked = match &mut process.semaphore_list[sem_id] {
        Some(s) => s.down(tid),
        None => false,
    };
    SyscallOutcome { ret: 0, action: if blocked { Action::Block } else { Action::Continue } }
}

/// condvar create syscall: returns the id of a new condition variable, the
/// first free id of the process.
pub fn sys_condvar_create(process: &mut ProcessInner) -> (id: isize)
    requires
        old(process).condvar_list@.len() < isize::MAX,
    ensures
        placed(old(process).condvar_list@, final(process).condvar_list@, id as int),
        final(process).condvar_list@[id as int].unwrap()@ == Seq::<usize>::empty(),
        final(process).mutex_list == old(process).mutex_list,
        final(process).semaphore_list == old(process).semaphore_list,
        final(process).tasks == old(process).tasks,
        final(process).deadlock_detect == old(process).deadlock_detect,
{
    let id = first_free(&process.condvar_list);
    if id < process.condvar_list.len() {
        process.condvar_list.set(id, Some(Condvar::new()));
    } else {
        process.condvar_list.push(Some(Condvar::new()));
    }
    id as isize
}

/// condvar signal syscall: wakes the first thread waiting on condition
/// variable `condvar_id`, if any.
pub fn sys_condvar_signal(process: &mut ProcessInner, condvar_id: usize) -> (out: SyscallOutcome)
    requires
        (condvar_id as int) < old(process).condvar_list@.len(),
        old(process).condvar_list@[condvar_id as int] is Some,
    ensures
        ({
            let q = old(process).condvar_list@[condvar_id as int].unwrap()@;
            &&& out == (SyscallOutcome { ret: 0, action: if q.len() > 0 { Action::Wake(q[0]) } else { Action::Continue } })
            &&& final(process).condvar_list@.len() == old(process).condvar_list@.len()
            &&& final(process).condvar_list@[condvar_id as int] is Some
            &&& final(process).condvar_list@[condvar_id as int].unwrap()@ == (if q.len() > 0 { q.drop_first() } else { q })
            &&& forall|j: int| 0 <= j < old(process).condvar_list@.len() && j != condvar_id as int
                ==> final(process).condvar_list@[j] == old(process).condvar_list@[j]
        }),
        final(process).mutex_list == old(process).mutex_list,
        final(process).semaphore_list == old(process).semaphore_list,
        final(process).tasks == old(process).tasks,
        final(process).deadlock_detect == old(process).deadlock_detect,
{
    let woken = match &mut process.condvar_list[condvar_id] {
        Some(c) => c.signal(),
        None => None,
    };
    match woken {
        Some(w) => SyscallOutcome { ret: 0, action: Action::Wake(w) },
        None => SyscallOutcome { ret: 0, action: Action::Continue },
    }
}

/// condvar wait syscall: thread `tid` releases mutex `mutex_id` and sleeps
/// on condition variable `condvar_id`.
pub fn sys_condvar_wait(process: &mut ProcessInner, tid: usize, condvar_id: usize, mutex_id: usize) -> (out: SyscallOutcome)
    requires
        old(process).wf(),
        (condvar_id as int) < old(process).condvar_list@.len(),
        old(process).condvar_list@[condvar_id as int] is Some,
        (mutex_id as int) < old(process).mutex_list@.len(),
        old(process).mutex_list@[mutex_id as int] is Some,
        old(process).mutex_list@[mutex_id as int].unwrap()@.locked,
    ensures
        final(process).wf(),
        ({
            let m = old(process).mutex_list@[mutex_id as int].unwrap()@;
            let q = old(process).condvar_list@[condvar_id as int].unwrap()@;
            &&& out == (SyscallOutcome {
                ret: 0,
                action: Action::WaitCondvar {
                    woken: if m.waiters.len() > 0 { Some(m.waiters[0]) } else { None },
                    mutex_id: mutex_id,
                },
            })
            &&& final(process).mutex_list@.len() == old(process).mutex_list@.len()
            &&& final(process).mutex_list@[mutex_id as int] is Some
            &&& final(process).mutex_list@[mutex_id as int].unwrap()@ == m.after_unlock()
            &&& forall|j: int| 0 <= j < old(process).mutex_list@.len() && j != mutex_id as int
                ==> final(process).mutex_list@[j] == old(process).mutex_list@[j]
            &&& final(process).condvar_list@.len() == old(process).condvar_list@.len()
            &&& final(process).condvar_list@[condvar_id as int] is Some
            &&& final(process).condvar_list@[condvar_id as int].unwrap()@ == q.push(tid)
            &&& forall|j: int| 0 <= j < old(process).condvar_list@.len() && j != condvar_id as int
                ==> final(process).condvar_list@[j] == old(process).condvar_list@[j]
        }),
        final(process).semaphore_list == old(process).semaphore_list,
        final(process).tasks == old(process).tasks,
        final(process).deadlock_detect == old(process).deadlock_detect,
{
    let woken = match &mut process.condvar_list[condvar_id] {
        Some(c) => match &mut process.mutex_list[mutex_id] {
            Some(m) => c.wait(m, tid),
            None => None,
        },
        None => None,
    };
    SyscallOutcome { ret: 0, action: Action::WaitCondvar { woken, mutex_id } }
}

/// sleep syscall: the calling thread sleeps `ms` milliseconds from `now_ms`,
/// the time the timer reads now.
pub fn sys_sleep(now_ms: usize, ms: usize) -> (out: SyscallOutcome)
    requires
        now_ms + ms <= usize::MAX,
    ensures
        out == (SyscallOutcome { ret: 0, action: Action::SleepUntil((now_ms + ms) as usize) }),
{
    let expire_ms = now_ms + ms;
    SyscallOutcome { ret: 0, action: Action::SleepUntil(expire_ms) }
}

/// enable deadlock detection syscall: from now on, requests that would make
/// the state unsafe are refused. The argument does not matter.
pub fn sys_enable_deadlock_detect(process: &mut ProcessInner, _enabled: usize) -> (r: isize)
    ensures
        r == 0,
        final(process).deadlock_detect,
        final(process).mutex_list == old(process).mutex_list,
        final(process).semaphore_list == old(process).semaphore_list,
        final(process).condvar_list == old(process).condvar_list,
        final(process).tasks == old(process).tasks,
{
    process.deadlock_detect = true;
    0
}

} // verus!
