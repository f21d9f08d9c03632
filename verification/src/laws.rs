//! Properties that span several operations.
use vstd::prelude::*;
use crate::mutex::MutexState;
use crate::semaphore::SemaphoreState;
use crate::banker::{holdings_nonnegative, is_safe, is_safe_order};
use crate::process::{ResourceAccounting, allocation_table, need_table, request_is_unsafe, work_row};
use crate::safety::{lemma_safe_has_safe_order, lemma_safe_order_gives_safe};

verus! {

/// Taking a mutex nobody waits for and releasing it again (by the same
/// thread when the mutex was free, by the holder when it was held and the
/// request queued) leaves the mutex, its waiters and its counters as they were.
pub proof fn lemma_mutex_lock_unlock_round_trip(s: MutexState, tid: usize, releaser: usize)
    requires
        s.wf(),
        s.avail <= isize::MAX,
        s.waiters.len() == 0,
        s.can_lock_tid(tid),
        s.locked || releaser == tid,
    ensures
        s.after_lock_tid(tid).can_unlock_tid(releaser),
        s.after_lock_tid(tid).after_unlock_tid(releaser) == s,
{
    let t = tid as int;
    if s.locked {
        assert(s.after_lock_tid(tid).waiters =~= seq![tid]);
        assert(s.after_lock_tid(tid).after_unlock_tid(releaser).waiters =~= s.waiters);
        assert(s.after_lock_tid(tid).after_unlock_tid(releaser).need =~= s.need);
    } else {
        assert(s.after_lock_tid(tid).after_unlock_tid(releaser).allocation =~= s.allocation);
    }
}

/// Taking a unit of a semaphore nobody sleeps on and giving it back (by the
/// same thread when a unit was left, by any thread otherwise) leaves the
/// semaphore as it was.
pub proof fn lemma_semaphore_down_up_round_trip(s: SemaphoreState, tid: usize, giver: usize)
    requires
        s.wf(),
        0 <= s.count <= isize::MAX,
        s.can_down(tid),
        s.count == 0 || giver == tid,
    ensures
        s.after_down(tid).wf(),
        s.after_down(tid).can_up(giver),
        s.after_down(tid).after_up(giver) == s,
{
    if s.count == 0 {
        assert(s.after_down(tid).waiters =~= seq![tid]);
        assert(s.after_down(tid).after_up(giver).waiters =~= s.waiters);
        assert(s.after_down(tid).after_up(giver).need =~= s.need);
    } else {
        assert(s.after_down(tid).after_up(giver).allocation =~= s.allocation);
    }
}

/// Units are never lost: every state a semaphore reaches by `down` and `up`
/// keeps its free units and its sleepers in step with its count.
pub proof fn lemma_semaphore_steps_keep_wf(s: SemaphoreState, tid: usize)
    requires
        s.wf(),
    ensures
        s.can_down(tid) ==> s.after_down(tid).wf(),
        s.can_up(tid) ==> s.after_up(tid).wf(),
{
    if s.can_down(tid) && s.count <= 0 {
        assert forall|i: int| 0 <= i < s.after_down(tid).waiters.len() implies
            (#[trigger] s.after_down(tid).waiters[i] as int) < s.after_down(tid).need.len() by {
            if i < s.waiters.len() {
                assert(s.after_down(tid).waiters[i] == s.waiters[i]);
            }
        }
    }
    if s.can_up(tid) && s.count < 0 {
        assert forall|i: int| 0 <= i < s.after_up(tid).waiters.len() implies
            (#[trigger] s.after_up(tid).waiters[i] as int) < s.after_up(tid).need.len() by {
            assert(s.after_up(tid).waiters[i] == s.waiters[i + 1]);
        }
    }
}

/// The detector refuses a request exactly when no order lets every live
/// thread finish, the request counted as needed, provided no live thread
/// holds a negative count of the resources.
pub proof fn lemma_refused_iff_no_safe_order<T: ResourceAccounting>(
    list: Seq<Option<T>>,
    tasks: Seq<bool>,
    target: int,
    tid: int,
)
    requires
        holdings_nonnegative(
            allocation_table(list, tasks, tasks.len() as int),
            allocation_table(list, tasks, tasks.len() as int).len() as int,
        ),
    ensures
        request_is_unsafe(list, tasks, target, tid) <==> !(exists|order: Seq<int>|
            is_safe_order(
                work_row(list, list.len() as int),
                allocation_table(list, tasks, tasks.len() as int),
                need_table(list, tasks, tasks.len() as int, target, tid),
                order,
            )),
{
    let work = work_row(list, list.len() as int);
    let alloc = allocation_table(list, tasks, tasks.len() as int);
    let need = need_table(list, tasks, tasks.len() as int, target, tid);
    if is_safe(work, alloc, need) {
        lemma_safe_has_safe_order(work, alloc, need);
    }
    if exists|order: Seq<int>| is_safe_order(work, alloc, need, order) {
        let order = choose|order: Seq<int>| is_safe_order(work, alloc, need, order);
        lemma_safe_order_gives_safe(work, alloc, need, order);
    }
}

/// The sum of a table of counters.
pub open spec fn total(s: Seq<isize>) -> int
    decreases s.len(),
{
    if s.len() == 0 {
        0
    } else {
        total(s.drop_last()) + s.last()
    }
}

/// Changing one counter changes the sum by the difference.
pub proof fn lemma_total_update(s: Seq<isize>, i: int, v: isize)
    requires
        0 <= i < s.len(),
    ensures
        total(s.update(i, v)) == total(s) - s[i] + v,
    decreases s.len(),
{
    if i == s.len() - 1 {
        assert(s.update(i, v).drop_last() =~= s.drop_last());
    } else {
        assert(s.update(i, v).drop_last() =~= s.drop_last().update(i, v));
        lemma_total_update(s.drop_last(), i, v);
    }
}

/// The books of a mutex balance: nobody waits while it is free, its free
/// unit and the units counted as held make one, and the units counted as
/// needed are as many as its waiters.
pub open spec fn mutex_books_balance(s: MutexState) -> bool {
    &&& s.wf()
    &&& s.avail_matches_lock()
    &&& s.avail + total(s.allocation) == 1
    &&& total(s.need) == s.waiters.len()
}

/// Taking a mutex with bookkeeping keeps its books balanced.
pub proof fn lemma_mutex_lock_tid_keeps_books(s: MutexState, tid: usize)
    requires
        mutex_books_balance(s),
        s.can_lock_tid(tid),
    ensures
        mutex_books_balance(s.after_lock_tid(tid)),
{
    let t = tid as int;
    let n = s.after_lock_tid(tid);
    if s.locked {
        lemma_total_update(s.need, t, (s.need[t] + 1) as isize);
        assert forall|i: int| 0 <= i < n.waiters.len() implies (#[trigger] n.waiters[i] as int) < n.need.len() by {
            if i < s.waiters.len() {
                assert(n.waiters[i] == s.waiters[i]);
            }
        }
    } else {
        lemma_total_update(s.allocation, t, (s.allocation[t] + 1) as isize);
    }
}

/// Releasing a mutex with bookkeeping keeps its books balanced.
pub proof fn lemma_mutex_unlock_tid_keeps_books(s: MutexState, tid: usize)
    requires
        mutex_books_balance(s),
        s.can_unlock_tid(tid),
    ensures
        mutex_books_balance(s.after_unlock_tid(tid)),
{
    let n = s.after_unlock_tid(tid);
    if s.waiters.len() > 0 {
        let w = s.waiters[0] as int;
        assert(w < s.need.len());
        lemma_total_update(s.need, w, (s.need[w] - 1) as isize);
        assert forall|i: int| 0 <= i < n.waiters.len() implies (#[trigger] n.waiters[i] as int) < n.need.len() by {
            assert(n.waiters[i] == s.waiters[i + 1]);
        }
    } else {
        let t = tid as int;
        lemma_total_update(s.allocation, t, (s.allocation[t] - 1) as isize);
    }
}

/// The books of a semaphore balance: it is well formed (sleepers match the
/// deficit, free units the positive count) and the units counted as needed
/// are as many as its sleepers.
pub open spec fn semaphore_books_balance(s: SemaphoreState) -> bool {
    &&& s.wf()
    &&& total(s.need) == s.waiters.len()
}

/// Taking a unit keeps the books balanced, and the free units plus the
/// units counted as held stay the same.
pub proof fn lemma_semaphore_down_keeps_books(s: SemaphoreState, tid: usize)
    requires
        semaphore_books_balance(s),
        s.can_down(tid),
    ensures
        semaphore_books_balance(s.after_down(tid)),
        s.after_down(tid).avail + total(s.after_down(tid).allocation) == s.avail + total(s.allocation),
{
    let t = tid as int;
    lemma_semaphore_steps_keep_wf(s, tid);
    if s.count > 0 {
        lemma_total_update(s.allocation, t, (s.allocation[t] + 1) as isize);
    } else {
        lemma_total_update(s.need, t, (s.need[t] + 1) as isize);
    }
}

/// Giving a unit back keeps the books balanced, and the free units plus
/// the units counted as held stay the same.
pub proof fn lemma_semaphore_up_keeps_books(s: SemaphoreState, tid: usize)
    requires
        semaphore_books_balance(s),
        s.can_up(tid),
    ensures
        semaphore_books_balance(s.after_up(tid)),
        s.after_up(tid).avail + total(s.after_up(tid).allocation) == s.avail + total(s.allocation),
{
    lemma_semaphore_steps_keep_wf(s, tid);
    if s.count < 0 {
        let w = s.waiters[0] as int;
        assert(w < s.need.len());
        lemma_total_update(s.need, w, (s.need[w] - 1) as isize);
    } else {
        let t = tid as int;
        lemma_total_update(s.allocation, t, (s.allocation[t] - 1) as isize);
    }
}

/// A request on a held mutex queues the caller behind every earlier
/// waiter; a request on a free mutex queues nobody.
pub proof fn lemma_mutex_lock_tid_queues_at_end(s: MutexState, tid: usize)
    ensures
        s.locked ==> s.after_lock_tid(tid).waiters == s.waiters.push(tid),
        !s.locked ==> s.after_lock_tid(tid).waiters == s.waiters,
        s.after_lock_tid(tid).locked,
{
}

/// A release with waiters wakes the first waiter, who inherits the mutex,
/// and keeps every other waiter queued in order; without waiters it frees
/// the mutex.
pub proof fn lemma_mutex_unlock_tid_wakes_first(s: MutexState, tid: usize)
    requires
        s.wf(),
    ensures
        s.waiters.len() > 0 ==> {
            &&& s.after_unlock_tid(tid).waiters == s.waiters.subrange(1, s.waiters.len() as int)
            &&& s.after_unlock_tid(tid).waiters.len() == s.waiters.len() - 1
            &&& forall|i: int| 0 <= i < s.waiters.len() - 1 ==> #[trigger] s.after_unlock_tid(tid).waiters[i] == s.waiters[i + 1]
            &&& s.after_unlock_tid(tid).locked
        },
        s.waiters.len() == 0 ==> s.after_unlock_tid(tid).waiters.len() == 0 && !s.after_unlock_tid(tid).locked,
{
    assert(s.waiters.drop_first() =~= s.waiters.subrange(1, s.waiters.len() as int));
}

/// The same for the mutex without bookkeeping.
pub proof fn lemma_mutex_lock_unlock_fifo(s: MutexState, tid: usize)
    requires
        s.wf(),
    ensures
        s.locked ==> s.after_lock(tid).waiters == s.waiters.push(tid),
        !s.locked ==> s.after_lock(tid).waiters == s.waiters && s.after_lock(tid).locked,
        s.waiters.len() > 0 ==> s.after_unlock().waiters == s.waiters.subrange(1, s.waiters.len() as int)
            && s.after_unlock().locked,
        s.waiters.len() == 0 ==> !s.after_unlock().locked,
{
    assert(s.waiters.drop_first() =~= s.waiters.subrange(1, s.waiters.len() as int));
}

/// A `down` that must sleep queues the caller behind every earlier
/// sleeper; one that gets a unit queues nobody.
pub proof fn lemma_semaphore_down_queues_at_end(s: SemaphoreState, tid: usize)
    ensures
        s.count <= 0 ==> s.after_down(tid).waiters == s.waiters.push(tid),
        s.count > 0 ==> s.after_down(tid).waiters == s.waiters,
        s.after_down(tid).count == s.count - 1,
{
}

/// An `up` with sleepers wakes the first one and keeps every other sleeper
/// queued in order; without sleepers the queue stays empty.
pub proof fn lemma_semaphore_up_wakes_first(s: SemaphoreState, tid: usize)
    ensures
        s.count < 0 ==> {
            &&& s.after_up(tid).waiters == s.waiters.subrange(1, s.waiters.len() as int)
            &&& forall|i: int| 0 <= i < s.waiters.len() - 1 ==> #[trigger] s.after_up(tid).waiters[i] == s.waiters[i + 1]
        },
        s.count >= 0 ==> s.after_up(tid).waiters == s.waiters,
        s.after_up(tid).count == s.count + 1,
{
}

/// Sleepers are woken in the order they went to sleep: after two sleeping
/// `down`s by `a` then `b` on a semaphore nobody sleeps on, the next two
/// `up`s wake `a` first, then `b`.
pub proof fn lemma_semaphore_wakes_in_order(s: SemaphoreState, a: usize, b: usize, u1: usize, u2: usize)
    requires
        s.count == 0,
        s.waiters.len() == 0,
    ensures
        ({
            let s2 = s.after_down(a).after_down(b);
            &&& s2.waiters == seq![a, b]
            &&& s2.after_up(u1).waiters == seq![b]
            &&& s2.after_up(u1).after_up(u2).waiters.len() == 0
        }),
{
    let s2 = s.after_down(a).after_down(b);
    assert(s2.waiters =~= seq![a, b]);
    assert(s2.after_up(u1).waiters =~= seq![b]);
}

/// Waiters of a mutex inherit it in the order they asked: with `a` then
/// `b` queued behind the holder, the next release hands it to `a`, the one
/// after to `b`.
pub proof fn lemma_mutex_hands_over_in_order(s: MutexState, a: usize, b: usize, r1: usize, r2: usize)
    requires
        s.locked,
        s.waiters.len() == 0,
    ensures
        ({
            let s2 = s.after_lock_tid(a).after_lock_tid(b);
            &&& s2.waiters == seq![a, b]
            &&& s2.after_unlock_tid(r1).waiters == seq![b]
            &&& s2.after_unlock_tid(r1).locked
            &&& s2.after_unlock_tid(r1).after_unlock_tid(r2).waiters.len() == 0
            &&& s2.after_unlock_tid(r1).after_unlock_tid(r2).locked
        }),
{
    let s2 = s.after_lock_tid(a).after_lock_tid(b);
    assert(s2.waiters =~= seq![a, b]);
    assert(s2.after_unlock_tid(r1).waiters =~= seq![b]);
}

} // verus!
