//! The synchronisation state of a process, and the inputs that the deadlock
//! detector reads from it.
use vstd::prelude::*;
use crate::mutex::MutexBlocking;
use crate::semaphore::Semaphore;
use crate::condvar::Condvar;
use crate::banker::{ints, int_rows};

verus! {

/// The synchronisation objects and threads of one process.
pub struct ProcessInner {
    /// Mutexes by id; `None` marks a free id.
    pub mutex_list: Vec<Option<MutexBlocking>>,
    /// Semaphores by id; `None` marks a free id.
    pub semaphore_list: Vec<Option<Semaphore>>,
    /// Condition variables by id; `None` marks a free id.
    pub condvar_list: Vec<Option<Condvar>>,
    /// Threads by tid: `true` where a thread with that tid is alive.
    pub tasks: Vec<bool>,
    /// Whether a request that would make the state unsafe is refused.
    pub deadlock_detect: bool,
}

/// The counters of one resource that the deadlock detector reads.
pub struct ResourceCounts {
    pub avail: int,
    pub allocation: Seq<isize>,
    pub need: Seq<isize>,
}

/// A resource that keeps counters for the deadlock detector.
pub trait ResourceAccounting {
    spec fn counts(&self) -> ResourceCounts;

    /// Units free.
    fn avail(&self) -> (r: isize)
        ensures
            r as int == self.counts().avail,
    ;

    /// Units that thread `tid` holds.
    fn allocation_at(&self, tid: usize) -> (r: isize)
        requires
            (tid as int) < self.counts().allocation.len(),
        ensures
            r == self.counts().allocation[tid as int],
    ;

    /// Units that thread `tid` waits for.
    fn need_at(&self, tid: usize) -> (r: isize)
        requires
            (tid as int) < self.counts().need.len(),
        ensures
            r == self.counts().need[tid as int],
    ;
}

impl ResourceAccounting for MutexBlocking {
    open spec fn counts(&self) -> ResourceCounts {
        ResourceCounts { avail: self@.avail, allocation: self@.allocation, need: self@.need }
    }

    fn avail(&self) -> (r: isize) {
        self.inner.avail
    }

    fn allocation_at(&self, tid: usize) -> (r: isize) {
        self.inner.allocation[tid]
    }

    fn need_at(&self, tid: usize) -> (r: isize) {
        self.inner.need[tid]
    }
}

impl ResourceAccounting for Semaphore {
    open spec fn counts(&self) -> ResourceCounts {
        ResourceCounts { avail: self@.avail, allocation: self@.allocation, need: self@.need }
    }

    fn avail(&self) -> (r: isize) {
        self.inner.avail
    }

    fn allocation_at(&self, tid: usize) -> (r: isize) {
        self.inner.allocation[tid]
    }

    fn need_at(&self, tid: usize) -> (r: isize) {
        self.inner.need[tid]
    }
}

/// Ids below `k` in use, in increasing order.
pub open spec fn present_ids<T>(list: Seq<Option<T>>, k: int) -> Seq<int>
    decreases k,
{
    if k <= 0 {
        Seq::empty()
    } else if list[k - 1] is Some {
        present_ids(list, k - 1).push(k - 1)
    } else {
        present_ids(list, k - 1)
    }
}

/// Tids below `k` of live threads, in increasing order.
pub open spec fn live_tids(tasks: Seq<bool>, k: int) -> Seq<int>
    decreases k,
{
    if k <= 0 {
        Seq::empty()
    } else if tasks[k - 1] {
        live_tids(tasks, k - 1).push(k - 1)
    } else {
        live_tids(tasks, k - 1)
    }
}

/// One past the largest live tid below `k` (zero when there is none).
pub open spec fn task_span(tasks: Seq<bool>, k: int) -> int
    decreases k,
{
    if k <= 0 {
        0
    } else if tasks[k - 1] {
        k
    } else {
        task_span(tasks, k - 1)
    }
}

/// Every live thread has slots in the tables of every resource in `list`.
pub open spec fn slots_cover<T: ResourceAccounting>(list: Seq<Option<T>>, tasks: Seq<bool>) -> bool {
    forall|id: int, t: int|
        #![trigger list[id], tasks[t]]
        0 <= id < list.len() && list[id] is Some && 0 <= t < tasks.len() && tasks[t]
            ==> t < list[id].unwrap().counts().allocation.len() && t < list[id].unwrap().counts().need.len()
}

/// Free units of the resources with id below `k`, one entry per resource in use.
pub open spec fn work_row<T: ResourceAccounting>(list: Seq<Option<T>>, k: int) -> Seq<int> {
    present_ids(list, k).map_values(|id: int| list[id].unwrap().counts().avail)
}

/// What thread `t` holds of the resources with id below `k`.
pub open spec fn allocation_row<T: ResourceAccounting>(list: Seq<Option<T>>, k: int, t: int) -> Seq<int> {
    present_ids(list, k).map_values(|id: int| list[id].unwrap().counts().allocation[t] as int)
}

/// What thread `t` waits for of the resources with id below `k`, counting
/// the pending request of `tid` for resource `target`.
pub open spec fn need_row<T: ResourceAccounting>(list: Seq<Option<T>>, k: int, t: int, target: int, tid: int) -> Seq<int> {
    present_ids(list, k).map_values(
        |id: int| list[id].unwrap().counts().need[t] as int + (if id == target && t == tid { 1int } else { 0int }),
    )
}

/// What each live thread with tid below `k` holds.
pub open spec fn allocation_table<T: ResourceAccounting>(list: Seq<Option<T>>, tasks: Seq<bool>, k: int) -> Seq<Seq<int>> {
    live_tids(tasks, k).map_values(|t: int| allocation_row(list, list.len() as int, t))
}

/// What each live thread with tid below `k` waits for, counting the pending request.
pub open spec fn need_table<T: ResourceAccounting>(
    list: Seq<Option<T>>,
    tasks: Seq<bool>,
    k: int,
    target: int,
    tid: int,
) -> Seq<Seq<int>> {
    live_tids(tasks, k).map_values(|t: int| need_row(list, list.len() as int, t, target, tid))
}

/// Granting the pending request of `tid` for resource `target` could
/// deadlock: with it counted as needed, the state is not safe.
pub open spec fn request_is_unsafe<T: ResourceAccounting>(list: Seq<Option<T>>, tasks: Seq<bool>, target: int, tid: int) -> bool {
    !crate::banker::is_safe(
        work_row(list, list.len() as int),
        allocation_table(list, tasks, tasks.len() as int),
        need_table(list, tasks, tasks.len() as int, target, tid),
    )
}

impl ProcessInner {
    /// Every mutex and semaphore is well formed and has table slots for
    /// every live thread.
    pub open spec fn wf(self) -> bool {
        &&& forall|i: int| 0 <= i < self.mutex_list@.len() && #[trigger] self.mutex_list@[i] is Some
            ==> self.mutex_list@[i].unwrap()@.wf()
        &&& forall|i: int| 0 <= i < self.semaphore_list@.len() && #[trigger] self.semaphore_list@[i] is Some
            ==> self.semaphore_list@[i].unwrap()@.wf()
        &&& slots_cover(self.mutex_list@, self.tasks@)
        &&& slots_cover(self.semaphore_list@, self.tasks@)
    }
}

/// The three inputs of the safety check for the pending request of `tid`
/// for resource `target`: free units, what each live thread holds, and
/// what each live thread waits for.
pub fn detector_input<T: ResourceAccounting>(
    list: &Vec<Option<T>>,
    tasks: &Vec<bool>,
    target: usize,
    tid: usize,
) -> (r: (Vec<isize>, Vec<Vec<isize>>, Vec<Vec<isize>>))
    requires
        slots_cover(list@, tasks@),
        (target as int) < list@.len() && (tid as int) < tasks@.len() && list@[target as int] is Some && tasks@[tid as int]
            ==> list@[target as int].unwrap().counts().need[tid as int] < isize::MAX,
    ensures
        ints(r.0@) == work_row(list@, list@.len() as int),
        int_rows(r.1@) == allocation_table(list@, tasks@, tasks@.len() as int),
        int_rows(r.2@) == need_table(list@, tasks@, tasks@.len() as int, target as int, tid as int),
        r.1@.len() == r.2@.len(),
{
    let mut work: Vec<isize> = Vec::new();
    let mut id: usize = 0;
    while id < list.len()
        invariant
            id <= list@.len(),
            ints(work@) == work_row(list@, id as int),
        decreases list.len() - id,
    {
        let ghost prev = work@;
        match &list[id] {
            Some(res) => {
                work.push(res.avail());
                assert(ints(work@) =~= ints(prev).push(list@[id as int].unwrap().counts().avail));
            },
            None => {},
        }
        assert(work_row(list@, id + 1) =~= ints(work@));
        id = id + 1;
    }

    let mut all_allocation: Vec<Vec<isize>> = Vec::new();
    let mut all_need: Vec<Vec<isize>> = Vec::new();
    let mut t: usize = 0;
    while t < tasks.len()
        invariant
            t <= tasks@.len(),
            slots_cover(list@, tasks@),
            (target as int) < list@.len() && (tid as int) < tasks@.len() && list@[target as int] is Some && tasks@[tid as int]
                ==> list@[target as int].unwrap().counts().need[tid as int] < isize::MAX,
            int_rows(all_allocation@) == allocation_table(list@, tasks@, t as int),
            int_rows(all_need@) == need_table(list@, tasks@, t as int, target as int, tid as int),
            all_allocation@.len() == all_need@.len(),
        decreases tasks.len() - t,
    {
        if tasks[t] {
            let mut row_alloc: Vec<isize> = Vec::new();
            let mut row_need: Vec<isize> = Vec::new();
            let mut id: usize = 0;
            while id < list.len()
                invariant
                    id <= list@.len(),
                    (t as int) < tasks@.len(),
                    tasks@[t as int],
                    slots_cover(list@, tasks@),
                    (target as int) < list@.len() && (tid as int) < tasks@.len() && list@[target as int] is Some && tasks@[tid as int]
                        ==> list@[target as int].unwrap().counts().need[tid as int] < isize::MAX,
                    ints(row_alloc@) == allocation_row(list@, id as int, t as int),
                    ints(row_need@) == need_row(list@, id as int, t as int, target as int, tid as int),
                decreases list.len() - id,
            {
                let ghost prev_a = row_alloc@;
                let ghost prev_n = row_need@;
                match &list[id] {
                    Some(res) => {
                        assert(list@[id as int] is Some && tasks@[t as int]);
                        let a = res.allocation_at(t);
                        let n = res.need_at(t);
                        row_alloc.push(a);
                        if id == target && t == tid {
                            row_need.push(n + 1);
                        } else {
                            row_need.push(n);
                        }
                        assert(ints(row_alloc@) =~= ints(prev_a).push(a as int));
                        assert(ints(row_need@) =~= ints(prev_n).push(
                            n as int + (if id == target && t == tid { 1int } else { 0int }),
                        ));
                    },
                    None => {},
                }
                assert(allocation_row(list@, id + 1, t as int) =~= ints(row_alloc@));
                assert(need_row(list@, id + 1, t as int, target as int, tid as int) =~= ints(row_need@));
                id = id + 1;
            }
            let ghost prev_a = all_allocation@;
            let ghost prev_n = all_need@;
            all_allocation.push(row_alloc);
            all_need.push(row_need);
            assert(int_rows(all_allocation@) =~= int_rows(prev_a).push(ints(row_alloc@)));
            assert(int_rows(all_need@) =~= int_rows(prev_n).push(ints(row_need@)));
        }
        assert(allocation_table(list@, tasks@, t + 1) =~= int_rows(all_allocation@));
        assert(need_table(list@, tasks@, t + 1, target as int, tid as int) =~= int_rows(all_need@));
        t = t + 1;
    }
    (work, all_allocation, all_need)
}

/// `present_ids` lists, in increasing order, exactly the ids below `k` in use.
pub proof fn lemma_present_ids<T>(list: Seq<Option<T>>, k: int)
    requires
        0 <= k <= list.len(),
    ensures
        forall|j: int| 0 <= j < present_ids(list, k).len()
            ==> 0 <= #[trigger] present_ids(list, k)[j] < k && list[present_ids(list, k)[j]] is Some,
        forall|a: int, b: int| 0 <= a < b < present_ids(list, k).len()
            ==> #[trigger] present_ids(list, k)[a] < #[trigger] present_ids(list, k)[b],
        forall|id: int| 0 <= id < k && #[trigger] list[id] is Some ==> present_ids(list, k).contains(id),
    decreases k,
{
    if k > 0 {
        lemma_present_ids(list, k - 1);
        let prev = present_ids(list, k - 1);
        if list[k - 1] is Some {
            assert(present_ids(list, k) == prev.push(k - 1));
            assert forall|id: int| 0 <= id < k && #[trigger] list[id] is Some implies present_ids(list, k).contains(id) by {
                if id == k - 1 {
                    assert(present_ids(list, k)[prev.len() as int] == id);
                } else {
                    assert(prev.contains(id));
                    let m = choose|m: int| 0 <= m < prev.len() && #[trigger] prev[m] == id;
                    assert(present_ids(list, k)[m] == id);
                }
            }
        }
    }
}

/// `live_tids` lists, in increasing order, exactly the live tids below `k`.
pub proof fn lemma_live_tids(tasks: Seq<bool>, k: int)
    requires
        0 <= k <= tasks.len(),
    ensures
        forall|j: int| 0 <= j < live_tids(tasks, k).len()
            ==> 0 <= #[trigger] live_tids(tasks, k)[j] < k && tasks[live_tids(tasks, k)[j]],
        forall|a: int, b: int| 0 <= a < b < live_tids(tasks, k).len()
            ==> #[trigger] live_tids(tasks, k)[a] < #[trigger] live_tids(tasks, k)[b],
        forall|t: int| 0 <= t < k && #[trigger] tasks[t] ==> live_tids(tasks, k).contains(t),
    decreases k,
{
    if k > 0 {
        lemma_live_tids(tasks, k - 1);
        let prev = live_tids(tasks, k - 1);
        if tasks[k - 1] {
            assert(live_tids(tasks, k) == prev.push(k - 1));
            assert forall|t: int| 0 <= t < k && #[trigger] tasks[t] implies live_tids(tasks, k).contains(t) by {
                if t == k - 1 {
                    assert(live_tids(tasks, k)[prev.len() as int] == t);
                } else {
                    assert(prev.contains(t));
                    let m = choose|m: int| 0 <= m < prev.len() && #[trigger] prev[m] == t;
                    assert(live_tids(tasks, k)[m] == t);
                }
            }
        }
    }
}

/// The inputs of the safety check line up: column `j` of the free units,
/// of every holding row and of every need row is the same resource, the
/// `j`-th in use in increasing id order; row `r` of the holdings and of the
/// needs is the same thread, the `r`-th live one in increasing tid order;
/// and only the requester's entry for the requested resource counts the
/// request.
pub proof fn lemma_detector_columns_agree<T: ResourceAccounting>(
    list: Seq<Option<T>>,
    tasks: Seq<bool>,
    target: int,
    tid: int,
)
    ensures
        ({
            let ids = present_ids(list, list.len() as int);
            let live = live_tids(tasks, tasks.len() as int);
            let work = work_row(list, list.len() as int);
            let alloc = allocation_table(list, tasks, tasks.len() as int);
            let need = need_table(list, tasks, tasks.len() as int, target, tid);
            &&& forall|j: int| 0 <= j < ids.len() ==> 0 <= #[trigger] ids[j] < list.len()
            &&& forall|a: int, b: int| 0 <= a < b < ids.len() ==> #[trigger] ids[a] < #[trigger] ids[b]
            &&& forall|id: int| 0 <= id < list.len() ==> (#[trigger] list[id] is Some <==> ids.contains(id))
            &&& forall|r: int| 0 <= r < live.len() ==> 0 <= #[trigger] live[r] < tasks.len()
            &&& forall|a: int, b: int| 0 <= a < b < live.len() ==> #[trigger] live[a] < #[trigger] live[b]
            &&& forall|t: int| 0 <= t < tasks.len() ==> (#[trigger] tasks[t] <==> live.contains(t))
            &&& work.len() == ids.len()
            &&& forall|j: int| 0 <= j < ids.len() ==> #[trigger] work[j] == list[ids[j]].unwrap().counts().avail
            &&& alloc.len() == live.len()
            &&& need.len() == live.len()
            &&& forall|r: int| 0 <= r < live.len() ==> (#[trigger] alloc[r]).len() == ids.len() && need[r].len() == ids.len()
            &&& forall|r: int, j: int| 0 <= r < live.len() && 0 <= j < ids.len()
                ==> #[trigger] alloc[r][j] == list[ids[j]].unwrap().counts().allocation[live[r]] as int
            &&& forall|r: int, j: int| 0 <= r < live.len() && 0 <= j < ids.len() ==> {
                &&& #[trigger] need[r][j] == list[ids[j]].unwrap().counts().need[live[r]] as int
                    + (if ids[j] == target && live[r] == tid { 1int } else { 0int })
            }
        }),
{
    let ids = present_ids(list, list.len() as int);
    let live = live_tids(tasks, tasks.len() as int);
    lemma_present_ids(list, list.len() as int);
    lemma_live_tids(tasks, tasks.len() as int);
    assert forall|id: int| 0 <= id < list.len() implies (#[trigger] list[id] is Some <==> ids.contains(id)) by {
        if ids.contains(id) {
            let m = choose|m: int| 0 <= m < ids.len() && #[trigger] ids[m] == id;
        }
    }
    assert forall|t: int| 0 <= t < tasks.len() implies (#[trigger] tasks[t] <==> live.contains(t)) by {
        if live.contains(t) {
            let m = choose|m: int| 0 <= m < live.len() && #[trigger] live[m] == t;
        }
    }
}

} // verus!
