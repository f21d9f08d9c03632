//! The safety check finds an order in which every thread finishes, and
//! finds one whenever there is one (no thread holding a negative count).
use vstd::prelude::*;
use crate::banker::{accumulate, can_finish, col_sum, covers, entry, finishes_all, first_can_finish, holdings_nonnegative, is_safe, is_safe_order, none_finished, released, runs_in_order};

verus! {

proof fn lemma_col_sum_append(alloc: Seq<Seq<int>>, o1: Seq<int>, o2: Seq<int>, j: int)
    ensures
        col_sum(alloc, o1 + o2, j) == col_sum(alloc, o1, j) + col_sum(alloc, o2, j),
    decreases o2.len(),
{
    if o2.len() == 0 {
        assert(o1 + o2 =~= o1);
    } else {
        assert((o1 + o2).drop_last() =~= o1 + o2.drop_last());
        assert((o1 + o2).last() == o2.last());
        lemma_col_sum_append(alloc, o1, o2.drop_last(), j);
    }
}

proof fn lemma_col_sum_single(alloc: Seq<Seq<int>>, p: int, j: int)
    ensures
        col_sum(alloc, seq![p], j) == entry(alloc[p], j),
{
    assert(seq![p].drop_last() =~= Seq::<int>::empty());
    assert(col_sum(alloc, Seq::<int>::empty(), j) == 0);
    assert(seq![p].last() == p);
}

proof fn lemma_accumulate_empty(work: Seq<int>, alloc: Seq<Seq<int>>, order: Seq<int>)
    requires
        order.len() == 0,
    ensures
        accumulate(work, alloc, order) =~= work,
{
}

/// Finishing `p` first, then the threads of `order`, frees what finishing
/// `p` then `order` from the freed units frees.
proof fn lemma_accumulate_front(work: Seq<int>, alloc: Seq<Seq<int>>, p: int, order: Seq<int>)
    ensures
        accumulate(work, alloc, seq![p] + order) =~= accumulate(released(work, alloc[p]), alloc, order),
{
    assert forall|j: int| 0 <= j < work.len() implies
        #[trigger] accumulate(work, alloc, seq![p] + order)[j] == accumulate(released(work, alloc[p]), alloc, order)[j] by {
        lemma_col_sum_append(alloc, seq![p], order, j);
        lemma_col_sum_single(alloc, p, j);
    }
}

/// Units freed by `p` first stay free however the others finish.
proof fn lemma_accumulate_released(work: Seq<int>, alloc: Seq<Seq<int>>, p: int, order: Seq<int>, j: int)
    requires
        0 <= j < work.len(),
    ensures
        accumulate(released(work, alloc[p]), alloc, order)[j] == accumulate(work, alloc, order)[j] + entry(alloc[p], j),
{
}

proof fn lemma_covers_mono(x: Seq<int>, y: Seq<int>, need: Seq<int>)
    requires
        covers(x, need),
        x.len() == y.len(),
        forall|j: int| 0 <= j < x.len() ==> x[j] <= #[trigger] y[j],
    ensures
        covers(y, need),
{
    assert forall|j: int| 0 <= j < y.len() && j < need.len() implies #[trigger] need[j] <= y[j] by {
        assert(need[j] <= x[j]);
    }
}

proof fn lemma_first_can_finish_found(work: Seq<int>, finish: Seq<bool>, need: Seq<Seq<int>>, k: int)
    requires
        first_can_finish(work, finish, need, k) is Some,
    ensures
        ({
            let p = first_can_finish(work, finish, need, k).unwrap();
            &&& 0 <= k <= p < finish.len()
            &&& can_finish(work, finish, need, p)
        }),
    decreases finish.len() - k,
{
    if 0 <= k < finish.len() && !can_finish(work, finish, need, k) {
        lemma_first_can_finish_found(work, finish, need, k + 1);
    }
}

proof fn lemma_first_can_finish_none_before(work: Seq<int>, finish: Seq<bool>, need: Seq<Seq<int>>, k: int, i: int)
    requires
        0 <= k <= i < finish.len(),
        can_finish(work, finish, need, i),
    ensures
        first_can_finish(work, finish, need, k) is Some,
        first_can_finish(work, finish, need, k).unwrap() <= i,
    decreases i - k,
{
    if !can_finish(work, finish, need, k) {
        lemma_first_can_finish_none_before(work, finish, need, k + 1, i);
    }
}

proof fn lemma_first_can_finish_exists(work: Seq<int>, finish: Seq<bool>, need: Seq<Seq<int>>, k: int, i: int)
    requires
        0 <= k <= i < finish.len(),
        can_finish(work, finish, need, i),
    ensures
        first_can_finish(work, finish, need, k) is Some,
    decreases i - k,
{
    if !can_finish(work, finish, need, k) {
        lemma_first_can_finish_exists(work, finish, need, k + 1, i);
    }
}

/// The threads in the order the check lets them finish.
proof fn greedy_order(work: Seq<int>, finish: Seq<bool>, alloc: Seq<Seq<int>>, need: Seq<Seq<int>>, rounds: nat) -> (order: Seq<int>)
    requires
        finishes_all(work, finish, alloc, need, rounds),
    ensures
        order.len() == rounds,
        order.no_duplicates(),
        forall|k: int| 0 <= k < order.len() ==> 0 <= #[trigger] order[k] < finish.len() && !finish[order[k]],
        runs_in_order(work, alloc, need, order),
        forall|k: int, i: int|
            #![trigger order[k], need[i]]
            0 <= k < order.len() && 0 <= i < order[k] && !finish[i] && !order.take(k).contains(i)
                ==> !covers(accumulate(work, alloc, order.take(k)), need[i]),
    decreases rounds,
{
    if rounds == 0 {
        Seq::empty()
    } else {
        lemma_first_can_finish_found(work, finish, need, 0);
        let p = first_can_finish(work, finish, need, 0).unwrap();
        let w2 = released(work, alloc[p]);
        let f2 = finish.update(p, true);
        let rest = greedy_order(w2, f2, alloc, need, (rounds - 1) as nat);
        let order = seq![p] + rest;
        assert forall|k: int| 0 <= k < order.len() implies 0 <= #[trigger] order[k] < finish.len() && !finish[order[k]] by {
            if k > 0 {
                assert(order[k] == rest[k - 1]);
                assert(rest[k - 1] != p);
            }
        }
        assert forall|a: int, b: int| 0 <= a < b < order.len() implies order[a] != order[b] by {
            if a == 0 {
                assert(order[b] == rest[b - 1]);
                assert(!f2[rest[b - 1]]);
            } else {
                assert(order[a] == rest[a - 1] && order[b] == rest[b - 1]);
            }
        }
        assert forall|k: int| 0 <= k < order.len() implies covers(accumulate(work, alloc, order.take(k)), #[trigger] need[order[k]]) by {
            if k == 0 {
                lemma_accumulate_empty(work, alloc, order.take(0));
            } else {
                assert(order.take(k) =~= seq![p] + rest.take(k - 1));
                lemma_accumulate_front(work, alloc, p, rest.take(k - 1));
                assert(order[k] == rest[k - 1]);
                assert(covers(accumulate(w2, alloc, rest.take(k - 1)), need[rest[k - 1]]));
            }
        }
        assert forall|k: int, i: int|
            #![trigger order[k], need[i]]
            0 <= k < order.len() && 0 <= i < order[k] && !finish[i] && !order.take(k).contains(i)
                implies !covers(accumulate(work, alloc, order.take(k)), need[i]) by {
            if k == 0 {
                lemma_accumulate_empty(work, alloc, order.take(0));
                if covers(work, need[i]) {
                    assert(can_finish(work, finish, need, i));
                    lemma_first_can_finish_none_before(work, finish, need, 0, i);
                }
            } else {
                assert(order.take(k) =~= seq![p] + rest.take(k - 1));
                lemma_accumulate_front(work, alloc, p, rest.take(k - 1));
                assert(order[k] == rest[k - 1]);
                assert(order.take(k)[0] == p);
                assert(i != p);
                assert(!rest.take(k - 1).contains(i)) by {
                    if rest.take(k - 1).contains(i) {
                        let m = choose|m: int| 0 <= m < rest.take(k - 1).len() && #[trigger] rest.take(k - 1)[m] == i;
                        assert(order.take(k)[m + 1] == i);
                    }
                }
                assert(!f2[i]);
                assert(!covers(accumulate(w2, alloc, rest.take(k - 1)), need[i]));
            }
        }
        order
    }
}

/// If the threads can finish in `order`, the check lets every one finish.
proof fn lemma_order_finishes(
    work: Seq<int>,
    finish: Seq<bool>,
    alloc: Seq<Seq<int>>,
    need: Seq<Seq<int>>,
    order: Seq<int>,
    rounds: nat,
)
    requires
        order.len() == rounds,
        order.no_duplicates(),
        forall|k: int| 0 <= k < order.len() ==> 0 <= #[trigger] order[k] < finish.len() && !finish[order[k]],
        runs_in_order(work, alloc, need, order),
        holdings_nonnegative(alloc, finish.len() as int),
    ensures
        finishes_all(work, finish, alloc, need, rounds),
    decreases rounds,
{
    if rounds > 0 {
        let first = order[0];
        lemma_accumulate_empty(work, alloc, order.take(0));
        assert(covers(accumulate(work, alloc, order.take(0)), need[order[0]]));
        assert(can_finish(work, finish, need, first));
        lemma_first_can_finish_exists(work, finish, need, 0, first);
        lemma_first_can_finish_found(work, finish, need, 0);
        let p = first_can_finish(work, finish, need, 0).unwrap();
        let w2 = released(work, alloc[p]);
        let f2 = finish.update(p, true);
        assert forall|j: int| 0 <= j < alloc[p].len() implies #[trigger] alloc[p][j] >= 0 by {}
        let o2 = if order.contains(p) { order.remove(order.index_of(p)) } else { order.drop_last() };
        if order.contains(p) {
            let i = order.index_of(p);
            assert forall|k: int| 0 <= k < o2.len() implies covers(accumulate(w2, alloc, o2.take(k)), #[trigger] need[o2[k]]) by {
                if k < i {
                    assert(o2.take(k) =~= order.take(k));
                    assert(o2[k] == order[k]);
                    assert(covers(accumulate(work, alloc, order.take(k)), need[order[k]]));
                    assert forall|j: int| 0 <= j < work.len() implies
                        accumulate(work, alloc, order.take(k))[j] <= #[trigger] accumulate(w2, alloc, o2.take(k))[j] by {
                        lemma_accumulate_released(work, alloc, p, o2.take(k), j);
                    }
                    lemma_covers_mono(accumulate(work, alloc, order.take(k)), accumulate(w2, alloc, o2.take(k)), need[o2[k]]);
                } else {
                    assert(o2[k] == order[k + 1]);
                    assert(covers(accumulate(work, alloc, order.take(k + 1)), need[order[k + 1]]));
                    let mid = order.subrange(i + 1, k + 1);
                    assert(o2.take(k) =~= order.take(i) + mid);
                    assert(order.take(k + 1) =~= (order.take(i) + seq![p]) + mid);
                    assert forall|j: int| 0 <= j < work.len() implies
                        #[trigger] accumulate(w2, alloc, o2.take(k))[j] == accumulate(work, alloc, order.take(k + 1))[j] by {
                        lemma_accumulate_released(work, alloc, p, o2.take(k), j);
                        lemma_col_sum_append(alloc, order.take(i), mid, j);
                        lemma_col_sum_append(alloc, order.take(i) + seq![p], mid, j);
                        lemma_col_sum_append(alloc, order.take(i), seq![p], j);
                        lemma_col_sum_single(alloc, p, j);
                    }
                    assert(accumulate(w2, alloc, o2.take(k)) =~= accumulate(work, alloc, order.take(k + 1)));
                }
            }
            assert forall|k: int| 0 <= k < o2.len() implies 0 <= #[trigger] o2[k] < f2.len() && !f2[o2[k]] by {
                if k < i {
                    assert(o2[k] == order[k]);
                } else {
                    assert(o2[k] == order[k + 1]);
                }
            }
            assert forall|a: int, b: int| 0 <= a < b < o2.len() implies o2[a] != o2[b] by {
                let a2 = if a < i { a } else { a + 1 };
                let b2 = if b < i { b } else { b + 1 };
                assert(o2[a] == order[a2] && o2[b] == order[b2]);
            }
        } else {
            assert forall|k: int| 0 <= k < o2.len() implies covers(accumulate(w2, alloc, o2.take(k)), #[trigger] need[o2[k]]) by {
                assert(o2.take(k) =~= order.take(k));
                assert(o2[k] == order[k]);
                assert(covers(accumulate(work, alloc, order.take(k)), need[order[k]]));
                assert forall|j: int| 0 <= j < work.len() implies
                    accumulate(work, alloc, order.take(k))[j] <= #[trigger] accumulate(w2, alloc, o2.take(k))[j] by {
                    lemma_accumulate_released(work, alloc, p, o2.take(k), j);
                }
                lemma_covers_mono(accumulate(work, alloc, order.take(k)), accumulate(w2, alloc, o2.take(k)), need[o2[k]]);
            }
            assert forall|k: int| 0 <= k < o2.len() implies 0 <= #[trigger] o2[k] < f2.len() && !f2[o2[k]] by {
                assert(o2[k] == order[k]);
                assert(order.contains(order[k]));
            }
            assert forall|a: int, b: int| 0 <= a < b < o2.len() implies o2[a] != o2[b] by {
                assert(o2[a] == order[a] && o2[b] == order[b]);
            }
        }
        assert(holdings_nonnegative(alloc, f2.len() as int));
        lemma_order_finishes(w2, f2, alloc, need, o2, (rounds - 1) as nat);
    }
}

/// When the check finds the state safe, the first-fit run lets every
/// thread finish: the order it takes is a first-fit order.
pub proof fn lemma_safe_has_first_fit_order(work: Seq<int>, alloc: Seq<Seq<int>>, need: Seq<Seq<int>>)
    requires
        is_safe(work, alloc, need),
    ensures
        exists|order: Seq<int>| is_first_fit_order(work, alloc, need, order),
{
    let order = greedy_order(work, none_finished(alloc.len()), alloc, need, alloc.len());
    assert(is_first_fit_order(work, alloc, need, order));
}

/// The check's answer is the first-fit run's, on every input: the state is
/// safe exactly when some first-fit order lets every thread finish.
pub proof fn lemma_safe_iff_first_fit_order(work: Seq<int>, alloc: Seq<Seq<int>>, need: Seq<Seq<int>>)
    ensures
        is_safe(work, alloc, need) <==> exists|order: Seq<int>| is_first_fit_order(work, alloc, need, order),
{
    if is_safe(work, alloc, need) {
        lemma_safe_has_first_fit_order(work, alloc, need);
    }
    if exists|order: Seq<int>| is_first_fit_order(work, alloc, need, order) {
        let order = choose|order: Seq<int>| is_first_fit_order(work, alloc, need, order);
        lemma_first_fit_order_gives_safe(work, alloc, need, order);
    }
}

/// When the check finds the state safe, the threads can finish, one after
/// another, in some order.
pub proof fn lemma_safe_has_safe_order(work: Seq<int>, alloc: Seq<Seq<int>>, need: Seq<Seq<int>>)
    requires
        is_safe(work, alloc, need),
    ensures
        exists|order: Seq<int>| is_safe_order(work, alloc, need, order),
{
    let order = greedy_order(work, none_finished(alloc.len()), alloc, need, alloc.len());
    assert(is_safe_order(work, alloc, need, order));
}

/// When no thread holds a negative count and some order lets every thread
/// finish, the check finds the state safe: it refuses a request only when
/// no such order exists.
pub proof fn lemma_safe_order_gives_safe(work: Seq<int>, alloc: Seq<Seq<int>>, need: Seq<Seq<int>>, order: Seq<int>)
    requires
        holdings_nonnegative(alloc, alloc.len() as int),
        is_safe_order(work, alloc, need, order),
    ensures
        is_safe(work, alloc, need),
{
    lemma_order_finishes(work, none_finished(alloc.len()), alloc, need, order, alloc.len());
}

/// The threads of `order` marked as finished, among `n` threads.
pub open spec fn marked(n: nat, order: Seq<int>) -> Seq<bool> {
    Seq::new(n, |i: int| order.contains(i))
}

/// `order` is what the first-fit run does: each thread in it is the
/// lowest-numbered thread, not yet finished, whose need fits in the units
/// freed by the threads before it.
pub open spec fn is_first_fit_order(work: Seq<int>, alloc: Seq<Seq<int>>, need: Seq<Seq<int>>, order: Seq<int>) -> bool {
    &&& is_safe_order(work, alloc, need, order)
    &&& forall|k: int, i: int|
        #![trigger order[k], need[i]]
        0 <= k < order.len() && 0 <= i < order[k] && !order.take(k).contains(i)
            ==> !covers(accumulate(work, alloc, order.take(k)), need[i])
}

proof fn lemma_accumulate_push(work: Seq<int>, alloc: Seq<Seq<int>>, order: Seq<int>, p: int)
    ensures
        accumulate(work, alloc, order.push(p)) =~= released(accumulate(work, alloc, order), alloc[p]),
{
    assert(order.push(p).drop_last() =~= order);
    assert forall|j: int| 0 <= j < work.len() implies
        #[trigger] accumulate(work, alloc, order.push(p))[j] == released(accumulate(work, alloc, order), alloc[p])[j] by {
        assert(col_sum(alloc, order.push(p), j) == col_sum(alloc, order, j) + entry(alloc[p], j));
    }
}

proof fn lemma_first_can_finish_is(work: Seq<int>, finish: Seq<bool>, need: Seq<Seq<int>>, k: int, p: int)
    requires
        0 <= k <= p < finish.len(),
        can_finish(work, finish, need, p),
        forall|i: int| k <= i < p ==> !can_finish(work, finish, need, i),
    ensures
        first_can_finish(work, finish, need, k) == Some(p),
    decreases p - k,
{
    if k < p {
        lemma_first_can_finish_is(work, finish, need, k + 1, p);
    }
}

proof fn lemma_first_fit_rounds(work: Seq<int>, alloc: Seq<Seq<int>>, need: Seq<Seq<int>>, order: Seq<int>, k: int)
    requires
        is_first_fit_order(work, alloc, need, order),
        0 <= k <= order.len(),
    ensures
        finishes_all(
            accumulate(work, alloc, order.take(k)),
            marked(alloc.len(), order.take(k)),
            alloc,
            need,
            (order.len() - k) as nat,
        ),
    decreases order.len() - k,
{
    if k < order.len() {
        let n = alloc.len();
        let p = order[k];
        let w = accumulate(work, alloc, order.take(k));
        let f = marked(n, order.take(k));
        assert(!order.take(k).contains(p)) by {
            if order.take(k).contains(p) {
                let i = choose|i: int| 0 <= i < order.take(k).len() && #[trigger] order.take(k)[i] == p;
                assert(order[i] == order[k]);
            }
        }
        assert(covers(w, need[order[k]]));
        assert(can_finish(w, f, need, p));
        assert forall|i: int| 0 <= i < p implies !can_finish(w, f, need, i) by {
            if !order.take(k).contains(i) {
                assert(!covers(accumulate(work, alloc, order.take(k)), need[i]));
            }
        }
        lemma_first_can_finish_is(w, f, need, 0, p);
        assert(order.take(k + 1) =~= order.take(k).push(p));
        lemma_accumulate_push(work, alloc, order.take(k), p);
        assert forall|i: int| 0 <= i < n implies #[trigger] f.update(p, true)[i] == marked(n, order.take(k + 1))[i] by {
            if i == p {
                assert(order.take(k + 1)[k] == p);
            } else if order.take(k).contains(i) {
                let m = choose|m: int| 0 <= m < order.take(k).len() && #[trigger] order.take(k)[m] == i;
                assert(order.take(k + 1)[m] == i);
            } else if order.take(k + 1).contains(i) {
                let m = choose|m: int| 0 <= m < order.take(k + 1).len() && #[trigger] order.take(k + 1)[m] == i;
                assert(m < k ==> order.take(k)[m] == i);
            }
        }
        assert(f.update(p, true) =~= marked(n, order.take(k + 1)));
        lemma_first_fit_rounds(work, alloc, need, order, k + 1);
    }
}

/// Whatever the sign of the holdings, when the first-fit run lets every
/// thread finish (each round the lowest-numbered unfinished thread whose
/// need fits the free units finishes and hands back its whole allocation
/// row), the check finds the state safe.
pub proof fn lemma_first_fit_order_gives_safe(work: Seq<int>, alloc: Seq<Seq<int>>, need: Seq<Seq<int>>, order: Seq<int>)
    requires
        is_first_fit_order(work, alloc, need, order),
    ensures
        is_safe(work, alloc, need),
{
    lemma_first_fit_rounds(work, alloc, need, order, 0);
    lemma_accumulate_empty(work, alloc, order.take(0));
    assert(marked(alloc.len(), order.take(0)) =~= none_finished(alloc.len()));
}

} // verus!
