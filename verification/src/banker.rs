//! The deadlock detector's safety check (banker's algorithm): can every
//! thread run to its end, one after another, with the units that are free
//! now plus those that finished threads hand back?
use vstd::prelude::*;

verus! {

/// A row of counters read as integers.
pub open spec fn ints(s: Seq<isize>) -> Seq<int> {
    s.map_values(|x: isize| x as int)
}

/// A table of counters (one row per thread) read as integers.
pub open spec fn int_rows(m: Seq<Vec<isize>>) -> Seq<Seq<int>> {
    m.map_values(|r: Vec<isize>| ints(r@))
}

/// A row of wide counters read as integers.
pub open spec fn wide_ints(s: Seq<i128>) -> Seq<int> {
    s.map_values(|x: i128| x as int)
}

/// What a thread still needs fits in what is free, resource by resource,
/// over the resources that both rows list.
pub open spec fn covers(work: Seq<int>, need: Seq<int>) -> bool {
    forall|j: int| 0 <= j < work.len() && j < need.len() ==> #[trigger] need[j] <= work[j]
}

/// The free units after a finished thread handed back what it holds
/// (over the resources that both rows list).
pub open spec fn released(work: Seq<int>, alloc: Seq<int>) -> Seq<int> {
    Seq::new(work.len(), |j: int| if j < alloc.len() { work[j] + alloc[j] } else { work[j] })
}

/// Thread `i` has not finished yet and can finish with the free units.
pub open spec fn can_finish(work: Seq<int>, finish: Seq<bool>, need: Seq<Seq<int>>, i: int) -> bool {
    !finish[i] && covers(work, need[i])
}

/// The first thread, from `i` on, that can finish.
pub open spec fn first_can_finish(work: Seq<int>, finish: Seq<bool>, need: Seq<Seq<int>>, i: int) -> Option<int>
    decreases finish.len() - i,
{
    if i < 0 || i >= finish.len() {
        None
    } else if can_finish(work, finish, need, i) {
        Some(i)
    } else {
        first_can_finish(work, finish, need, i + 1)
    }
}

/// Whether `rounds` more threads finish when, each round, the first thread
/// that can finish does so and hands back what it holds.
pub open spec fn finishes_all(
    work: Seq<int>,
    finish: Seq<bool>,
    alloc: Seq<Seq<int>>,
    need: Seq<Seq<int>>,
    rounds: nat,
) -> bool
    decreases rounds,
{
    if rounds == 0 {
        true
    } else {
        match first_can_finish(work, finish, need, 0) {
            None => false,
            Some(p) => finishes_all(released(work, alloc[p]), finish.update(p, true), alloc, need, (rounds - 1) as nat),
        }
    }
}

/// No thread has finished yet.
pub open spec fn none_finished(n: nat) -> Seq<bool> {
    Seq::new(n, |i: int| false)
}

/// The state is safe: starting from the free units `work`, every thread
/// (one row of `alloc` each) finishes.
pub open spec fn is_safe(work: Seq<int>, alloc: Seq<Seq<int>>, need: Seq<Seq<int>>) -> bool {
    finishes_all(work, none_finished(alloc.len()), alloc, need, alloc.len())
}

/// Entry `j` of a row, zero past its end.
pub open spec fn entry(row: Seq<int>, j: int) -> int {
    if 0 <= j < row.len() { row[j] } else { 0 }
}

/// What the threads listed in `order` hold of resource `j`, together.
pub open spec fn col_sum(alloc: Seq<Seq<int>>, order: Seq<int>, j: int) -> int
    decreases order.len(),
{
    if order.len() == 0 {
        0
    } else {
        col_sum(alloc, order.drop_last(), j) + entry(alloc[order.last()], j)
    }
}

/// The free units once every thread listed in `order` finished.
pub open spec fn accumulate(work: Seq<int>, alloc: Seq<Seq<int>>, order: Seq<int>) -> Seq<int> {
    Seq::new(work.len(), |j: int| work[j] + col_sum(alloc, order, j))
}

/// Each thread of `order`, in turn, can finish with the units that are free
/// once the threads before it finished.
pub open spec fn runs_in_order(work: Seq<int>, alloc: Seq<Seq<int>>, need: Seq<Seq<int>>, order: Seq<int>) -> bool {
    forall|k: int| 0 <= k < order.len() ==> covers(accumulate(work, alloc, order.take(k)), #[trigger] need[order[k]])
}

/// `order` lists every thread once, and the threads can finish in that order.
pub open spec fn is_safe_order(work: Seq<int>, alloc: Seq<Seq<int>>, need: Seq<Seq<int>>, order: Seq<int>) -> bool {
    &&& order.len() == alloc.len()
    &&& order.no_duplicates()
    &&& forall|k: int| 0 <= k < order.len() ==> 0 <= #[trigger] order[k] < alloc.len()
    &&& runs_in_order(work, alloc, need, order)
}

/// No thread among the first `n` holds a negative number of units.
pub open spec fn holdings_nonnegative(alloc: Seq<Seq<int>>, n: int) -> bool {
    forall|i: int, j: int| 0 <= i < n && 0 <= j < alloc[i].len() ==> #[trigger] alloc[i][j] >= 0
}

/// Whether `need` fits in `work` resource by resource.
fn fits(need: &Vec<isize>, work: &Vec<i128>) -> (r: bool)
    ensures
        r == covers(wide_ints(work@), ints(need@)),
{
    let mut j: usize = 0;
    while j < need.len() && j < work.len()
        invariant
            j <= need.len(),
            forall|k: int| 0 <= k < j ==> (need@[k] as int) <= (work@[k] as int),
        decreases need.len() - j,
    {
        if (need[j] as i128) > work[j] {
            assert(!(ints(need@)[j as int] <= wide_ints(work@)[j as int]));
            return false;
        }
        j = j + 1;
    }
    true
}

/// The first unfinished thread whose need fits in `work`.
fn first_fitting(finish: &Vec<bool>, all_need: &Vec<Vec<isize>>, work: &Vec<i128>) -> (r: Option<usize>)
    requires
        all_need.len() >= finish.len(),
    ensures
        r matches Some(p) ==> first_can_finish(wide_ints(work@), finish@, int_rows(all_need@), 0) == Some(p as int),
        r is None ==> first_can_finish(wide_ints(work@), finish@, int_rows(all_need@), 0) is None,
        r matches Some(p) ==> p < finish.len(),
{
    let ghost ws = wide_ints(work@);
    let ghost needs = int_rows(all_need@);
    let mut i: usize = 0;
    while i < finish.len()
        invariant
            i <= finish.len(),
            all_need.len() >= finish.len(),
            ws == wide_ints(work@),
            needs == int_rows(all_need@),
            first_can_finish(ws, finish@, needs, 0) == first_can_finish(ws, finish@, needs, i as int),
        decreases finish.len() - i,
    {
        let can_proceed = fits(&all_need[i], work);
        assert(needs[i as int] == ints(all_need@[i as int]@));
        if can_proceed && !finish[i] {
            return Some(i);
        }
        i = i + 1;
    }
    None
}

/// Whether the state is safe: starting from the free units `work` of each
/// resource, every thread (one row of `all_allocation` and of `all_need`
/// each) can run to its end in turn, each round the first thread whose
/// need fits in the free units finishing and handing its allocation back.
pub fn detect_safe(work: Vec<isize>, all_allocation: &Vec<Vec<isize>>, all_need: &Vec<Vec<isize>>) -> (safe: bool)
    requires
        all_need.len() >= all_allocation.len(),
    ensures
        safe == is_safe(ints(work@), int_rows(all_allocation@), int_rows(all_need@)),
{
    let ghost allocs = int_rows(all_allocation@);
    let ghost needs = int_rows(all_need@);
    let n = all_allocation.len();

    let mut wide: Vec<i128> = Vec::new();
    let mut j: usize = 0;
    while j < work.len()
        invariant
            j <= work.len(),
            wide@.len() == j,
            forall|k: int| 0 <= k < j ==> (wide@[k] as int) == (work@[k] as int),
        decreases work.len() - j,
    {
        wide.push(work[j] as i128);
        j = j + 1;
    }
    assert(wide_ints(wide@) =~= ints(work@));

    let mut finish: Vec<bool> = Vec::new();
    let mut i: usize = 0;
    while i < n
        invariant
            i <= n,
            finish@ =~= none_finished(i as nat),
        decreases n - i,
    {
        finish.push(false);
        i = i + 1;
    }

    let mut round: usize = 0;
    while round < n
        invariant
            n == all_allocation.len(),
            all_need.len() >= n,
            finish@.len() == n,
            round <= n,
            allocs == int_rows(all_allocation@),
            needs == int_rows(all_need@),
            is_safe(ints(work@), allocs, needs)
                == finishes_all(wide_ints(wide@), finish@, allocs, needs, (n - round) as nat),
            forall|k: int| 0 <= k < wide@.len() ==>
                -(round + 1) * 0x8000_0000_0000_0000int <= #[trigger] wide@[k]
                && wide@[k] <= (round + 1) * 0x7fff_ffff_ffff_ffffint,
        decreases n - round,
    {
        let found = first_fitting(&finish, all_need, &wide);
        match found {
            None => {
                return false;
            },
            Some(pos) => {
                let ghost before = wide@;
                let ghost finish_before = finish@;
                let alloc_row = &all_allocation[pos];
                assert(allocs[pos as int] == ints(alloc_row@));
                let mut k: usize = 0;
                while k < wide.len() && k < alloc_row.len()
                    invariant
                        k <= wide@.len(),
                        k <= alloc_row@.len(),
                        wide@.len() == before.len(),
                        round < n,
                        forall|m: int| 0 <= m < k ==> (#[trigger] wide@[m] as int) == (before[m] as int) + (alloc_row@[m] as int),
                        forall|m: int| k <= m < wide@.len() ==> #[trigger] wide@[m] == before[m],
                        forall|m: int| 0 <= m < before.len() ==>
                            -(round + 1) * 0x8000_0000_0000_0000int <= #[trigger] before[m]
                            && before[m] <= (round + 1) * 0x7fff_ffff_ffff_ffffint,
                    decreases wide@.len() - k,
                {
                    let sum = wide[k] + alloc_row[k] as i128;
                    wide.set(k, sum);
                    k = k + 1;
                }
                assert(allocs[pos as int] == ints(alloc_row@));
                assert forall|m: int| 0 <= m < wide@.len() implies
                    #[trigger] wide_ints(wide@)[m] == released(wide_ints(before), allocs[pos as int])[m] by {
                    if m < k {
                    } else {
                        assert(m >= alloc_row@.len());
                    }
                }
                assert(wide_ints(wide@) =~= released(wide_ints(before), allocs[pos as int]));
                finish.set(pos, true);
                assert(finishes_all(wide_ints(before), finish_before, allocs, needs, (n - round) as nat)
                    == finishes_all(wide_ints(wide@), finish@, allocs, needs, (n - round - 1) as nat));
                round = round + 1;
            },
        }
    }
    true
}

} // verus!
