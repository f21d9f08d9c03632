use vstd::prelude::*;

verus! {

/// The per-thread table `s` after the slot of `tid` was reset to zero:
/// the table grows with zeros until it holds slot `tid`, and slot `tid`
/// reads zero; every other existing slot keeps its value.
pub open spec fn zeroed_slot(s: Seq<isize>, tid: int) -> Seq<isize> {
    let len = if s.len() > tid { s.len() as int } else { tid + 1 };
    Seq::new(len as nat, |j: int| if j == tid || j >= s.len() { 0isize } else { s[j] })
}

/// Grows `v` with zeros until it has a slot for `tid`, then clears that slot.
pub fn reset_slot(v: &mut Vec<isize>, tid: usize)
    requires
        tid < usize::MAX,
    ensures
        final(v)@ == zeroed_slot(old(v)@, tid as int),
{
    let ghost start = v@;
    while v.len() < tid + 1
        invariant
            tid < usize::MAX,
            start.len() <= v@.len(),
            v@.len() <= start.len() || v@.len() <= tid + 1,
            forall|j: int| 0 <= j < start.len() ==> v@[j] == start[j],
            forall|j: int| start.len() <= j < v@.len() ==> v@[j] == 0isize,
        decreases tid + 1 - v.len(),
    {
        v.push(0);
    }
    v.set(tid, 0);
    assert(v@ =~= zeroed_slot(start, tid as int));
}

} // verus!

verus! {

/// A table of `n` zero slots.
pub open spec fn zeros(n: int) -> Seq<isize> {
    Seq::new(n as nat, |j: int| 0isize)
}

/// The first free id of `list` (its length when every id is in use).
pub fn first_free<T>(list: &Vec<Option<T>>) -> (id: usize)
    ensures
        id <= list@.len(),
        forall|j: int| 0 <= j < id ==> #[trigger] list@[j] is Some,
        (id as int) < list@.len() ==> list@[id as int] is None,
{
    let mut i: usize = 0;
    while i < list.len()
        invariant
            i <= list@.len(),
            forall|j: int| 0 <= j < i ==> #[trigger] list@[j] is Some,
        decreases list.len() - i,
    {
        if list[i].is_none() {
            return i;
        }
        i = i + 1;
    }
    i
}

} // verus!
