//! The timeline: entries shown by date.
use vstd::prelude::*;

verus! {

/// `order` lists the positions `0..days.len()` once each, earlier days
/// first, entries of the same day in their original order.
pub open spec fn is_date_order(days: Seq<i32>, order: Seq<usize>) -> bool {
    &&& order.len() == days.len()
    &&& forall|i: int| 0 <= i < order.len() ==> (#[trigger] order[i] as int) < days.len()
    &&& forall|i: int, j: int| 0 <= i < j < order.len() ==> order[i] != order[j]
    &&& forall|i: int, j: int|
        0 <= i < j < order.len() ==> days[#[trigger] order[i] as int] <= days[#[trigger] order[j] as int]
    &&& forall|i: int, j: int|
        0 <= i < j < order.len() && days[#[trigger] order[i] as int] == days[#[trigger] order[j] as int]
            ==> order[i] < order[j]
}

/// The positions of the first `k` entries, sorted as `is_date_order` says.
spec fn is_partial_order(days: Seq<i32>, order: Seq<usize>, k: int) -> bool {
    &&& order.len() == k
    &&& forall|i: int| 0 <= i < order.len() ==> (#[trigger] order[i] as int) < k
    &&& forall|i: int, j: int| 0 <= i < j < order.len() ==> order[i] != order[j]
    &&& forall|i: int, j: int|
        0 <= i < j < order.len() ==> days[#[trigger] order[i] as int] <= days[#[trigger] order[j] as int]
    &&& forall|i: int, j: int|
        0 <= i < j < order.len() && days[#[trigger] order[i] as int] == days[#[trigger] order[j] as int]
            ==> order[i] < order[j]
}

/// The order in which to show timeline entries whose dates are `days`
/// (as day numbers): by date, earlier first, a stable sort.
pub fn timeline_order(days: &Vec<i32>) -> (order: Vec<usize>)
    ensures
        is_date_order(days@, order@),
{
    let n = days.len();
    let mut order: Vec<usize> = Vec::new();
    let mut k: usize = 0;
    while k < n
        invariant
            k <= n,
            n == days@.len(),
            is_partial_order(days@, order@, k as int),
        decreases n - k,
    {
        let dk = days[k];
        let mut p: usize = 0;
        while p < order.len() && days[order[p]] <= dk
            invariant
                p <= order@.len(),
                k < n,
                n == days@.len(),
                dk == days@[k as int],
                is_partial_order(days@, order@, k as int),
                forall|q: int| 0 <= q < p ==> days@[#[trigger] order@[q] as int] <= dk,
            decreases order@.len() - p,
        {
            p = p + 1;
        }
        let ghost old_order = order@;
        proof {
            assert forall|q: int| p <= q < old_order.len() implies dk < days@[
                #[trigger] old_order[q] as int
            ] by {
                if q > p {
                    assert(days@[old_order[p as int] as int] <= days@[old_order[q] as int]);
                }
            }
        }
        order.insert(p, k);
        proof {
            let s = order@;
            assert(s.len() == k + 1);
            assert forall|i: int| 0 <= i < s.len() implies s[i] == if i < p {
                old_order[i]
            } else if i == p {
                k
            } else {
                old_order[i - 1]
            } by {}
            assert forall|i: int| 0 <= i < s.len() implies (#[trigger] s[i] as int) < k + 1 by {}
            assert forall|i: int, j: int| 0 <= i < j < s.len() implies s[i] != s[j] by {}
            assert forall|i: int, j: int| 0 <= i < j < s.len() implies days@[
                #[trigger] s[i] as int
            ] <= days@[#[trigger] s[j] as int] by {}
            assert forall|i: int, j: int|
                0 <= i < j < s.len() && days@[#[trigger] s[i] as int] == days@[
                    #[trigger] s[j] as int
                ] implies s[i] < s[j] by {}
        }
        k = k + 1;
    }
    order
}

} // verus!
