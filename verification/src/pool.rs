//! The dispatch decision of the worker pool: a job goes to the worker with
//! the smallest current load, ties broken by the first occurrence. The scan
//! is advisory by design — the caller reads each worker's load counter into
//! a snapshot and routes to the index picked here.

use vstd::prelude::*;

verus! {

/// `i` is the position of the first minimum of `loads`.
pub open spec fn is_first_min(loads: Seq<i32>, i: int) -> bool {
    &&& 0 <= i < loads.len()
    &&& forall|j: int| 0 <= j < loads.len() ==> loads[i] <= #[trigger] loads[j]
    &&& forall|j: int| 0 <= j < i ==> #[trigger] loads[j] > loads[i]
}

/// The first minimum is unique.
pub proof fn lemma_first_min_unique(loads: Seq<i32>, i: int, j: int)
    requires
        is_first_min(loads, i),
        is_first_min(loads, j),
    ensures
        i == j,
{
    if i < j {
        assert(loads[i] > loads[j]);
        assert(loads[j] <= loads[i]);
    }
    if j < i {
        assert(loads[j] > loads[i]);
        assert(loads[i] <= loads[j]);
    }
}

/// Pick the worker with the least load, ties broken by the first
/// occurrence; `None` only when there are no workers at all.
pub fn pick_least_loaded(loads: &Vec<i32>) -> (r: Option<usize>)
    ensures
        r is None <==> loads@.len() == 0,
        r matches Some(i) ==> is_first_min(loads@, i as int),
{
    if loads.len() == 0 {
        return None;
    }
    let n = loads.len();
    let mut best: usize = 0;
    let mut k: usize = 1;
    while k < n
        invariant
            1 <= k <= n,
            n == loads@.len(),
            best < k,
            forall|j: int| 0 <= j < k ==> loads@[best as int] <= #[trigger] loads@[j],
            forall|j: int| 0 <= j < best ==> #[trigger] loads@[j] > loads@[best as int],
        decreases n - k,
    {
        if loads[k] < loads[best] {
            best = k;
        }
        k = k + 1;
    }
    Some(best)
}

} // verus!
