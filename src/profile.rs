use vstd::prelude::*;
use vstd::seq_lib::group_to_multiset_ensures;
use crate::aggregate::count_matches;
use crate::order::{sort_ages, sorted_ages};
use crate::table::{column, rectangular, rows_view, RunTable};

verus! {

pub open spec fn strictly_increasing(s: Seq<i64>) -> bool {
    forall|a: int, b: int| 0 <= a < b < s.len() ==> s[a] < s[b]
}

/// Age `v` is observed somewhere in the first `n_steps` steps of `ages`.
pub open spec fn occurs(ages: Seq<Seq<i64>>, n_steps: int, v: i64) -> bool {
    exists|i: int, t: int| 0 <= i < ages.len() && 0 <= t < n_steps && #[trigger] ages[i][t] == v
}

/// The age histogram of one run: the ages observed anywhere in it, ascending,
/// and for each step the number of assets at each of those ages.
pub struct RunProfile {
    pub run_id: i64,
    pub values: Vec<i64>,
    /// `by_step[t][k]` counts the assets of age `values[k]` at step `t`.
    pub by_step: Vec<Vec<u64>>,
}

impl RunProfile {
    /// `self` is the histogram of the ages `ages` over `n_steps` steps.
    pub open spec fn profiles(&self, ages: Seq<Seq<i64>>, n_steps: int) -> bool {
        &&& strictly_increasing(self.values@)
        &&& forall|v: i64| self.values@.contains(v) <==> occurs(ages, n_steps, v)
        &&& self.by_step@.len() == n_steps
        &&& forall|t: int|
            0 <= t < n_steps ==> (#[trigger] self.by_step@[t])@.len() == self.values@.len()
        &&& forall|t: int, k: int|
            0 <= t < n_steps && 0 <= k < self.values@.len() ==> #[trigger] self.by_step@[t]@[k]
                == count_matches(column(ages, t), self.values@[k], ages.len() as int)
    }
}

proof fn lemma_push_keeps(s: Seq<i64>, a: i64, x: i64)
    requires
        s.contains(x),
    ensures
        s.push(a).contains(x),
{
    let j = choose|j: int| 0 <= j < s.len() && s[j] == x;
    assert(s.push(a)[j] == x);
}

/// Every age observed in the first `n_steps` steps of `rows`, each once, ascending.
fn distinct_ages(rows: &Vec<Vec<i64>>, n_steps: usize) -> (r: Vec<i64>)
    requires
        rectangular(rows_view(rows@), n_steps as int),
    ensures
        strictly_increasing(r@),
        forall|v: i64| r@.contains(v) <==> occurs(rows_view(rows@), n_steps as int, v),
{
    let ghost ages = rows_view(rows@);
    let mut all: Vec<i64> = Vec::new();
    let mut i: usize = 0;
    while i < rows.len()
        invariant
            ages == rows_view(rows@),
            rectangular(ages, n_steps as int),
            i <= rows@.len(),
            forall|j: int| 0 <= j < all@.len() ==> occurs(ages, n_steps as int, #[trigger] all@[j]),
            forall|i1: int, t1: int|
                0 <= i1 < i && 0 <= t1 < n_steps ==> all@.contains(#[trigger] ages[i1][t1]),
        decreases rows@.len() - i,
    {
        assert(ages[i as int] == rows@[i as int]@);
        let mut t: usize = 0;
        while t < n_steps
            invariant
                ages == rows_view(rows@),
                rectangular(ages, n_steps as int),
                i < rows@.len(),
                ages[i as int] == rows@[i as int]@,
                t <= n_steps,
                forall|j: int| 0 <= j < all@.len() ==> occurs(ages, n_steps as int, #[trigger] all@[j]),
                forall|i1: int, t1: int|
                    0 <= i1 < i && 0 <= t1 < n_steps ==> all@.contains(#[trigger] ages[i1][t1]),
                forall|t1: int| 0 <= t1 < t ==> all@.contains(#[trigger] ages[i as int][t1]),
            decreases n_steps - t,
        {
            let x = rows[i][t];
            let ghost before = all@;
            all.push(x);
            proof {
                assert(ages[i as int][t as int] == x);
                assert forall|i1: int, t1: int|
                    0 <= i1 < i && 0 <= t1 < n_steps implies all@.contains(#[trigger] ages[i1][t1]) by {
                    lemma_push_keeps(before, x, ages[i1][t1]);
                }
                assert forall|t1: int| 0 <= t1 < t + 1 implies all@.contains(#[trigger] ages[i as int][t1]) by {
                    if t1 < t {
                        lemma_push_keeps(before, x, ages[i as int][t1]);
                    } else {
                        assert(all@[before.len() as int] == x);
                    }
                }
            }
            t = t + 1;
        }
        i = i + 1;
    }
    let ghost unsorted = all@;
    sort_ages(&mut all);
    proof {
        broadcast use group_to_multiset_ensures;

        assert forall|x: i64| all@.contains(x) <==> unsorted.contains(x) by {
            assert(all@.contains(x) <==> all@.to_multiset().count(x) > 0);
            assert(unsorted.contains(x) <==> unsorted.to_multiset().count(x) > 0);
        }
    }
    let mut values: Vec<i64> = Vec::new();
    let mut j: usize = 0;
    while j < all.len()
        invariant
            sorted_ages(all@),
            j <= all@.len(),
            values@.len() <= j,
            strictly_increasing(values@),
            j > 0 ==> values@.len() > 0 && values@.last() == all@[j - 1],
            forall|k: int| 0 <= k < values@.len() ==> all@.contains(#[trigger] values@[k]),
            forall|j1: int| 0 <= j1 < j ==> values@.contains(#[trigger] all@[j1]),
        decreases all@.len() - j,
    {
        let x = all[j];
        let ghost before = values@;
        if values.len() == 0 || values[values.len() - 1] != x {
            values.push(x);
            proof {
                assert forall|j1: int| 0 <= j1 < j + 1 implies values@.contains(#[trigger] all@[j1]) by {
                    if j1 < j {
                        lemma_push_keeps(before, x, all@[j1]);
                    } else {
                        assert(values@[before.len() as int] == x);
                    }
                }
            }
        } else {
            assert(values@[values@.len() - 1] == x);
        }
        j = j + 1;
    }
    proof {
        assert forall|v: i64| values@.contains(v) <==> occurs(ages, n_steps as int, v) by {
            if values@.contains(v) {
                let k = choose|k: int| 0 <= k < values@.len() && values@[k] == v;
                assert(all@.contains(values@[k]));
                assert(unsorted.contains(v));
                let j1 = choose|j1: int| 0 <= j1 < unsorted.len() && unsorted[j1] == v;
                assert(occurs(ages, n_steps as int, unsorted[j1]));
            }
            if occurs(ages, n_steps as int, v) {
                let (i1, t1) = choose|i1: int, t1: int|
                    0 <= i1 < ages.len() && 0 <= t1 < n_steps && #[trigger] ages[i1][t1] == v;
                assert(unsorted.contains(ages[i1][t1]));
                assert(all@.contains(v));
                let j1 = choose|j1: int| 0 <= j1 < all@.len() && all@[j1] == v;
                assert(values@.contains(all@[j1]));
            }
        }
    }
    values
}

/// The position of `x` among strictly increasing `values`.
fn position_of(values: &Vec<i64>, x: i64) -> (r: usize)
    requires
        strictly_increasing(values@),
        values@.contains(x),
    ensures
        r < values@.len(),
        values@[r as int] == x,
{
    let mut lo: usize = 0;
    let mut hi: usize = values.len();
    while lo + 1 < hi
        invariant
            strictly_increasing(values@),
            values@.contains(x),
            lo < hi <= values@.len(),
            forall|k: int| 0 <= k < lo ==> values@[k] < x,
            forall|k: int| hi <= k < values@.len() ==> values@[k] > x,
        decreases hi - lo,
    {
        let mid = lo + (hi - lo) / 2;
        if values[mid] <= x {
            lo = mid;
        } else {
            hi = mid;
        }
    }
    lo
}

/// The age histogram of a run, per step, over every age observed in it; an age
/// absent at some step counts zero there.
pub fn count_values(table: &RunTable) -> (r: RunProfile)
    requires
        table.wf(),
    ensures
        r.run_id == table.run_id,
        r.profiles(table.ages(), table.n_steps as int),
{
    let ghost ages = table.ages();
    let values = distinct_ages(&table.rows, table.n_steps);
    let n = table.rows.len();
    let nv = values.len();
    let mut by_step: Vec<Vec<u64>> = Vec::with_capacity(table.n_steps);
    let mut t: usize = 0;
    while t < table.n_steps
        invariant
            table.wf(),
            ages == table.ages(),
            n == table.rows@.len(),
            nv == values@.len(),
            strictly_increasing(values@),
            forall|v: i64| values@.contains(v) <==> occurs(ages, table.n_steps as int, v),
            t <= table.n_steps,
            by_step@.len() == t,
            forall|t1: int| 0 <= t1 < t ==> (#[trigger] by_step@[t1])@.len() == nv,
            forall|t1: int, k: int|
                0 <= t1 < t && 0 <= k < nv ==> #[trigger] by_step@[t1]@[k] == count_matches(
                    column(ages, t1),
                    values@[k],
                    n as int,
                ),
        decreases table.n_steps - t,
    {
        let ghost col = column(ages, t as int);
        let mut cnt: Vec<u64> = Vec::with_capacity(nv);
        while cnt.len() < nv
            invariant
                cnt@.len() <= nv,
                forall|k: int| 0 <= k < cnt@.len() ==> #[trigger] cnt@[k] == 0,
            decreases nv - cnt@.len(),
        {
            cnt.push(0);
        }
        let mut i: usize = 0;
        while i < n
            invariant
                table.wf(),
                ages == table.ages(),
                n == table.rows@.len(),
                nv == values@.len(),
                t < table.n_steps,
                col == column(ages, t as int),
                strictly_increasing(values@),
                forall|v: i64| values@.contains(v) <==> occurs(ages, table.n_steps as int, v),
                i <= n,
                cnt@.len() == nv,
                forall|k: int| 0 <= k < nv ==> #[trigger] cnt@[k] == count_matches(col, values@[k], i as int),
                forall|k: int| 0 <= k < nv ==> #[trigger] cnt@[k] <= i,
            decreases n - i,
        {
            assert(ages[i as int] == table.rows@[i as int]@);
            let x = table.rows[i][t];
            assert(occurs(ages, table.n_steps as int, ages[i as int][t as int]));
            let k = position_of(&values, x);
            let c = cnt[k];
            cnt.set(k, c + 1);
            i = i + 1;
        }
        by_step.push(cnt);
        t = t + 1;
    }
    RunProfile { run_id: table.run_id, values, by_step }
}

} // verus!
