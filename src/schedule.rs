use vstd::prelude::*;
use ndarray_rand::rand::rngs::SmallRng;
use crate::error::SimError;
use crate::rng::next_draw;
use crate::table::RunTable;
use vstd::seq_lib::group_to_multiset_ensures;
use crate::table::{column, rectangular, rows_view};
use crate::order::{
    lemma_weight_upto_permutation, lemma_weight_upto_sorted, pair_le, prefix_weight, sort_pairs,
    sorted_pairs, weight, weight_upto,
};

verus! {

/// At one step, asset `j` is taken no later than asset `i` in the priority order:
/// keys descending, ties by asset position.
pub open spec fn precedes(keys: Seq<u64>, j: int, i: int) -> bool {
    keys[j] > keys[i] || (keys[j] == keys[i] && j <= i)
}

/// The cost that asset `j` asks for at a step whose ages are `values`: its cost
/// if it shows an event there, else nothing.
pub open spec fn demand(values: Seq<i64>, costs: Seq<i64>, target: i64, j: int) -> int {
    if values[j] == target {
        costs[j] as int
    } else {
        0
    }
}

/// The demand, among the first `m` assets, of those taken no later than asset `i`:
/// the running total of demand at `i`'s position in the priority order.
pub open spec fn demand_ahead(
    values: Seq<i64>,
    costs: Seq<i64>,
    target: i64,
    keys: Seq<u64>,
    i: int,
    m: int,
) -> int
    decreases m,
{
    if m <= 0 {
        0
    } else {
        demand_ahead(values, costs, target, keys, i, m - 1) + if precedes(keys, m - 1, i) {
            demand(values, costs, target, m - 1)
        } else {
            0
        }
    }
}

/// Asset `i`'s event at a step is admitted: it shows the event, and the running
/// total of demand at its position stays within the budget.
pub open spec fn admitted(
    values: Seq<i64>,
    costs: Seq<i64>,
    target: i64,
    keys: Seq<u64>,
    budget: i64,
    i: int,
) -> bool {
    values[i] == target && demand_ahead(values, costs, target, keys, i, values.len() as int)
        <= budget
}

/// Total cost of the admitted events among the first `m` assets.
pub open spec fn admitted_cost(
    values: Seq<i64>,
    costs: Seq<i64>,
    target: i64,
    keys: Seq<u64>,
    budget: i64,
    m: int,
) -> int
    decreases m,
{
    if m <= 0 {
        0
    } else {
        admitted_cost(values, costs, target, keys, budget, m - 1) + if admitted(
            values,
            costs,
            target,
            keys,
            budget,
            m - 1,
        ) {
            costs[m - 1] as int
        } else {
            0
        }
    }
}

/// The entry that sorts asset `j` into the priority order.
pub open spec fn priority_entry(keys: Seq<u64>, j: int) -> (u64, u64) {
    ((u64::MAX - keys[j]) as u64, j as u64)
}

pub open spec fn priority_entries(keys: Seq<u64>) -> Seq<(u64, u64)> {
    Seq::new(keys.len(), |j: int| priority_entry(keys, j))
}

pub open spec fn demands(values: Seq<i64>, costs: Seq<i64>, target: i64) -> Seq<int> {
    Seq::new(values.len(), |j: int| demand(values, costs, target, j))
}

proof fn lemma_demand_ahead_as_weight(
    values: Seq<i64>,
    costs: Seq<i64>,
    target: i64,
    keys: Seq<u64>,
    i: int,
    m: int,
)
    requires
        values.len() == costs.len() == keys.len(),
        keys.len() <= u64::MAX,
        0 <= i < keys.len(),
        0 <= m <= keys.len(),
    ensures
        demand_ahead(values, costs, target, keys, i, m) == weight_upto(
            priority_entries(keys).take(m),
            priority_entry(keys, i),
            demands(values, costs, target),
        ),
    decreases m,
{
    let p = priority_entries(keys);
    if m > 0 {
        lemma_demand_ahead_as_weight(values, costs, target, keys, i, m - 1);
        assert(p.take(m).drop_last() =~= p.take(m - 1));
        assert(p.take(m).last() == priority_entry(keys, m - 1));
        assert(pair_le(priority_entry(keys, m - 1), priority_entry(keys, i)) == precedes(
            keys,
            m - 1,
            i,
        ));
    }
}

proof fn lemma_prefix_weight_bounds(s: Seq<(u64, u64)>, m: int, d: Seq<int>)
    requires
        0 <= m <= s.len(),
        forall|j: int| 0 <= j < d.len() ==> i64::MIN <= #[trigger] d[j] <= i64::MAX,
    ensures
        -m * 0x8000_0000_0000_0000 <= prefix_weight(s, m, d) <= m * 0x8000_0000_0000_0000,
    decreases m,
{
    if m > 0 {
        lemma_prefix_weight_bounds(s, m - 1, d);
    }
}

/// Decides, for one step, which assets' events are admitted under `budget`:
/// assets are taken by priority key descending (ties by position) and an event
/// is admitted while the running total of demand stays within the budget.
pub fn admit_step(values: &Vec<i64>, costs: &Vec<i64>, target: i64, keys: &Vec<u64>, budget: i64) -> (r: Vec<bool>)
    requires
        costs@.len() == values@.len(),
        keys@.len() == values@.len(),
    ensures
        r@.len() == values@.len(),
        forall|i: int|
            0 <= i < values@.len() ==> #[trigger] r@[i] == admitted(
                values@,
                costs@,
                target,
                keys@,
                budget,
                i,
            ),
{
    let n = values.len();
    let ghost p = priority_entries(keys@);
    let ghost d = demands(values@, costs@, target);
    let mut entries: Vec<(u64, u64)> = Vec::with_capacity(n);
    let mut j: usize = 0;
    while j < n
        invariant
            n == values@.len() == keys@.len(),
            j <= n,
            p == priority_entries(keys@),
            entries@ =~= p.take(j as int),
        decreases n - j,
    {
        entries.push((u64::MAX - keys[j], j as u64));
        j = j + 1;
    }
    assert(entries@ =~= p);
    let ghost unsorted = entries@;
    sort_pairs(&mut entries);
    proof {
        broadcast use group_to_multiset_ensures;

        vstd::seq_lib::to_multiset_len(entries@);
        vstd::seq_lib::to_multiset_len(unsorted);
        assert(p.no_duplicates());
        p.lemma_multiset_has_no_duplicates();
        assert forall|x: (u64, u64)| entries@.to_multiset().contains(x) implies entries@.to_multiset().count(x) == 1 by {
        }
        entries@.lemma_multiset_has_no_duplicates_conv();
        assert forall|q: int| 0 <= q < n implies (#[trigger] entries@[q]).1 < n && entries@[q] == p[entries@[q].1 as int] by {
            assert(entries@.to_multiset().count(entries@[q]) > 0);
            assert(p.contains(entries@[q]));
        }
    }
    let mut flags: Vec<bool> = Vec::with_capacity(n);
    let mut k: usize = 0;
    while k < n
        invariant
            k <= n,
            flags@.len() == k,
        decreases n - k,
    {
        flags.push(false);
        k = k + 1;
    }
    let mut total: i128 = 0;
    let mut q: usize = 0;
    while q < n
        invariant
            n == values@.len() == keys@.len() == costs@.len() == entries@.len(),
            q <= n,
            flags@.len() == n,
            p == priority_entries(keys@),
            d == demands(values@, costs@, target),
            sorted_pairs(entries@),
            entries@.no_duplicates(),
            entries@.to_multiset() == p.to_multiset(),
            forall|q1: int|
                0 <= q1 < n ==> (#[trigger] entries@[q1]).1 < n && entries@[q1] == p[entries@[q1].1 as int],
            total == prefix_weight(entries@, q as int, d),
            forall|q1: int|
                0 <= q1 < q ==> flags@[(#[trigger] entries@[q1]).1 as int] == admitted(
                    values@,
                    costs@,
                    target,
                    keys@,
                    budget,
                    entries@[q1].1 as int,
                ),
        decreases n - q,
    {
        let idx = entries[q].1 as usize;
        proof {
            lemma_prefix_weight_bounds(entries@, q as int, d);
            lemma_prefix_weight_bounds(entries@, q + 1, d);
        }
        let dq: i128 = if values[idx] == target {
            costs[idx] as i128
        } else {
            0
        };
        total = total + dq;
        proof {
            lemma_weight_upto_sorted(entries@, q as int, d);
            lemma_weight_upto_permutation(entries@, p, entries@[q as int], d);
            assert(p.take(n as int) =~= p);
            lemma_demand_ahead_as_weight(values@, costs@, target, keys@, idx as int, n as int);
            assert forall|q1: int| 0 <= q1 < q implies (#[trigger] entries@[q1]).1 != idx by {
                assert(entries@[q1] != entries@[q as int]);
            }
        }
        flags.set(idx, values[idx] == target && total <= budget as i128);
        q = q + 1;
    }
    proof {
        assert forall|i: int| 0 <= i < n implies #[trigger] flags@[i] == admitted(
            values@,
            costs@,
            target,
            keys@,
            budget,
            i,
        ) by {
            assert(p[i] == priority_entry(keys@, i));
            assert(p.to_multiset().count(p[i]) > 0);
            assert(entries@.contains(p[i]));
            let q1 = choose|q1: int| 0 <= q1 < n && entries@[q1] == p[i];
            assert(entries@[q1].1 == i);
        }
    }
    flags
}

/// Asset `i`'s event at step `t` of the unconstrained table `rows` is admitted,
/// with `keys[t]` as that step's priority keys and `budget[t]` as its cap.
pub open spec fn admitted_at(
    rows: Seq<Seq<i64>>,
    costs: Seq<i64>,
    target: i64,
    keys: Seq<Seq<u64>>,
    budget: Seq<i64>,
    t: int,
    i: int,
) -> bool {
    admitted(column(rows, t), costs, target, keys[t], budget[t], i)
}

/// Asset `i`'s age at step `t` once the budget is enforced. Step zero is kept.
/// An admitted event keeps its reset; a deferred one ages the asset one period
/// past its rewritten previous age. A step without an event follows the
/// unconstrained table while the previous step is unchanged, and otherwise
/// keeps ageing by one period until the asset's next event.
pub open spec fn constrained_age(
    rows: Seq<Seq<i64>>,
    costs: Seq<i64>,
    target: i64,
    keys: Seq<Seq<u64>>,
    budget: Seq<i64>,
    i: int,
    t: int,
) -> int
    decreases t,
{
    if t <= 0 {
        rows[i][0] as int
    } else {
        let prev = constrained_age(rows, costs, target, keys, budget, i, t - 1);
        if rows[i][t] == target {
            if admitted_at(rows, costs, target, keys, budget, t, i) {
                rows[i][t] as int
            } else {
                prev + 1
            }
        } else if prev == rows[i][t - 1] {
            rows[i][t] as int
        } else {
            prev + 1
        }
    }
}

/// Enforces the per-step budget on the unconstrained table `rows`, step by step
/// from step one, each step reading the rewritten previous step.
/// `keys[t]` holds step `t`'s priority keys; `keys[0]` and `budget[0]` are unused.
pub fn constrain_rows(
    rows: &Vec<Vec<i64>>,
    costs: &Vec<i64>,
    target: i64,
    budget: &Vec<i64>,
    keys: &Vec<Vec<u64>>,
    n_steps: usize,
) -> (r: Vec<Vec<i64>>)
    requires
        n_steps >= 1,
        costs@.len() == rows@.len(),
        budget@.len() == n_steps,
        keys@.len() == n_steps,
        forall|t: int| 1 <= t < n_steps ==> (#[trigger] keys@[t])@.len() == rows@.len(),
        forall|i: int| 0 <= i < rows@.len() ==> (#[trigger] rows@[i])@.len() == n_steps,
        forall|i: int, t: int|
            0 <= i < rows@.len() && 0 <= t < n_steps ==> #[trigger] rows@[i]@[t] <= i64::MAX
                - n_steps,
    ensures
        r@.len() == rows@.len(),
        rectangular(rows_view(r@), n_steps as int),
        forall|i: int, t: int|
            0 <= i < rows@.len() && 0 <= t < n_steps ==> #[trigger] r@[i]@[t] == constrained_age(
                rows_view(rows@),
                costs@,
                target,
                keys@.map_values(|k: Vec<u64>| k@),
                budget@,
                i,
                t,
            ),
{
    let ghost ages = rows_view(rows@);
    let ghost ks = keys@.map_values(|k: Vec<u64>| k@);
    assert(rectangular(ages, n_steps as int)) by {
        assert forall|i: int| 0 <= i < ages.len() implies (#[trigger] ages[i]).len() == n_steps by {
            assert(ages[i] == rows@[i]@);
        }
    }
    let n = rows.len();
    let mut flags: Vec<Vec<bool>> = Vec::with_capacity(n_steps);
    flags.push(Vec::new());
    let mut t: usize = 1;
    while t < n_steps
        invariant
            1 <= t <= n_steps,
            n == rows@.len() == costs@.len(),
            budget@.len() == n_steps,
            keys@.len() == n_steps,
            ages == rows_view(rows@),
            ks == keys@.map_values(|k: Vec<u64>| k@),
            forall|t1: int| 1 <= t1 < n_steps ==> (#[trigger] keys@[t1])@.len() == n,
            rectangular(ages, n_steps as int),
            flags@.len() == t,
            forall|t1: int| 1 <= t1 < t ==> (#[trigger] flags@[t1])@.len() == n,
            forall|t1: int, i: int|
                1 <= t1 < t && 0 <= i < n ==> #[trigger] flags@[t1]@[i] == admitted_at(
                    ages,
                    costs@,
                    target,
                    ks,
                    budget@,
                    t1,
                    i,
                ),
        decreases n_steps - t,
    {
        let mut col: Vec<i64> = Vec::with_capacity(n);
        let mut i: usize = 0;
        while i < n
            invariant
                t < n_steps,
                n == rows@.len(),
                ages == rows_view(rows@),
                rectangular(ages, n_steps as int),
                i <= n,
                col@.len() == i,
                forall|a: int| 0 <= a < i ==> #[trigger] col@[a] == ages[a][t as int],
            decreases n - i,
        {
            assert(ages[i as int] == rows@[i as int]@);
            col.push(rows[i][t]);
            i = i + 1;
        }
        assert(col@ =~= column(ages, t as int));
        let f = admit_step(&col, costs, target, &keys[t], budget[t]);
        flags.push(f);
        t = t + 1;
    }
    let mut out: Vec<Vec<i64>> = Vec::with_capacity(n);
    let mut i: usize = 0;
    while i < n
        invariant
            n == rows@.len() == costs@.len(),
            n_steps >= 1,
            ages == rows_view(rows@),
            ks == keys@.map_values(|k: Vec<u64>| k@),
            rectangular(ages, n_steps as int),
            forall|i1: int, t1: int|
                0 <= i1 < n && 0 <= t1 < n_steps ==> #[trigger] rows@[i1]@[t1] <= i64::MAX - n_steps,
            flags@.len() == n_steps,
            forall|t1: int| 1 <= t1 < n_steps ==> (#[trigger] flags@[t1])@.len() == n,
            forall|t1: int, i1: int|
                1 <= t1 < n_steps && 0 <= i1 < n ==> #[trigger] flags@[t1]@[i1] == admitted_at(
                    ages,
                    costs@,
                    target,
                    ks,
                    budget@,
                    t1,
                    i1,
                ),
            i <= n,
            out@.len() == i,
            forall|a: int| 0 <= a < i ==> (#[trigger] out@[a])@.len() == n_steps,
            forall|a: int, t1: int|
                0 <= a < i && 0 <= t1 < n_steps ==> #[trigger] out@[a]@[t1] == constrained_age(
                    ages,
                    costs@,
                    target,
                    ks,
                    budget@,
                    a,
                    t1,
                ),
        decreases n - i,
    {
        assert(ages[i as int] == rows@[i as int]@);
        let orig = &rows[i];
        let mut row: Vec<i64> = Vec::with_capacity(n_steps);
        let mut prev: i64 = orig[0];
        row.push(prev);
        let mut s: usize = 1;
        while s < n_steps
            invariant
                i < n,
                n == rows@.len(),
                ages == rows_view(rows@),
                orig@ == ages[i as int],
                rectangular(ages, n_steps as int),
                forall|t1: int| 0 <= t1 < n_steps ==> #[trigger] orig@[t1] <= i64::MAX - n_steps,
                flags@.len() == n_steps,
                forall|t1: int| 1 <= t1 < n_steps ==> (#[trigger] flags@[t1])@.len() == n,
                forall|t1: int, i1: int|
                    1 <= t1 < n_steps && 0 <= i1 < n ==> #[trigger] flags@[t1]@[i1] == admitted_at(
                        ages,
                        costs@,
                        target,
                        ks,
                        budget@,
                        t1,
                        i1,
                    ),
                1 <= s <= n_steps,
                row@.len() == s,
                prev == row@[s - 1],
                prev <= i64::MAX - n_steps + s - 1,
                forall|t1: int|
                    0 <= t1 < s ==> #[trigger] row@[t1] == constrained_age(
                        ages,
                        costs@,
                        target,
                        ks,
                        budget@,
                        i as int,
                        t1,
                    ),
            decreases n_steps - s,
        {
            let v = orig[s];
            let next: i64 = if v == target {
                if flags[s][i] {
                    v
                } else {
                    prev + 1
                }
            } else if prev == orig[s - 1] {
                v
            } else {
                prev + 1
            };
            row.push(next);
            prev = next;
            s = s + 1;
        }
        out.push(row);
        i = i + 1;
    }
    out
}

/// Deferral only delays: where each unconstrained row ages by at most one
/// period per step, no constrained age falls below the unconstrained age, and
/// step zero is left as it was.
pub proof fn lemma_deferral_never_advances(
    rows: Seq<Seq<i64>>,
    costs: Seq<i64>,
    target: i64,
    keys: Seq<Seq<u64>>,
    budget: Seq<i64>,
    i: int,
    t: int,
)
    requires
        0 <= i < rows.len(),
        0 <= t < rows[i].len(),
        forall|s: int| 1 <= s < rows[i].len() ==> #[trigger] rows[i][s] <= rows[i][s - 1] + 1,
    ensures
        constrained_age(rows, costs, target, keys, budget, i, t) >= rows[i][t],
        t == 0 ==> constrained_age(rows, costs, target, keys, budget, i, t) == rows[i][0],
    decreases t,
{
    if t > 0 {
        lemma_deferral_never_advances(rows, costs, target, keys, budget, i, t - 1);
    }
}

proof fn lemma_last_admitted(
    values: Seq<i64>,
    costs: Seq<i64>,
    target: i64,
    keys: Seq<u64>,
    budget: i64,
    m: int,
    w: int,
) -> (last: int)
    requires
        0 <= m <= values.len(),
        values.len() == keys.len(),
        0 <= w < m,
        admitted(values, costs, target, keys, budget, w),
    ensures
        0 <= last < m,
        admitted(values, costs, target, keys, budget, last),
        forall|j: int|
            0 <= j < m && #[trigger] admitted(values, costs, target, keys, budget, j) ==> precedes(
                keys,
                j,
                last,
            ),
    decreases m,
{
    if w == m - 1 && !(exists|j: int| 0 <= j < m - 1 && admitted(values, costs, target, keys, budget, j)) {
        m - 1
    } else {
        let w2 = if w < m - 1 {
            w
        } else {
            choose|j: int| 0 <= j < m - 1 && admitted(values, costs, target, keys, budget, j)
        };
        let l = lemma_last_admitted(values, costs, target, keys, budget, m - 1, w2);
        if admitted(values, costs, target, keys, budget, m - 1) && precedes(keys, l, m - 1) {
            m - 1
        } else {
            l
        }
    }
}

proof fn lemma_admitted_cost_below_ahead(
    values: Seq<i64>,
    costs: Seq<i64>,
    target: i64,
    keys: Seq<u64>,
    budget: i64,
    last: int,
    m: int,
)
    requires
        0 <= m <= values.len(),
        values.len() == keys.len() == costs.len(),
        forall|j: int| 0 <= j < costs.len() ==> #[trigger] costs[j] >= 0,
        forall|j: int|
            0 <= j < m && #[trigger] admitted(values, costs, target, keys, budget, j) ==> precedes(
                keys,
                j,
                last,
            ),
    ensures
        admitted_cost(values, costs, target, keys, budget, m) <= demand_ahead(
            values,
            costs,
            target,
            keys,
            last,
            m,
        ),
    decreases m,
{
    if m > 0 {
        lemma_admitted_cost_below_ahead(values, costs, target, keys, budget, last, m - 1);
    }
}

proof fn lemma_demand_ahead_nonneg(
    values: Seq<i64>,
    costs: Seq<i64>,
    target: i64,
    keys: Seq<u64>,
    i: int,
    m: int,
)
    requires
        0 <= m <= costs.len(),
        forall|j: int| 0 <= j < costs.len() ==> #[trigger] costs[j] >= 0,
    ensures
        demand_ahead(values, costs, target, keys, i, m) >= 0,
    decreases m,
{
    if m > 0 {
        lemma_demand_ahead_nonneg(values, costs, target, keys, i, m - 1);
    }
}

proof fn lemma_admitted_cost_zero(
    values: Seq<i64>,
    costs: Seq<i64>,
    target: i64,
    keys: Seq<u64>,
    budget: i64,
    m: int,
)
    requires
        0 <= m <= values.len(),
        forall|j: int| 0 <= j < m ==> !#[trigger] admitted(values, costs, target, keys, budget, j),
    ensures
        admitted_cost(values, costs, target, keys, budget, m) == 0,
    decreases m,
{
    if m > 0 {
        lemma_admitted_cost_zero(values, costs, target, keys, budget, m - 1);
    }
}

/// With non-negative costs, the total cost of the events admitted at a step
/// never exceeds that step's budget (and is zero under a negative budget).
pub proof fn lemma_admitted_within_budget(
    rows: Seq<Seq<i64>>,
    costs: Seq<i64>,
    target: i64,
    keys: Seq<Seq<u64>>,
    budget: Seq<i64>,
    t: int,
)
    requires
        costs.len() == rows.len(),
        0 <= t < keys.len(),
        0 <= t < budget.len(),
        keys[t].len() == rows.len(),
        forall|j: int| 0 <= j < costs.len() ==> #[trigger] costs[j] >= 0,
    ensures
        admitted_cost(column(rows, t), costs, target, keys[t], budget[t], rows.len() as int) <= if budget[t] >= 0 {
            budget[t] as int
        } else {
            0
        },
{
    let values = column(rows, t);
    let n = rows.len() as int;
    if exists|j: int| 0 <= j < n && admitted(values, costs, target, keys[t], budget[t], j) {
        let w = choose|j: int| 0 <= j < n && admitted(values, costs, target, keys[t], budget[t], j);
        let last = lemma_last_admitted(values, costs, target, keys[t], budget[t], n, w);
        lemma_admitted_cost_below_ahead(values, costs, target, keys[t], budget[t], last, n);
        lemma_demand_ahead_nonneg(values, costs, target, keys[t], last, n);
    } else {
        lemma_admitted_cost_zero(values, costs, target, keys[t], budget[t], n);
    }
}

/// `keys` holds one priority key per asset for each step from one on.
pub open spec fn keys_shaped(keys: Seq<Seq<u64>>, n_steps: int, n: int) -> bool {
    &&& keys.len() == n_steps
    &&& forall|t: int| 1 <= t < n_steps ==> (#[trigger] keys[t]).len() == n
}

/// `out` is the unconstrained table `rows` with `budget` enforced under the
/// priority keys `keys`.
pub open spec fn is_constrained(
    out: Seq<Seq<i64>>,
    rows: Seq<Seq<i64>>,
    costs: Seq<i64>,
    target: i64,
    keys: Seq<Seq<u64>>,
    budget: Seq<i64>,
    n_steps: int,
) -> bool {
    &&& out.len() == rows.len()
    &&& rectangular(out, n_steps)
    &&& forall|i: int, t: int|
        0 <= i < rows.len() && 0 <= t < n_steps ==> #[trigger] out[i][t] == constrained_age(
            rows,
            costs,
            target,
            keys,
            budget,
            i,
            t,
        )
}

/// Draws fresh priority keys for every step from one on, one per asset.
fn draw_keys(rng: &mut SmallRng, n_steps: usize, n: usize) -> (r: Vec<Vec<u64>>)
    ensures
        keys_shaped(r@.map_values(|k: Vec<u64>| k@), n_steps as int, n as int),
        forall|t: int| 1 <= t < n_steps ==> (#[trigger] r@[t])@.len() == n,
{
    let mut keys: Vec<Vec<u64>> = Vec::with_capacity(n_steps);
    let mut t: usize = 0;
    while t < n_steps
        invariant
            t <= n_steps,
            keys@.len() == t,
            forall|t1: int| 1 <= t1 < t ==> (#[trigger] keys@[t1])@.len() == n,
        decreases n_steps - t,
    {
        let mut step_keys: Vec<u64> = Vec::new();
        if t >= 1 {
            while step_keys.len() < n
                invariant
                    step_keys@.len() <= n,
                decreases n - step_keys@.len(),
            {
                step_keys.push(next_draw(rng));
            }
        }
        keys.push(step_keys);
        t = t + 1;
    }
    keys
}

/// Copies the rows of a table.
pub(crate) fn copy_rows(rows: &Vec<Vec<i64>>) -> (r: Vec<Vec<i64>>)
    ensures
        rows_view(r@) == rows_view(rows@),
{
    let mut out: Vec<Vec<i64>> = Vec::with_capacity(rows.len());
    let mut i: usize = 0;
    while i < rows.len()
        invariant
            i <= rows@.len(),
            out@.len() == i,
            forall|a: int| 0 <= a < i ==> (#[trigger] out@[a])@ == rows@[a]@,
        decreases rows@.len() - i,
    {
        let row = copy_ages(&rows[i]);
        out.push(row);
        i = i + 1;
    }
    assert(rows_view(out@) =~= rows_view(rows@));
    out
}

/// Copies one row of ages or costs.
pub(crate) fn copy_ages(v: &Vec<i64>) -> (r: Vec<i64>)
    ensures
        r@ == v@,
{
    let mut out: Vec<i64> = Vec::with_capacity(v.len());
    let mut i: usize = 0;
    while i < v.len()
        invariant
            i <= v@.len(),
            out@ == v@.take(i as int),
        decreases v@.len() - i,
    {
        out.push(v[i]);
        i = i + 1;
    }
    assert(v@.take(v@.len() as int) =~= v@);
    out
}

/// Enforces the budget schedule `limit_array` on a run table with attached
/// costs, drawing each step's priority keys from `rng`. The result is a new
/// table with the same run id, step count and costs.
pub fn constrain_event(table: &RunTable, limit_array: &Vec<i64>, target: i64, rng: &mut SmallRng) -> (r: Result<RunTable, SimError>)
    requires
        table.wf(),
        forall|i: int, t: int|
            0 <= i < table.ages().len() && 0 <= t < table.n_steps ==> #[trigger] table.ages()[i][t]
                <= i64::MAX - table.n_steps,
    ensures
        table.costs.is_none() ==> r == Err::<RunTable, SimError>(SimError::MissingCost),
        table.costs.is_some() && limit_array@.len() != table.n_steps ==> r == Err::<RunTable, SimError>(
            SimError::BudgetLengthMismatch,
        ),
        table.costs.is_some() && limit_array@.len() == table.n_steps ==> r.is_ok(),
        r matches Ok(c) ==> {
            &&& c.wf()
            &&& c.run_id == table.run_id
            &&& c.n_steps == table.n_steps
            &&& c.costs matches Some(cc) && cc@ == table.costs->Some_0@
            &&& exists|keys: Seq<Seq<u64>>|
                keys_shaped(keys, table.n_steps as int, table.ages().len() as int)
                    && #[trigger] is_constrained(
                    c.ages(),
                    table.ages(),
                    table.costs->Some_0@,
                    target,
                    keys,
                    limit_array@,
                    table.n_steps as int,
                )
        },
{
    let costs = match &table.costs {
        Some(c) => c,
        None => {
            return Err(SimError::MissingCost);
        },
    };
    if limit_array.len() != table.n_steps {
        return Err(SimError::BudgetLengthMismatch);
    }
    let n = table.rows.len();
    let keys = draw_keys(rng, table.n_steps, n);
    let ghost ks = keys@.map_values(|k: Vec<u64>| k@);
    let rows = if table.n_steps == 0 {
        copy_rows(&table.rows)
    } else {
        proof {
            assert forall|i: int| 0 <= i < table.rows@.len() implies (#[trigger] table.rows@[i])@.len()
                == table.n_steps by {
                assert(table.ages()[i] == table.rows@[i]@);
            }
            assert forall|i: int, t: int|
                0 <= i < table.rows@.len() && 0 <= t < table.n_steps implies #[trigger] table.rows@[i]@[t]
                    <= i64::MAX - table.n_steps by {
                assert(table.ages()[i] == table.rows@[i]@);
            }
        }
        constrain_rows(&table.rows, costs, target, limit_array, &keys, table.n_steps)
    };
    let out = RunTable {
        run_id: table.run_id,
        n_steps: table.n_steps,
        rows,
        costs: Some(copy_ages(costs)),
    };
    assert(is_constrained(out.ages(), table.ages(), costs@, target, ks, limit_array@, table.n_steps as int));
    Ok(out)
}

/// Enforcing a budget is deterministic: given the same table, costs, target,
/// priority keys and budget, any two constrained tables are identical.
pub proof fn lemma_constrained_unique(
    out1: Seq<Seq<i64>>,
    out2: Seq<Seq<i64>>,
    rows: Seq<Seq<i64>>,
    costs: Seq<i64>,
    target: i64,
    keys: Seq<Seq<u64>>,
    budget: Seq<i64>,
    n_steps: int,
)
    requires
        is_constrained(out1, rows, costs, target, keys, budget, n_steps),
        is_constrained(out2, rows, costs, target, keys, budget, n_steps),
    ensures
        out1 == out2,
{
    assert forall|i: int| 0 <= i < out1.len() implies out1[i] == out2[i] by {
        assert(out1[i].len() == n_steps && out2[i].len() == n_steps);
        assert forall|t: int| 0 <= t < n_steps implies out1[i][t] == out2[i][t] by {
            assert(out1[i][t] == constrained_age(rows, costs, target, keys, budget, i, t));
        }
        assert(out1[i] =~= out2[i]);
    }
    assert(out1 =~= out2);
}

} // verus!
