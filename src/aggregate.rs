use vstd::prelude::*;
use crate::error::SimError;
use crate::table::{column, rectangular, rows_view, RunTable};

verus! {

/// The weight of one cell in the event view: one (or the asset's cost) where
/// the age equals the target, else zero.
pub open spec fn event_weight(age: i64, cost: i64, target: i64, apply_cost: bool) -> i64 {
    if age == target {
        if apply_cost {
            cost
        } else {
            1
        }
    } else {
        0
    }
}

/// Sum of the first `m` entries of `s`.
pub open spec fn total(s: Seq<i64>, m: int) -> int
    decreases m,
{
    if m <= 0 {
        0
    } else {
        total(s, m - 1) + s[m - 1]
    }
}

/// Number of the first `m` entries of `s` equal to `v`.
pub open spec fn count_matches(s: Seq<i64>, v: i64, m: int) -> int
    decreases m,
{
    if m <= 0 {
        0
    } else {
        count_matches(s, v, m - 1) + if s[m - 1] == v {
            1int
        } else {
            0
        }
    }
}

/// Sum of `costs[j]` over the first `m` entries `j` of `s` equal to `v`.
pub open spec fn cost_matches(s: Seq<i64>, costs: Seq<i64>, v: i64, m: int) -> int
    decreases m,
{
    if m <= 0 {
        0
    } else {
        cost_matches(s, costs, v, m - 1) + if s[m - 1] == v {
            costs[m - 1] as int
        } else {
            0
        }
    }
}

/// The event view of a table: each cell replaced by its event weight.
pub open spec fn event_view(ages: Seq<Seq<i64>>, costs: Seq<i64>, target: i64, apply_cost: bool) -> Seq<Seq<i64>> {
    Seq::new(
        ages.len(),
        |i: int|
            Seq::new(
                ages[i].len(),
                |t: int|
                    event_weight(
                        ages[i][t],
                        if apply_cost {
                            costs[i]
                        } else {
                            0
                        },
                        target,
                        apply_cost,
                    ),
            ),
    )
}

/// The per-step total of the event view counts the assets at the target age,
/// and, weighted by cost, sums their costs.
pub proof fn lemma_event_totals(
    ages: Seq<Seq<i64>>,
    costs: Seq<i64>,
    target: i64,
    n_steps: int,
    t: int,
    m: int,
)
    requires
        0 <= m <= ages.len(),
        costs.len() == ages.len(),
        rectangular(ages, n_steps),
        0 <= t < n_steps,
    ensures
        total(column(event_view(ages, costs, target, false), t), m) == count_matches(
            column(ages, t),
            target,
            m,
        ),
        total(column(event_view(ages, costs, target, true), t), m) == cost_matches(
            column(ages, t),
            costs,
            target,
            m,
        ),
    decreases m,
{
    if m > 0 {
        lemma_event_totals(ages, costs, target, n_steps, t, m - 1);
        assert(ages[m - 1].len() > t);
    }
}

proof fn lemma_total_bounds(s: Seq<i64>, m: int)
    requires
        0 <= m <= s.len(),
    ensures
        -m * 0x8000_0000_0000_0000 <= total(s, m) <= m * 0x8000_0000_0000_0000,
    decreases m,
{
    if m > 0 {
        lemma_total_bounds(s, m - 1);
    }
}

/// The event view of a run table: one where the age equals `target`, weighted
/// by the asset's cost when `apply_cost` holds, else zero. Weighting by cost
/// needs the cost column.
pub fn convert(table: &RunTable, target: i64, apply_cost: bool) -> (r: Result<Vec<Vec<i64>>, SimError>)
    requires
        table.wf(),
    ensures
        apply_cost && table.costs.is_none() <==> r == Err::<Vec<Vec<i64>>, SimError>(SimError::MissingCost),
        r.is_ok() <==> !(apply_cost && table.costs.is_none()),
        r matches Ok(w) ==> rows_view(w@) == event_view(
            table.ages(),
            table.cost_seq(),
            target,
            apply_cost,
        ),
{
    let ghost cs = table.cost_seq();
    if apply_cost && table.costs.is_none() {
        return Err(SimError::MissingCost);
    }
    let n = table.rows.len();
    let mut out: Vec<Vec<i64>> = Vec::with_capacity(n);
    let mut i: usize = 0;
    while i < n
        invariant
            table.wf(),
            n == table.rows@.len(),
            cs == table.cost_seq(),
            apply_cost ==> table.costs.is_some(),
            i <= n,
            out@.len() == i,
            forall|a: int| 0 <= a < i ==> (#[trigger] out@[a])@ == event_view(table.ages(), cs, target, apply_cost)[a],
        decreases n - i,
    {
        let cost: i64 = if apply_cost {
            match &table.costs {
                Some(c) => c[i],
                None => 0,
            }
        } else {
            0
        };
        assert(table.ages()[i as int] == table.rows@[i as int]@);
        let ghost expect = event_view(table.ages(), cs, target, apply_cost)[i as int];
        let row = &table.rows[i];
        let mut w: Vec<i64> = Vec::with_capacity(row.len());
        let mut t: usize = 0;
        while t < row.len()
            invariant
                t <= row@.len(),
                expect.len() == row@.len(),
                forall|t1: int| 0 <= t1 < row@.len() ==> #[trigger] expect[t1] == event_weight(row@[t1], cost, target, apply_cost),
                w@ =~= expect.take(t as int),
            decreases row@.len() - t,
        {
            let v: i64 = if row[t] == target {
                if apply_cost {
                    cost
                } else {
                    1
                }
            } else {
                0
            };
            w.push(v);
            t = t + 1;
        }
        assert(expect.take(row@.len() as int) =~= expect);
        out.push(w);
        i = i + 1;
    }
    assert(rows_view(out@) =~= event_view(table.ages(), cs, target, apply_cost));
    Ok(out)
}

/// Sums an event view per step: entry `t` is the total of column `t`.
pub fn aggregate_event(weights: &Vec<Vec<i64>>, n_steps: usize) -> (r: Vec<i128>)
    requires
        rectangular(rows_view(weights@), n_steps as int),
    ensures
        r@.len() == n_steps,
        forall|t: int|
            0 <= t < n_steps ==> #[trigger] r@[t] == total(
                column(rows_view(weights@), t),
                weights@.len() as int,
            ),
{
    let ghost rows = rows_view(weights@);
    let n = weights.len();
    let mut sums: Vec<i128> = Vec::with_capacity(n_steps);
    let mut t: usize = 0;
    while t < n_steps
        invariant
            rows == rows_view(weights@),
            n == weights@.len(),
            rectangular(rows, n_steps as int),
            t <= n_steps,
            sums@.len() == t,
            forall|t1: int| 0 <= t1 < t ==> #[trigger] sums@[t1] == total(column(rows, t1), n as int),
        decreases n_steps - t,
    {
        let ghost col = column(rows, t as int);
        let mut acc: i128 = 0;
        let mut i: usize = 0;
        while i < n
            invariant
                rows == rows_view(weights@),
                n == weights@.len(),
                rectangular(rows, n_steps as int),
                t < n_steps,
                col == column(rows, t as int),
                i <= n,
                acc == total(col, i as int),
            decreases n - i,
        {
            proof {
                lemma_total_bounds(col, i as int);
            }
            assert(rows[i as int] == weights@[i as int]@);
            acc = acc + weights[i][t] as i128;
            i = i + 1;
        }
        sums.push(acc);
        t = t + 1;
    }
    sums
}

} // verus!
