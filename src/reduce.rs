use vstd::prelude::*;
use crate::aggregate::{aggregate_event, convert, cost_matches, count_matches, event_view, lemma_event_totals};
use crate::error::SimError;
use crate::profile::{count_values, RunProfile};
use crate::table::{column, rectangular, RunTable};

verus! {

/// The per-step reductions of one run.
pub struct RunSummary {
    pub run_id: i64,
    pub n_steps: usize,
    /// Number of assets at the target age, per step.
    pub events: Vec<i128>,
    /// Summed cost of the assets at the target age, per step, when asked for.
    pub costs: Option<Vec<i128>>,
    pub profile: RunProfile,
}

impl RunSummary {
    pub open spec fn wf(&self) -> bool {
        &&& self.events@.len() == self.n_steps
        &&& self.costs matches Some(c) ==> c@.len() == self.n_steps
        &&& self.profile.by_step@.len() == self.n_steps
        &&& forall|t: int|
            0 <= t < self.n_steps ==> (#[trigger] self.profile.by_step@[t])@.len()
                == self.profile.values@.len()
    }
}

/// One row of a cross-run aggregate: a run id and one value per step.
pub struct AggregateRow {
    pub run_id: i64,
    pub values: Vec<i128>,
}

/// One row of the cross-run age profile: the count of assets of age `value`
/// at each step of run `run_id`.
pub struct ProfileRow {
    pub run_id: i64,
    pub value: i64,
    pub counts: Vec<u64>,
}

impl ProfileRow {
    pub open spec fn view(&self) -> (i64, i64, Seq<u64>) {
        (self.run_id, self.value, self.counts@)
    }
}

/// The cross-run artifacts: event counts, cost sums (when asked for) and age
/// profiles, with one block of rows per run in input order.
pub struct Aggregates {
    pub events: Vec<AggregateRow>,
    pub costs: Option<Vec<AggregateRow>>,
    pub profile: Vec<ProfileRow>,
}

/// The profile rows of one run: one per observed age, ascending.
pub open spec fn profile_rows(p: RunProfile) -> Seq<(i64, i64, Seq<u64>)> {
    Seq::new(
        p.values@.len(),
        |k: int| (p.run_id, p.values@[k], Seq::new(p.by_step@.len(), |t: int| p.by_step@[t]@[k])),
    )
}

/// The profile rows of the first `m` runs, stacked in order.
pub open spec fn stacked_profiles(s: Seq<RunSummary>, m: int) -> Seq<(i64, i64, Seq<u64>)>
    decreases m,
{
    if m <= 0 {
        Seq::empty()
    } else {
        stacked_profiles(s, m - 1) + profile_rows(s[m - 1].profile)
    }
}

fn copy_sums(v: &Vec<i128>) -> (r: Vec<i128>)
    ensures
        r@ == v@,
{
    let mut out: Vec<i128> = Vec::with_capacity(v.len());
    let mut i: usize = 0;
    while i < v.len()
        invariant
            i <= v@.len(),
            out@ == v@.take(i as int),
        decreases v@.len() - i,
    {
        out.push(v[i]);
        i = i + 1;
    }
    assert(v@.take(v@.len() as int) =~= v@);
    out
}

/// Reduces one run: event counts per step, cost sums per step when
/// `apply_cost` holds (which needs the cost column), and the age profile.
pub fn summarize_run(table: &RunTable, target: i64, apply_cost: bool) -> (r: Result<RunSummary, SimError>)
    requires
        table.wf(),
    ensures
        r is Err <==> apply_cost && table.costs.is_none(),
        r matches Err(e) ==> e == SimError::MissingCost,
        r matches Ok(s) ==> {
            &&& s.wf()
            &&& s.run_id == table.run_id
            &&& s.n_steps == table.n_steps
            &&& forall|t: int|
                0 <= t < table.n_steps ==> #[trigger] s.events@[t] == count_matches(
                    column(table.ages(), t),
                    target,
                    table.rows@.len() as int,
                )
            &&& s.costs.is_some() == apply_cost
            &&& s.costs matches Some(c) ==> forall|t: int|
                0 <= t < table.n_steps ==> #[trigger] c@[t] == cost_matches(
                    column(table.ages(), t),
                    table.cost_seq(),
                    target,
                    table.rows@.len() as int,
                )
            &&& s.profile.run_id == table.run_id
            &&& s.profile.profiles(table.ages(), table.n_steps as int)
        },
{
    if apply_cost && table.costs.is_none() {
        return Err(SimError::MissingCost);
    }
    let ghost ages = table.ages();
    let ghost cs = table.cost_seq();
    let ghost n = table.rows@.len() as int;
    let ghost w = table.n_steps as int;
    proof {
        assert(rectangular(event_view(ages, cs, target, false), w));
        assert(rectangular(event_view(ages, cs, target, true), w));
        assert forall|t: int| 0 <= t < w implies total_is_count(ages, cs, target, w, t) by {
            lemma_event_totals(ages, cs, target, w, t, n);
        }
    }
    let counts = match convert(table, target, false) {
        Ok(v) => v,
        Err(e) => {
            return Err(e);
        },
    };
    let events = aggregate_event(&counts, table.n_steps);
    let costs = if apply_cost {
        match convert(table, target, true) {
            Ok(v) => Some(aggregate_event(&v, table.n_steps)),
            Err(e) => {
                return Err(e);
            },
        }
    } else {
        None
    };
    let profile = count_values(table);
    assert forall|t: int| 0 <= t < w implies #[trigger] events@[t] == count_matches(column(ages, t), target, n) by {
        assert(total_is_count(ages, cs, target, w, t));
    }
    proof {
        if apply_cost {
            let c = costs->Some_0;
            assert forall|t: int| 0 <= t < w implies #[trigger] c@[t] == cost_matches(column(ages, t), cs, target, n) by {
                assert(total_is_count(ages, cs, target, w, t));
            }
        }
    }
    Ok(RunSummary { run_id: table.run_id, n_steps: table.n_steps, events, costs, profile })
}

/// Both per-step totals of the event view at step `t` match their counts.
pub open spec fn total_is_count(ages: Seq<Seq<i64>>, costs: Seq<i64>, target: i64, n_steps: int, t: int) -> bool {
    &&& crate::aggregate::total(column(event_view(ages, costs, target, false), t), ages.len() as int)
        == count_matches(column(ages, t), target, ages.len() as int)
    &&& crate::aggregate::total(column(event_view(ages, costs, target, true), t), ages.len() as int)
        == cost_matches(column(ages, t), costs, target, ages.len() as int)
}

/// Row-stacks the age profiles of the runs: for each run in order, one row per
/// observed age, ascending, with that age's count at every step.
pub fn something(summaries: &Vec<RunSummary>) -> (r: Vec<ProfileRow>)
    requires
        forall|j: int| 0 <= j < summaries@.len() ==> (#[trigger] summaries@[j]).wf(),
    ensures
        r@.map_values(|row: ProfileRow| row.view()) == stacked_profiles(
            summaries@,
            summaries@.len() as int,
        ),
{
    let mut out: Vec<ProfileRow> = Vec::new();
    let mut j: usize = 0;
    while j < summaries.len()
        invariant
            forall|j1: int| 0 <= j1 < summaries@.len() ==> (#[trigger] summaries@[j1]).wf(),
            j <= summaries@.len(),
            out@.map_values(|row: ProfileRow| row.view()) == stacked_profiles(summaries@, j as int),
        decreases summaries@.len() - j,
    {
        let p = &summaries[j].profile;
        let ghost rows = profile_rows(*p);
        let ghost base = stacked_profiles(summaries@, j as int);
        let n_steps = summaries[j].n_steps;
        assert(summaries@[j as int].wf());
        let mut k: usize = 0;
        while k < p.values.len()
            invariant
                summaries@[j as int].wf(),
                *p == summaries@[j as int].profile,
                n_steps == summaries@[j as int].n_steps,
                rows == profile_rows(*p),
                k <= p.values@.len(),
                out@.map_values(|row: ProfileRow| row.view()) == base + rows.take(k as int),
            decreases p.values@.len() - k,
        {
            let mut counts: Vec<u64> = Vec::with_capacity(n_steps);
            let mut t: usize = 0;
            while t < n_steps
                invariant
                    summaries@[j as int].wf(),
                    *p == summaries@[j as int].profile,
                    n_steps == summaries@[j as int].n_steps,
                    k < p.values@.len(),
                    t <= n_steps,
                    counts@ =~= Seq::new(t as nat, |t1: int| p.by_step@[t1]@[k as int]),
                decreases n_steps - t,
            {
                assert(p.by_step@[t as int]@.len() == p.values@.len());
                counts.push(p.by_step[t][k]);
                t = t + 1;
            }
            let ghost before = out@;
            out.push(ProfileRow { run_id: p.run_id, value: p.values[k], counts });
            assert(out@.map_values(|row: ProfileRow| row.view()) =~= before.map_values(
                |row: ProfileRow| row.view(),
            ).push(rows[k as int]));
            assert(rows.take(k + 1) =~= rows.take(k as int).push(rows[k as int]));
            k = k + 1;
        }
        assert(rows.take(p.values@.len() as int) =~= rows);
        j = j + 1;
    }
    out
}

/// Row-stacks the reductions of all runs into the cross-run artifacts. Every
/// run must have the step count of the first, and each must carry cost sums
/// when `apply_cost` asks for them.
pub fn aggregate(summaries: &Vec<RunSummary>, apply_cost: bool) -> (r: Result<Aggregates, SimError>)
    requires
        forall|j: int| 0 <= j < summaries@.len() ==> (#[trigger] summaries@[j]).wf(),
    ensures
        (exists|j: int|
            0 <= j < summaries@.len() && (#[trigger] summaries@[j]).n_steps != summaries@[0].n_steps)
            ==> r == Err::<Aggregates, SimError>(SimError::StepCountMismatch),
        (forall|j: int|
            0 <= j < summaries@.len() ==> (#[trigger] summaries@[j]).n_steps == summaries@[0].n_steps)
            && apply_cost && (exists|j: int|
            0 <= j < summaries@.len() && (#[trigger] summaries@[j]).costs.is_none())
            ==> r == Err::<Aggregates, SimError>(SimError::MissingCost),
        r is Ok <==> (forall|j: int|
            0 <= j < summaries@.len() ==> (#[trigger] summaries@[j]).n_steps == summaries@[0].n_steps
                && (apply_cost ==> summaries@[j].costs.is_some())),
        r matches Ok(a) ==> {
            &&& a.events@.len() == summaries@.len()
            &&& forall|j: int|
                0 <= j < summaries@.len() ==> (#[trigger] a.events@[j]).run_id == summaries@[j].run_id
                    && a.events@[j].values@ == summaries@[j].events@
            &&& a.costs.is_some() == apply_cost
            &&& a.costs matches Some(c) ==> c@.len() == summaries@.len() && forall|j: int|
                0 <= j < summaries@.len() ==> (#[trigger] c@[j]).run_id == summaries@[j].run_id
                    && c@[j].values@ == summaries@[j].costs->Some_0@
            &&& a.profile@.map_values(|row: ProfileRow| row.view()) == stacked_profiles(
                summaries@,
                summaries@.len() as int,
            )
        },
{
    let n = summaries.len();
    let mut j: usize = 0;
    while j < n
        invariant
            n == summaries@.len(),
            j <= n,
            forall|j1: int| 0 <= j1 < j ==> (#[trigger] summaries@[j1]).n_steps == summaries@[0].n_steps,
        decreases n - j,
    {
        if summaries[j].n_steps != summaries[0].n_steps {
            return Err(SimError::StepCountMismatch);
        }
        j = j + 1;
    }
    let mut events: Vec<AggregateRow> = Vec::with_capacity(n);
    let mut costs: Vec<AggregateRow> = Vec::new();
    let mut j: usize = 0;
    while j < n
        invariant
            n == summaries@.len(),
            j <= n,
            forall|j1: int| 0 <= j1 < n ==> (#[trigger] summaries@[j1]).n_steps == summaries@[0].n_steps,
            events@.len() == j,
            forall|j1: int|
                0 <= j1 < j ==> (#[trigger] events@[j1]).run_id == summaries@[j1].run_id
                    && events@[j1].values@ == summaries@[j1].events@,
            apply_cost ==> costs@.len() == j,
            apply_cost ==> forall|j1: int| 0 <= j1 < j ==> (#[trigger] summaries@[j1]).costs.is_some(),
            apply_cost ==> forall|j1: int|
                0 <= j1 < j ==> (#[trigger] costs@[j1]).run_id == summaries@[j1].run_id
                    && costs@[j1].values@ == summaries@[j1].costs->Some_0@,
        decreases n - j,
    {
        let s = &summaries[j];
        events.push(AggregateRow { run_id: s.run_id, values: copy_sums(&s.events) });
        if apply_cost {
            match &s.costs {
                Some(c) => {
                    costs.push(AggregateRow { run_id: s.run_id, values: copy_sums(c) });
                },
                None => {
                    return Err(SimError::MissingCost);
                },
            }
        }
        j = j + 1;
    }
    let profile = something(summaries);
    Ok(Aggregates { events, costs: if apply_cost { Some(costs) } else { None }, profile })
}

} // verus!
