use vstd::prelude::*;
use crate::curve::SurvivalCurve;
use crate::error::SimError;
use crate::rng::seeded_rng;
use crate::schedule::{
    constrain_event, constrained_age, copy_ages, is_constrained, keys_shaped,
    lemma_deferral_never_advances,
};
use crate::sim::{
    is_trajectory, lemma_row_ages_by_one, lemma_trajectory_nonneg, lemma_trajectory_bounded, lemma_trajectory_len,
    simulate_rows, trajectory,
};
use crate::table::{rectangular, RunTable};

verus! {

/// Number of runs executed together in one batch unless asked otherwise.
pub const DEFAULT_BATCH_SIZE: i64 = 100;

/// The result of one run: its table, and the constrained table when a budget
/// schedule was given.
pub struct RunOutput {
    pub table: RunTable,
    pub constrained: Option<RunTable>,
}

pub open spec fn opt_view(o: Option<&Vec<i64>>) -> Option<Seq<i64>> {
    match o {
        Some(v) => Some(v@),
        None => None,
    }
}

/// An initial age that leaves room for `n_steps` more periods of ageing.
pub open spec fn valid_age(age: i64, n_steps: int) -> bool {
    0 <= age <= i64::MAX - n_steps
}

/// The first reason, if any, for which a run's inputs are refused.
pub open spec fn input_error(
    states: Seq<i64>,
    curve_len: int,
    n_steps: int,
    costs: Option<Seq<i64>>,
    limits: Option<Seq<i64>>,
) -> Option<SimError> {
    if n_steps < 1 || n_steps > usize::MAX || n_steps + curve_len > i64::MAX + 1 {
        Some(SimError::InvalidStepCount)
    } else if curve_len == 0 && n_steps > 1 {
        Some(SimError::EmptyCurve)
    } else if exists|i: int| 0 <= i < states.len() && !valid_age(#[trigger] states[i], n_steps) {
        Some(SimError::InvalidAge)
    } else if costs.is_some() && costs.unwrap().len() != states.len() {
        Some(SimError::CostLengthMismatch)
    } else if limits.is_some() && costs.is_none() {
        Some(SimError::MissingCost)
    } else if limits.is_some() && limits.unwrap().len() != n_steps {
        Some(SimError::BudgetLengthMismatch)
    } else {
        None
    }
}

/// The seed of run `run_id` under the top-level seed `seed`.
pub fn run_seed(seed: u64, run_id: i64) -> (r: u64)
    ensures
        r == (seed as int + run_id as u64 as int) % 0x1_0000_0000_0000_0000,
{
    seed.wrapping_add(run_id as u64)
}

/// Executes one run: validates the inputs, simulates every asset over
/// `n_steps` steps from a generator seeded with `seed`, attaches the run id and
/// the costs, and, when a budget schedule is given, enforces it on the result
/// with priority keys drawn from the same generator.
pub fn execute_event(
    run_id: i64,
    states: &Vec<i64>,
    curve: &SurvivalCurve,
    n_steps: i64,
    costs: Option<&Vec<i64>>,
    limit_array: Option<&Vec<i64>>,
    target: i64,
    seed: u64,
) -> (r: Result<RunOutput, SimError>)
    requires
        curve.wf(),
    ensures
        input_error(states@, curve.parts@.len() as int, n_steps as int, opt_view(costs), opt_view(limit_array))
            matches Some(e) ==> r == Err::<RunOutput, SimError>(e),
        input_error(states@, curve.parts@.len() as int, n_steps as int, opt_view(costs), opt_view(limit_array))
            is None ==> r is Ok,
        r matches Ok(out) ==> {
            &&& out.table.wf()
            &&& out.table.run_id == run_id
            &&& out.table.n_steps == n_steps
            &&& out.table.rows@.len() == states@.len()
            &&& forall|i: int|
                0 <= i < states@.len() ==> is_trajectory(
                    #[trigger] out.table.ages()[i],
                    states@[i],
                    curve.parts@,
                    n_steps as int,
                )
            &&& opt_view(costs) == match out.table.costs {
                Some(c) => Some(c@),
                None => None::<Seq<i64>>,
            }
            &&& out.constrained.is_some() == limit_array.is_some()
            &&& out.constrained matches Some(c) ==> {
                &&& c.wf()
                &&& c.run_id == run_id
                &&& c.n_steps == n_steps
                &&& c.costs matches Some(cc) && opt_view(costs) == Some(cc@)
                &&& exists|keys: Seq<Seq<u64>>|
                    keys_shaped(keys, n_steps as int, states@.len() as int) && #[trigger] is_constrained(
                        c.ages(),
                        out.table.ages(),
                        c.cost_seq(),
                        target,
                        keys,
                        limit_array->Some_0@,
                        n_steps as int,
                    )
            }
        },
{
    if n_steps < 1 || n_steps as u64 > usize::MAX as u64 || n_steps as i128 + curve.len() as i128
        > i64::MAX as i128 + 1 {
        return Err(SimError::InvalidStepCount);
    }
    if curve.len() == 0 && n_steps > 1 {
        return Err(SimError::EmptyCurve);
    }
    let mut i: usize = 0;
    while i < states.len()
        invariant
            1 <= n_steps <= usize::MAX,
            n_steps + curve.parts@.len() <= i64::MAX + 1,
            !(curve.parts@.len() == 0 && n_steps > 1),
            i <= states@.len(),
            forall|k: int| 0 <= k < i ==> 0 <= #[trigger] states@[k] <= i64::MAX - n_steps,
        decreases states@.len() - i,
    {
        if states[i] < 0 || states[i] > i64::MAX - n_steps {
            assert(!valid_age(states@[i as int], n_steps as int));
            assert(!(n_steps < 1 || n_steps > usize::MAX || n_steps + curve.parts@.len() > i64::MAX + 1));
            assert(!(curve.parts@.len() == 0 && n_steps > 1));
            return Err(SimError::InvalidAge);
        }
        i = i + 1;
    }
    let cost_copy = match costs {
        Some(c) => {
            if c.len() != states.len() {
                return Err(SimError::CostLengthMismatch);
            }
            Some(copy_ages(c))
        },
        None => None,
    };
    if limit_array.is_some() && costs.is_none() {
        return Err(SimError::MissingCost);
    }
    match limit_array {
        Some(l) => {
            if l.len() as u64 != n_steps as u64 {
                return Err(SimError::BudgetLengthMismatch);
            }
        },
        None => {},
    }
    let steps = n_steps as usize;
    let mut rng = seeded_rng(seed);
    let rows = simulate_rows(states, curve, steps, &mut rng);
    let table = RunTable { run_id, n_steps: steps, rows, costs: cost_copy };
    proof {
        assert forall|k: int| 0 <= k < states@.len() implies (#[trigger] table.ages()[k]).len() == steps by {
            assert(is_trajectory(table.rows@[k]@, states@[k], curve.parts@, steps as int));
            let d = choose|d: Seq<u64>| d.len() == steps - 1 && table.rows@[k]@ == trajectory(states@[k], curve.parts@, d);
            lemma_trajectory_len(states@[k], curve.parts@, d);
        }
        assert(table.ages().len() == states@.len());
        assert(rectangular(table.ages(), steps as int));
        assert(table.wf());
    }
    let constrained = match limit_array {
        Some(l) => {
            proof {
                assert forall|k: int, t: int|
                    0 <= k < table.ages().len() && 0 <= t < table.n_steps implies #[trigger] table.ages()[k][t]
                        <= i64::MAX - table.n_steps by {
                    assert(is_trajectory(table.rows@[k]@, states@[k], curve.parts@, steps as int));
            let d = choose|d: Seq<u64>| d.len() == steps - 1 && table.rows@[k]@ == trajectory(states@[k], curve.parts@, d);
                    lemma_trajectory_len(states@[k], curve.parts@, d);
                    lemma_trajectory_bounded(states@[k], curve.parts@, d, t);
                }
            }
            match constrain_event(&table, l, target, &mut rng) {
                Ok(c) => {
                    assert(c.cost_seq() == table.costs->Some_0@);
                    Some(c)
                },
                Err(e) => {
                    return Err(e);
                },
            }
        },
        None => None,
    };
    let out = RunOutput { table, constrained };
    proof {
        assert forall|k: int| 0 <= k < states@.len() implies is_trajectory(
            #[trigger] out.table.ages()[k],
            states@[k],
            curve.parts@,
            n_steps as int,
        ) by {
            assert(out.table.ages()[k] == out.table.rows@[k]@);
        }
    }
    Ok(out)
}

/// One batch: the run ids `start .. start + size`.
pub struct Batch {
    pub start: i64,
    pub size: i64,
}

/// Splits the run ids `0 .. n_sims` into consecutive batches of `batch_size`,
/// the last of which may be smaller. Runs of one batch go together; batches go
/// one after another.
pub fn batch_plan(n_sims: i64, batch_size: i64) -> (r: Vec<Batch>)
    requires
        batch_size >= 1,
    ensures
        n_sims <= 0 ==> r@.len() == 0,
        n_sims > 0 ==> r@.len() > 0 && r@[0].start == 0 && r@.last().start + r@.last().size == n_sims,
        forall|k: int| 0 <= k < r@.len() ==> 1 <= (#[trigger] r@[k]).size <= batch_size,
        forall|k: int| 0 <= k < r@.len() - 1 ==> (#[trigger] r@[k]).size == batch_size,
        forall|k: int|
            0 < k < r@.len() ==> (#[trigger] r@[k]).start == r@[k - 1].start + r@[k - 1].size,
{
    let mut plan: Vec<Batch> = Vec::new();
    let mut start: i64 = 0;
    while start < n_sims
        invariant
            batch_size >= 1,
            0 <= start,
            n_sims > 0 ==> start <= n_sims,
            n_sims <= 0 ==> start == 0,
            start == 0 <==> plan@.len() == 0,
            plan@.len() > 0 ==> plan@.last().start + plan@.last().size == start,
            plan@.len() > 0 ==> plan@[0].start == 0,
            forall|k: int| 0 <= k < plan@.len() ==> 1 <= (#[trigger] plan@[k]).size <= batch_size,
            forall|k: int| 0 <= k < plan@.len() - 1 ==> (#[trigger] plan@[k]).size == batch_size,
            plan@.len() > 0 && start < n_sims ==> plan@.last().size == batch_size,
            forall|k: int|
                0 < k < plan@.len() ==> (#[trigger] plan@[k]).start == plan@[k - 1].start + plan@[k - 1].size,
        decreases n_sims - start,
    {
        let left = n_sims - start;
        let size = if left < batch_size {
            left
        } else {
            batch_size
        };
        plan.push(Batch { start, size });
        start = start + size;
    }
    plan
}

/// On the tables a run simulates, enforcing a budget never leaves an asset
/// younger at any step than it was without the budget.
pub proof fn lemma_run_deferral_never_advances(
    rows: Seq<Seq<i64>>,
    states: Seq<i64>,
    curve: Seq<u64>,
    n_steps: int,
    costs: Seq<i64>,
    target: i64,
    keys: Seq<Seq<u64>>,
    budget: Seq<i64>,
    i: int,
    t: int,
)
    requires
        curve.len() <= i64::MAX,
        rows.len() == states.len(),
        forall|k: int| 0 <= k < states.len() ==> #[trigger] states[k] >= 0,
        forall|k: int| 0 <= k < rows.len() ==> is_trajectory(#[trigger] rows[k], states[k], curve, n_steps),
        0 <= i < rows.len(),
        0 <= t < n_steps,
    ensures
        constrained_age(rows, costs, target, keys, budget, i, t) >= rows[i][t],
{
    assert(is_trajectory(rows[i], states[i], curve, n_steps));
    let d = choose|d: Seq<u64>| d.len() == n_steps - 1 && rows[i] == trajectory(states[i], curve, d);
    lemma_trajectory_len(states[i], curve, d);
    lemma_trajectory_nonneg(states[i], curve, d);
    assert forall|s: int| 1 <= s < rows[i].len() implies #[trigger] rows[i][s] <= rows[i][s - 1] + 1 by {
        lemma_row_ages_by_one(rows[i], states[i], curve, n_steps, s);
        assert(rows[i][s - 1] >= 0);
    }
    lemma_deferral_never_advances(rows, costs, target, keys, budget, i, t);
}

/// One reduction over all runs: whether it sums costs, and whether it reads
/// the constrained tables rather than the unconstrained ones.
pub struct AggregationPass {
    pub apply_cost: bool,
    pub constrained: bool,
}

/// The reductions to make once every batch is done: one over the unconstrained
/// tables, summing costs when costs were given, and, when a budget schedule
/// was enforced as well, one with costs over the constrained tables.
pub fn aggregation_passes(has_costs: bool, has_budget: bool) -> (r: Vec<AggregationPass>)
    ensures
        r@.len() == if has_costs && has_budget {
            2int
        } else {
            1int
        },
        r@[0].apply_cost == has_costs && !r@[0].constrained,
        r@.len() == 2 ==> r@[1].apply_cost && r@[1].constrained,
{
    let mut passes: Vec<AggregationPass> = Vec::new();
    passes.push(AggregationPass { apply_cost: has_costs, constrained: false });
    if has_costs && has_budget {
        passes.push(AggregationPass { apply_cost: true, constrained: true });
    }
    passes
}

} // verus!
