use vstd::prelude::*;
use ndarray_rand::rand::rngs::SmallRng;
use crate::curve::{survival, SurvivalCurve, SCALE};
use crate::rng::next_draw;
use crate::table::{column, rows_view, transpose};

verus! {

/// Whether an asset of age `age` survives to `age + 1` under the raw draw `draw`:
/// the top 32 bits of the draw, a uniform fraction of `SCALE`, fall below the
/// survival probability of the next age.
pub open spec fn survives(curve: Seq<u64>, age: i64, draw: u64) -> bool {
    (draw as int) / (SCALE as int) < survival(curve, age + 1)
}

/// The age one step later: one more period of ageing, or a renewal to zero.
pub open spec fn next_age(curve: Seq<u64>, age: i64, draw: u64) -> i64 {
    if survives(curve, age, draw) {
        (age + 1) as i64
    } else {
        0
    }
}

/// The ages of one asset over `draws.len() + 1` steps, starting at `initial`,
/// with draw `t - 1` deciding step `t`.
pub open spec fn trajectory(initial: i64, curve: Seq<u64>, draws: Seq<u64>) -> Seq<i64>
    decreases draws.len(),
{
    if draws.len() == 0 {
        seq![initial]
    } else {
        let prev = trajectory(initial, curve, draws.drop_last());
        prev.push(next_age(curve, prev.last(), draws.last()))
    }
}

/// `row` is the trajectory of an asset starting at `initial` under some
/// `n_steps - 1` draws.
pub open spec fn is_trajectory(row: Seq<i64>, initial: i64, curve: Seq<u64>, n_steps: int) -> bool {
    exists|d: Seq<u64>| d.len() == n_steps - 1 && row == trajectory(initial, curve, d)
}

pub proof fn lemma_trajectory_len(initial: i64, curve: Seq<u64>, draws: Seq<u64>)
    ensures
        trajectory(initial, curve, draws).len() == draws.len() + 1,
    decreases draws.len(),
{
    if draws.len() > 0 {
        lemma_trajectory_len(initial, curve, draws.drop_last());
    }
}

/// Each step of a trajectory follows from the one before by `next_age`.
pub proof fn lemma_trajectory_step(initial: i64, curve: Seq<u64>, draws: Seq<u64>, t: int)
    requires
        1 <= t <= draws.len(),
    ensures
        trajectory(initial, curve, draws)[t] == next_age(
            curve,
            trajectory(initial, curve, draws)[t - 1],
            draws[t - 1],
        ),
    decreases draws.len(),
{
    lemma_trajectory_len(initial, curve, draws);
    lemma_trajectory_len(initial, curve, draws.drop_last());
    if t < draws.len() {
        lemma_trajectory_step(initial, curve, draws.drop_last(), t);
    }
}

/// Step zero of every trajectory is the initial age, whatever the draws.
pub proof fn lemma_initial_age_kept(initial: i64, curve: Seq<u64>, draws: Seq<u64>)
    ensures
        trajectory(initial, curve, draws)[0] == initial,
    decreases draws.len(),
{
    lemma_trajectory_len(initial, curve, draws);
    if draws.len() > 0 {
        lemma_trajectory_len(initial, curve, draws.drop_last());
        lemma_initial_age_kept(initial, curve, draws.drop_last());
    }
}

/// An asset whose next age lies beyond the curve is renewed, whatever the draws.
pub proof fn lemma_reset_past_curve(initial: i64, curve: Seq<u64>, draws: Seq<u64>, t: int)
    requires
        1 <= t <= draws.len(),
        trajectory(initial, curve, draws)[t - 1] + 1 >= curve.len(),
    ensures
        trajectory(initial, curve, draws)[t] == 0,
{
    lemma_trajectory_step(initial, curve, draws, t);
}

/// An asset whose next age has probability one keeps ageing, whatever the draws.
pub proof fn lemma_certain_survival_ages(initial: i64, curve: Seq<u64>, draws: Seq<u64>, t: int)
    requires
        1 <= t <= draws.len(),
        curve.len() <= i64::MAX,
        survival(curve, trajectory(initial, curve, draws)[t - 1] + 1) == SCALE,
    ensures
        trajectory(initial, curve, draws)[t] == trajectory(initial, curve, draws)[t - 1] + 1,
{
    lemma_trajectory_step(initial, curve, draws, t);
    let d = draws[t - 1] as int;
    assert(d / (SCALE as int) < SCALE as int) by {
        assert(d < 18446744073709551616);
        assert(18446744073709551616 == (SCALE as int) * (SCALE as int));
        vstd::arithmetic::div_mod::lemma_div_is_ordered(d, 18446744073709551615, SCALE as int);
        vstd::arithmetic::div_mod::lemma_div_by_multiple(SCALE as int, SCALE as int);
    }
}

/// A trajectory from a non-negative initial age has no negative age.
pub proof fn lemma_trajectory_nonneg(initial: i64, curve: Seq<u64>, draws: Seq<u64>)
    requires
        initial >= 0,
        curve.len() <= i64::MAX,
    ensures
        forall|t: int|
            0 <= t < trajectory(initial, curve, draws).len() ==> #[trigger] trajectory(
                initial,
                curve,
                draws,
            )[t] >= 0,
    decreases draws.len(),
{
    lemma_trajectory_len(initial, curve, draws);
    if draws.len() > 0 {
        lemma_trajectory_nonneg(initial, curve, draws.drop_last());
        lemma_trajectory_len(initial, curve, draws.drop_last());
    }
}

/// No age of a trajectory exceeds both its initial age and the last age of the curve.
pub proof fn lemma_trajectory_bounded(initial: i64, curve: Seq<u64>, draws: Seq<u64>, t: int)
    requires
        curve.len() <= i64::MAX,
        0 <= t <= draws.len(),
    ensures
        trajectory(initial, curve, draws)[t] <= initial || trajectory(initial, curve, draws)[t]
            <= curve.len() - 1 || trajectory(initial, curve, draws)[t] == 0,
    decreases t,
{
    lemma_trajectory_len(initial, curve, draws);
    if t == 0 {
        lemma_initial_age_kept(initial, curve, draws);
    } else {
        lemma_trajectory_step(initial, curve, draws, t);
    }
}

/// The age that follows `age` under the raw draw `draw`.
pub fn advance(curve: &SurvivalCurve, age: i64, draw: u64) -> (r: i64)
    requires
        curve.wf(),
    ensures
        r == next_age(curve.parts@, age, draw),
{
    if age == i64::MAX {
        return 0;
    }
    let p = curve.survival_at(age + 1);
    if draw / SCALE < p {
        age + 1
    } else {
        0
    }
}

/// The ages of one asset: `initial`, then one step per draw.
pub fn simulate_asset(curve: &SurvivalCurve, initial: i64, draws: &Vec<u64>) -> (r: Vec<i64>)
    requires
        curve.wf(),
    ensures
        r@ == trajectory(initial, curve.parts@, draws@),
{
    let mut row: Vec<i64> = Vec::new();
    row.push(initial);
    let mut age: i64 = initial;
    let mut i: usize = 0;
    while i < draws.len()
        invariant
            curve.wf(),
            i <= draws@.len(),
            row@ == trajectory(initial, curve.parts@, draws@.subrange(0, i as int)),
            age == row@.last(),
        decreases draws@.len() - i,
    {
        proof {
            lemma_trajectory_len(initial, curve.parts@, draws@.subrange(0, i as int));
        }
        age = advance(curve, age, draws[i]);
        row.push(age);
        assert(draws@.subrange(0, i + 1).drop_last() =~= draws@.subrange(0, i as int));
        i = i + 1;
    }
    assert(draws@.subrange(0, draws@.len() as int) =~= draws@);
    row
}

/// Fills a vector with `n` raw draws from `rng`.
fn draw_vec(rng: &mut SmallRng, n: usize) -> (r: Vec<u64>)
    ensures
        r@.len() == n,
{
    let mut v: Vec<u64> = Vec::with_capacity(n);
    while v.len() < n
        invariant
            v@.len() <= n,
        decreases n - v@.len(),
    {
        v.push(next_draw(rng));
    }
    v
}

/// One row of ages per asset, each a trajectory of `n_steps` ages drawn from `rng`.
pub fn simulate_rows(states: &Vec<i64>, curve: &SurvivalCurve, n_steps: usize, rng: &mut SmallRng) -> (r: Vec<Vec<i64>>)
    requires
        curve.wf(),
        n_steps >= 1,
    ensures
        r@.len() == states@.len(),
        forall|i: int|
            0 <= i < states@.len() ==> is_trajectory(#[trigger] r@[i]@, states@[i], curve.parts@, n_steps as int),
{
    let mut rows: Vec<Vec<i64>> = Vec::with_capacity(states.len());
    let mut i: usize = 0;
    while i < states.len()
        invariant
            curve.wf(),
            n_steps >= 1,
            i <= states@.len(),
            rows@.len() == i,
            forall|k: int|
                0 <= k < i ==> is_trajectory(#[trigger] rows@[k]@, states@[k], curve.parts@, n_steps as int),
        decreases states@.len() - i,
    {
        let draws = draw_vec(rng, n_steps - 1);
        let row = simulate_asset(curve, states[i], &draws);
        rows.push(row);
        assert(rows@[i as int]@ == trajectory(states@[i as int], curve.parts@, draws@));
        i = i + 1;
    }
    rows
}

/// Simulates every asset over `n_steps` steps with draws from `rng`, and
/// returns the table by step: entry `i` of column `t` is asset `i`'s age at
/// step `t`. A step count below one gives no columns.
pub fn discrete_event(states: &Vec<i64>, curve: &SurvivalCurve, n_steps: i64, rng: &mut SmallRng) -> (r: Vec<Vec<i64>>)
    requires
        curve.wf(),
        n_steps <= usize::MAX,
    ensures
        n_steps < 1 ==> r@.len() == 0,
        n_steps >= 1 ==> r@.len() == n_steps,
        forall|t: int| 0 <= t < r@.len() ==> (#[trigger] r@[t])@.len() == states@.len(),
        forall|i: int|
            0 <= i < states@.len() && n_steps >= 1 ==> is_trajectory(
                #[trigger] column(rows_view(r@), i),
                states@[i],
                curve.parts@,
                n_steps as int,
            ),
{
    if n_steps < 1 {
        return Vec::new();
    }
    let steps = n_steps as usize;
    let rows = simulate_rows(states, curve, steps, rng);
    if states.len() == 0 {
        let mut cols: Vec<Vec<i64>> = Vec::with_capacity(steps);
        while cols.len() < steps
            invariant
                cols@.len() <= steps,
                forall|t: int| 0 <= t < cols@.len() ==> (#[trigger] cols@[t])@.len() == 0,
            decreases steps - cols@.len(),
        {
            cols.push(Vec::new());
        }
        return cols;
    }
    proof {
        assert forall|j: int| 0 <= j < rows@.len() implies (#[trigger] rows@[j])@.len() >= rows@[0]@.len() by {
            let d0 = choose|d: Seq<u64>| d.len() == n_steps - 1 && rows@[0]@ == trajectory(states@[0], curve.parts@, d);
            let dj = choose|d: Seq<u64>| d.len() == n_steps - 1 && rows@[j]@ == trajectory(states@[j], curve.parts@, d);
            lemma_trajectory_len(states@[0], curve.parts@, d0);
            lemma_trajectory_len(states@[j], curve.parts@, dj);
        }
        let d0 = choose|d: Seq<u64>| d.len() == n_steps - 1 && rows@[0]@ == trajectory(states@[0], curve.parts@, d);
        lemma_trajectory_len(states@[0], curve.parts@, d0);
    }
    let cols = transpose(&rows);
    proof {
        assert forall|i: int| 0 <= i < states@.len() implies is_trajectory(
            #[trigger] column(rows_view(cols@), i),
            states@[i],
            curve.parts@,
            n_steps as int,
        ) by {
            let d = choose|d: Seq<u64>| d.len() == n_steps - 1 && rows@[i]@ == trajectory(states@[i], curve.parts@, d);
            lemma_trajectory_len(states@[i], curve.parts@, d);
            assert(column(rows_view(cols@), i) =~= rows@[i]@);
        }
    }
    cols
}

/// Step zero of every simulated row is the asset's initial age.
pub proof fn lemma_row_starts_at_initial(row: Seq<i64>, initial: i64, curve: Seq<u64>, n_steps: int)
    requires
        n_steps >= 1,
        is_trajectory(row, initial, curve, n_steps),
    ensures
        row.len() == n_steps,
        row[0] == initial,
{
    let d = choose|d: Seq<u64>| d.len() == n_steps - 1 && row == trajectory(initial, curve, d);
    lemma_trajectory_len(initial, curve, d);
    lemma_initial_age_kept(initial, curve, d);
}

/// In every simulated row, an asset whose next age lies beyond the curve is
/// renewed at that step, whatever was drawn.
pub proof fn lemma_row_resets_past_curve(row: Seq<i64>, initial: i64, curve: Seq<u64>, n_steps: int, t: int)
    requires
        is_trajectory(row, initial, curve, n_steps),
        1 <= t < n_steps,
        row[t - 1] + 1 >= curve.len(),
    ensures
        row[t] == 0,
{
    let d = choose|d: Seq<u64>| d.len() == n_steps - 1 && row == trajectory(initial, curve, d);
    lemma_trajectory_len(initial, curve, d);
    lemma_reset_past_curve(initial, curve, d, t);
}

/// In every simulated row, each age is either one more than the age before or
/// zero, so no row ages by more than one period per step.
pub proof fn lemma_row_ages_by_one(row: Seq<i64>, initial: i64, curve: Seq<u64>, n_steps: int, t: int)
    requires
        is_trajectory(row, initial, curve, n_steps),
        curve.len() <= i64::MAX,
        1 <= t < n_steps,
    ensures
        row[t] == row[t - 1] + 1 || row[t] == 0,
{
    let d = choose|d: Seq<u64>| d.len() == n_steps - 1 && row == trajectory(initial, curve, d);
    lemma_trajectory_len(initial, curve, d);
    lemma_trajectory_step(initial, curve, d, t);
}

} // verus!
