use asset_sim::curve::{SurvivalCurve, SCALE};
use asset_sim::error::SimError;
use asset_sim::run::{execute_event, run_seed};
use asset_sim::sim::{advance, discrete_event, simulate_asset};
use asset_sim::table::transpose;
use ndarray_rand::rand::rngs::SmallRng;
use ndarray_rand::rand::SeedableRng;

fn curve_of(probabilities: &[f64]) -> SurvivalCurve {
    let parts = probabilities
        .iter()
        .map(|p| (p * SCALE as f64).round() as u64)
        .collect::<Vec<u64>>();
    SurvivalCurve::new(parts).unwrap()
}

fn demo_probabilities() -> Vec<f64> {
    vec![
        1.0, 0.99, 0.97, 0.96, 0.95, 0.94, 0.93, 0.92, 0.91, 0.9, 0.88, 0.85, 0.82, 0.8, 0.75, 0.7,
        0.65, 0.6, 0.55, 0.5, 0.4, 0.25, 0.15, 0.1, 0.0,
    ]
}

fn demo_states() -> Vec<i64> {
    (0..100_000i64).map(|i| (i * 7919) % 40).collect()
}

#[test]
fn test_transpose() {
    let test: Vec<Vec<i64>> = vec![vec![1], vec![0], vec![1]];
    let res = transpose(&vec![vec![1, 0, 1]]);

    assert_eq!(test, res);
}

#[test]
fn transpose_of_two_rows() {
    let res = transpose(&vec![vec![1, 2, 3], vec![4, 5, 6]]);
    assert_eq!(res, vec![vec![1, 4], vec![2, 5], vec![3, 6]]);
}

#[test]
fn test_discrete_event() {
    let curve = curve_of(&demo_probabilities());
    let states = demo_states();
    let n_steps: i64 = 5;
    let mut rng = SmallRng::seed_from_u64(7);

    let res = discrete_event(&states, &curve, n_steps, &mut rng);
    assert!(res[0].len() == 100_000);
    assert_eq!(res.len(), 5);
    assert_eq!(res[0], states);
}

#[test]
fn test_execute_event() {
    let curve = curve_of(&demo_probabilities());
    let states = demo_states();
    let out = execute_event(0, &states, &curve, 5, None, None, 0, 11).unwrap();
    assert!(out.table.rows.len() == 100_000);
    assert_eq!(out.table.run_id, 0);
    assert!(out.constrained.is_none());
    assert!(out.table.costs.is_none());
}

#[test]
fn curve_rejects_probability_above_one() {
    assert_eq!(SurvivalCurve::new(vec![SCALE, SCALE + 1]).err(), Some(SimError::InvalidProbability));
    assert!(SurvivalCurve::new(vec![0, SCALE]).is_ok());
}

#[test]
fn survival_lookup_off_curve_is_zero() {
    let curve = curve_of(&[1.0, 0.5]);
    assert_eq!(curve.survival_at(0), SCALE);
    assert_eq!(curve.survival_at(1), SCALE / 2);
    assert_eq!(curve.survival_at(2), 0);
    assert_eq!(curve.survival_at(-1), 0);
}

#[test]
fn advance_compares_top_bits_of_draw() {
    let curve = curve_of(&[1.0, 0.5, 0.0]);
    // Top 32 bits below half of SCALE: survives to age 1.
    assert_eq!(advance(&curve, 0, 0x7fff_ffff_0000_0000), 1);
    // Top 32 bits at half of SCALE: renewed.
    assert_eq!(advance(&curve, 0, 0x8000_0000_0000_0000), 0);
    // Probability zero: renewed whatever the draw.
    assert_eq!(advance(&curve, 1, 0), 0);
    // Past the curve: renewed.
    assert_eq!(advance(&curve, 2, 0), 0);
    assert_eq!(advance(&curve, i64::MAX, 0), 0);
}

#[test]
fn simulate_asset_follows_draws() {
    let curve = curve_of(&[1.0, 1.0, 0.5, 1.0]);
    let low: u64 = 0;
    let high: u64 = u64::MAX;
    let row = simulate_asset(&curve, 0, &vec![low, high, low, low, low]);
    assert_eq!(row, vec![0, 1, 0, 1, 2, 3]);
    // Probability one survives even the highest draw; past the curve resets.
    let row = simulate_asset(&curve, 2, &vec![high, low]);
    assert_eq!(row, vec![2, 3, 0]);
    let row = simulate_asset(&curve, 5, &vec![]);
    assert_eq!(row, vec![5]);
}

#[test]
fn empty_curve_resets_every_asset_at_step_one() {
    let curve = SurvivalCurve::new(vec![]).unwrap();
    let mut rng = SmallRng::seed_from_u64(1);
    let res = discrete_event(&vec![0, 3, 9], &curve, 3, &mut rng);
    assert_eq!(res, vec![vec![0, 3, 9], vec![0, 0, 0], vec![0, 0, 0]]);
}

#[test]
fn discrete_event_without_steps_or_assets() {
    let curve = curve_of(&[1.0]);
    let mut rng = SmallRng::seed_from_u64(1);
    assert!(discrete_event(&vec![1, 2], &curve, 0, &mut rng).is_empty());
    let res = discrete_event(&vec![], &curve, 3, &mut rng);
    assert_eq!(res, vec![Vec::<i64>::new(), vec![], vec![]]);
}

#[test]
fn initial_age_kept_in_every_run() {
    let curve = curve_of(&demo_probabilities());
    let states: Vec<i64> = (0..500i64).map(|i| i % 30).collect();
    for run in 0..20i64 {
        let out = execute_event(run, &states, &curve, 6, None, None, 0, run_seed(99, run)).unwrap();
        for (i, row) in out.table.rows.iter().enumerate() {
            assert_eq!(row[0], states[i]);
            assert_eq!(row.len(), 6);
        }
    }
}

#[test]
fn scenario_a_reset_past_curve() {
    let curve = curve_of(&[1.0, 0.5, 0.0]);
    let states = vec![0, 1, 2];
    for seed in 0..200u64 {
        let mut rng = SmallRng::seed_from_u64(seed);
        let cols = discrete_event(&states, &curve, 3, &mut rng);
        assert_eq!(cols[1][2], 0);
        // Age 1 reaches age 2, whose probability is zero.
        assert_eq!(cols[1][1], 0);
        // Age 0 always reaches age 1 or resets.
        assert!(cols[1][0] == 1 || cols[1][0] == 0);
    }
}

#[test]
fn scenario_c_certain_survival() {
    let curve = curve_of(&[1.0; 10]);
    let states = vec![0i64; 100];
    let out = execute_event(0, &states, &curve, 5, None, None, 0, 5).unwrap();
    for row in &out.table.rows {
        assert_eq!(row, &vec![0, 1, 2, 3, 4]);
    }
}

#[test]
fn fixed_seed_gives_identical_tables() {
    let curve = curve_of(&demo_probabilities());
    let states: Vec<i64> = (0..2_000i64).map(|i| i % 35).collect();
    let costs: Vec<i64> = (0..2_000i64).map(|i| 5_000 + (i * 37) % 10_000).collect();
    let limits = vec![200_000i64; 8];
    let a = execute_event(3, &states, &curve, 8, Some(&costs), Some(&limits), 0, 42).unwrap();
    let b = execute_event(3, &states, &curve, 8, Some(&costs), Some(&limits), 0, 42).unwrap();
    assert_eq!(a.table.rows, b.table.rows);
    assert_eq!(a.constrained.unwrap().rows, b.constrained.unwrap().rows);
}

#[test]
fn run_seed_adds_run_id_wrapping() {
    assert_eq!(run_seed(10, 5), 15);
    assert_eq!(run_seed(u64::MAX, 1), 0);
    assert_eq!(run_seed(0, -1), u64::MAX);
}

#[test]
fn execute_event_input_errors() {
    let curve = curve_of(&[1.0, 0.5]);
    let states = vec![0, 1];
    let costs = vec![1, 2];
    let short_costs = vec![1];
    let limits = vec![5, 5, 5];
    assert_eq!(
        execute_event(0, &states, &curve, 0, None, None, 0, 1).err(),
        Some(SimError::InvalidStepCount)
    );
    let empty = SurvivalCurve::new(vec![]).unwrap();
    assert_eq!(
        execute_event(0, &states, &empty, 3, None, None, 0, 1).err(),
        Some(SimError::EmptyCurve)
    );
    assert!(execute_event(0, &states, &empty, 1, None, None, 0, 1).is_ok());
    assert_eq!(
        execute_event(0, &vec![0, -1], &curve, 3, None, None, 0, 1).err(),
        Some(SimError::InvalidAge)
    );
    assert_eq!(
        execute_event(0, &vec![i64::MAX - 2], &curve, 3, None, None, 0, 1).err(),
        Some(SimError::InvalidAge)
    );
    assert_eq!(
        execute_event(0, &states, &curve, 3, Some(&short_costs), None, 0, 1).err(),
        Some(SimError::CostLengthMismatch)
    );
    assert_eq!(
        execute_event(0, &states, &curve, 3, None, Some(&limits), 0, 1).err(),
        Some(SimError::MissingCost)
    );
    assert_eq!(
        execute_event(0, &states, &curve, 4, Some(&costs), Some(&limits), 0, 1).err(),
        Some(SimError::BudgetLengthMismatch)
    );
    let out = execute_event(0, &states, &curve, 3, Some(&costs), Some(&limits), 0, 1).unwrap();
    assert_eq!(out.table.costs, Some(costs.clone()));
    let constrained = out.constrained.unwrap();
    assert_eq!(constrained.costs, Some(costs));
    assert_eq!(constrained.n_steps, 3);
}
