use asset_sim::curve::{SurvivalCurve, SCALE};
use asset_sim::error::SimError;
use asset_sim::run::execute_event;
use asset_sim::schedule::{admit_step, constrain_event, constrain_rows};
use asset_sim::table::RunTable;
use ndarray_rand::rand::rngs::SmallRng;
use ndarray_rand::rand::SeedableRng;

fn curve_of(probabilities: &[f64]) -> SurvivalCurve {
    let parts = probabilities
        .iter()
        .map(|p| (p * SCALE as f64).round() as u64)
        .collect::<Vec<u64>>();
    SurvivalCurve::new(parts).unwrap()
}

#[test]
fn admit_step_follows_priority_order() {
    // Order by key descending: asset 1 (cost 4, total 4), asset 2 (cost 3,
    // total 7), asset 0 (cost 5, total 12). Asset 3 shows no event.
    let flags = admit_step(&vec![0, 0, 0, 5], &vec![5, 4, 3, 9], 0, &vec![1, 3, 2, 0], 7);
    assert_eq!(flags, vec![false, true, true, false]);
}

#[test]
fn admit_step_ties_go_by_position() {
    let flags = admit_step(&vec![0, 0, 0], &vec![2, 2, 2], 0, &vec![5, 5, 5], 4);
    assert_eq!(flags, vec![true, true, false]);
}

#[test]
fn admit_step_zero_budget_admits_only_free_events() {
    let flags = admit_step(&vec![0, 0, 3], &vec![0, 1, 0], 0, &vec![9, 8, 7], 0);
    assert_eq!(flags, vec![true, false, false]);
    let none = admit_step(&vec![], &vec![], 0, &vec![], 0);
    assert!(none.is_empty());
}

#[test]
fn admitted_cost_stays_within_budget() {
    let values: Vec<i64> = (0..200i64).map(|i| if i % 3 == 0 { 0 } else { i }).collect();
    let costs: Vec<i64> = (0..200i64).map(|i| 10 + (i * 13) % 50).collect();
    let keys: Vec<u64> = (0..200u64).map(|i| i.wrapping_mul(0x9e37_79b9_7f4a_7c15)).collect();
    for budget in [0i64, 35, 400, 1_000, 100_000] {
        let flags = admit_step(&values, &costs, 0, &keys, budget);
        let spent: i64 = (0..200).filter(|&i| flags[i]).map(|i| costs[i]).sum();
        assert!(spent <= budget);
        for i in 0..200 {
            if flags[i] {
                assert_eq!(values[i], 0);
            }
        }
    }
}

#[test]
fn constrain_rows_defers_and_keeps_ageing() {
    // Asset 0 renews at step 1 and step 4; asset 1 at step 1.
    let rows = vec![vec![5, 0, 1, 2, 0], vec![3, 0, 1, 2, 3]];
    let costs = vec![10, 4];
    // Step 1 admits only 4: asset 1 (higher key) goes first.
    let budget = vec![0, 4, 0, 0, 100];
    let keys = vec![vec![], vec![1, 2], vec![1, 2], vec![1, 2], vec![1, 2]];
    let out = constrain_rows(&rows, &costs, 0, &budget, &keys, 5);
    assert_eq!(out, vec![vec![5, 6, 7, 8, 0], vec![3, 0, 1, 2, 3]]);
}

#[test]
fn constrain_rows_deferred_event_at_next_reset() {
    let rows = vec![vec![2, 0, 1, 0, 1]];
    let costs = vec![7];
    let budget = vec![0, 0, 0, 0, 0];
    let keys = vec![vec![], vec![1], vec![1], vec![1], vec![1]];
    let out = constrain_rows(&rows, &costs, 0, &budget, &keys, 5);
    assert_eq!(out, vec![vec![2, 3, 4, 5, 6]]);
    let budget = vec![0, 0, 0, 7, 0];
    let out = constrain_rows(&rows, &costs, 0, &budget, &keys, 5);
    assert_eq!(out, vec![vec![2, 3, 4, 0, 1]]);
}

#[test]
fn constrain_event_errors() {
    let table = RunTable { run_id: 1, n_steps: 2, rows: vec![vec![0, 0]], costs: None };
    let mut rng = SmallRng::seed_from_u64(3);
    assert_eq!(constrain_event(&table, &vec![1, 1], 0, &mut rng).err(), Some(SimError::MissingCost));
    let table = RunTable { run_id: 1, n_steps: 2, rows: vec![vec![0, 0]], costs: Some(vec![3]) };
    assert_eq!(
        constrain_event(&table, &vec![1], 0, &mut rng).err(),
        Some(SimError::BudgetLengthMismatch)
    );
    let out = constrain_event(&table, &vec![1, 1], 0, &mut rng).unwrap();
    assert_eq!(out.rows, vec![vec![0, 1]]);
    assert_eq!(out.run_id, 1);
    assert_eq!(out.costs, Some(vec![3]));
    let out = constrain_event(&table, &vec![0, 3], 0, &mut rng).unwrap();
    assert_eq!(out.rows, vec![vec![0, 0]]);
}

#[test]
fn scenario_b_zero_budget_defers_step_one() {
    let curve = curve_of(&[1.0, 0.5, 0.0]);
    let states = vec![0, 1, 2];
    let costs = vec![10, 20, 30];
    let limits = vec![0, 0, 1_000];
    for seed in 0..100u64 {
        let out = execute_event(0, &states, &curve, 3, Some(&costs), Some(&limits), 0, seed).unwrap();
        let constrained = out.constrained.unwrap();
        // The asset starting at age 2 always has an event at step 1.
        assert_eq!(out.table.rows[2][1], 0);
        for i in 0..3 {
            if out.table.rows[i][1] == 0 {
                assert_eq!(constrained.rows[i][1], out.table.rows[i][0] + 1);
            } else {
                assert_eq!(constrained.rows[i][1], out.table.rows[i][1]);
            }
            assert_eq!(constrained.rows[i][0], states[i]);
        }
    }
}

#[test]
fn deferral_never_advances_ages() {
    let probabilities: Vec<f64> = (0..25).map(|a| 1.0 - a as f64 / 25.0).collect();
    let curve = curve_of(&probabilities);
    let states: Vec<i64> = (0..300i64).map(|i| i % 25).collect();
    let costs: Vec<i64> = (0..300i64).map(|i| 100 + (i * 31) % 900).collect();
    let limits = vec![2_000i64; 12];
    for seed in 0..10u64 {
        let out = execute_event(1, &states, &curve, 12, Some(&costs), Some(&limits), 0, seed).unwrap();
        let constrained = out.constrained.unwrap();
        for i in 0..300 {
            for t in 0..12 {
                assert!(constrained.rows[i][t] >= out.table.rows[i][t]);
            }
            assert_eq!(constrained.rows[i][0], out.table.rows[i][0]);
        }
        for t in 1..12 {
            let spent: i64 = (0..300)
                .filter(|&i| out.table.rows[i][t] == 0 && constrained.rows[i][t] == 0)
                .map(|i| costs[i])
                .sum();
            assert!(spent <= limits[t]);
        }
    }
}
