use asset_sim::aggregate::{aggregate_event, convert};
use asset_sim::error::SimError;
use asset_sim::profile::count_values;
use asset_sim::reduce::{aggregate, something, summarize_run};
use asset_sim::run::{aggregation_passes, batch_plan, DEFAULT_BATCH_SIZE};
use asset_sim::table::RunTable;

fn sample_table(run_id: i64) -> RunTable {
    RunTable {
        run_id,
        n_steps: 3,
        rows: vec![vec![0, 1, 0], vec![2, 0, 1], vec![4, 0, 0]],
        costs: Some(vec![10, 20, 30]),
    }
}

#[test]
fn convert_marks_events() {
    let table = sample_table(0);
    assert_eq!(
        convert(&table, 0, false).unwrap(),
        vec![vec![1, 0, 1], vec![0, 1, 0], vec![0, 1, 1]]
    );
    assert_eq!(
        convert(&table, 0, true).unwrap(),
        vec![vec![10, 0, 10], vec![0, 20, 0], vec![0, 30, 30]]
    );
    let bare = RunTable { costs: None, ..sample_table(0) };
    assert_eq!(convert(&bare, 0, true).err(), Some(SimError::MissingCost));
}

#[test]
fn aggregate_event_sums_columns() {
    let sums = aggregate_event(&vec![vec![1, 0, 1], vec![0, 1, 0], vec![0, 1, 1]], 3);
    assert_eq!(sums, vec![1, 2, 2]);
    assert_eq!(aggregate_event(&vec![], 2), vec![0, 0]);
}

#[test]
fn summarize_run_counts_and_costs() {
    let s = summarize_run(&sample_table(4), 0, true).unwrap();
    assert_eq!(s.run_id, 4);
    assert_eq!(s.events, vec![1, 2, 2]);
    assert_eq!(s.costs, Some(vec![10, 50, 40]));
    let s = summarize_run(&sample_table(4), 1, false).unwrap();
    assert_eq!(s.events, vec![0, 1, 1]);
    assert!(s.costs.is_none());
    let bare = RunTable { costs: None, ..sample_table(0) };
    assert_eq!(summarize_run(&bare, 0, true).err(), Some(SimError::MissingCost));
}

#[test]
fn count_values_fills_absent_ages_with_zero() {
    let p = count_values(&sample_table(2));
    assert_eq!(p.run_id, 2);
    assert_eq!(p.values, vec![0, 1, 2, 4]);
    assert_eq!(p.by_step, vec![vec![1, 0, 1, 1], vec![2, 1, 0, 0], vec![2, 1, 0, 0]]);
}

#[test]
fn profiles_stack_by_run() {
    let a = summarize_run(&sample_table(0), 0, false).unwrap();
    let b = summarize_run(
        &RunTable { run_id: 1, n_steps: 3, rows: vec![vec![7, 8, 0]], costs: None },
        0,
        false,
    )
    .unwrap();
    let rows = something(&vec![a, b]);
    let flat: Vec<(i64, i64, Vec<u64>)> =
        rows.into_iter().map(|r| (r.run_id, r.value, r.counts)).collect();
    assert_eq!(
        flat,
        vec![
            (0, 0, vec![1, 2, 2]),
            (0, 1, vec![0, 1, 1]),
            (0, 2, vec![1, 0, 0]),
            (0, 4, vec![1, 0, 0]),
            (1, 0, vec![0, 0, 1]),
            (1, 7, vec![1, 0, 0]),
            (1, 8, vec![0, 1, 0]),
        ]
    );
}

#[test]
fn aggregate_stacks_runs() {
    let runs = vec![
        summarize_run(&sample_table(0), 0, true).unwrap(),
        summarize_run(&sample_table(1), 0, true).unwrap(),
    ];
    let agg = aggregate(&runs, true).unwrap();
    assert_eq!(agg.events.len(), 2);
    assert_eq!(agg.events[1].run_id, 1);
    assert_eq!(agg.events[1].values, vec![1, 2, 2]);
    let costs = agg.costs.unwrap();
    assert_eq!(costs[0].values, vec![10, 50, 40]);
    assert_eq!(agg.profile.len(), 8);
    let agg = aggregate(&runs, false).unwrap();
    assert!(agg.costs.is_none());
    assert!(aggregate(&vec![], true).unwrap().events.is_empty());
}

#[test]
fn aggregate_reports_schema_mismatch() {
    let three = summarize_run(&sample_table(0), 0, false).unwrap();
    let two = summarize_run(
        &RunTable { run_id: 1, n_steps: 2, rows: vec![vec![0, 1]], costs: None },
        0,
        false,
    )
    .unwrap();
    assert_eq!(aggregate(&vec![three, two], false).err(), Some(SimError::StepCountMismatch));
    let plain = summarize_run(&sample_table(0), 0, false).unwrap();
    assert_eq!(aggregate(&vec![plain], true).err(), Some(SimError::MissingCost));
}

#[test]
fn batch_plan_splits_runs() {
    let plan: Vec<(i64, i64)> = batch_plan(250, DEFAULT_BATCH_SIZE).iter().map(|b| (b.start, b.size)).collect();
    assert_eq!(plan, vec![(0, 100), (100, 100), (200, 50)]);
    let plan: Vec<(i64, i64)> = batch_plan(200, 100).iter().map(|b| (b.start, b.size)).collect();
    assert_eq!(plan, vec![(0, 100), (100, 100)]);
    let plan: Vec<(i64, i64)> = batch_plan(7, 100).iter().map(|b| (b.start, b.size)).collect();
    assert_eq!(plan, vec![(0, 7)]);
    assert!(batch_plan(0, 100).is_empty());
    assert!(batch_plan(-3, 100).is_empty());
}

#[test]
fn aggregation_passes_follow_inputs() {
    let p: Vec<(bool, bool)> = aggregation_passes(true, true).iter().map(|a| (a.apply_cost, a.constrained)).collect();
    assert_eq!(p, vec![(true, false), (true, true)]);
    let p: Vec<(bool, bool)> = aggregation_passes(true, false).iter().map(|a| (a.apply_cost, a.constrained)).collect();
    assert_eq!(p, vec![(true, false)]);
    let p: Vec<(bool, bool)> = aggregation_passes(false, true).iter().map(|a| (a.apply_cost, a.constrained)).collect();
    assert_eq!(p, vec![(false, false)]);
}
