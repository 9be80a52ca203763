use rustml_inference::dispatch::{answerable_items, plan_dispatch, same_shape, single_sample, split_batch_output, DispatchPlan};

#[test]
fn one_request_runs_as_is() {
    assert_eq!(plan_dispatch(&vec![vec![5, 3, 224, 224]]), DispatchPlan::Single);
    assert_eq!(plan_dispatch(&vec![vec![7]]), DispatchPlan::Single);
}

#[test]
fn single_samples_are_stacked() {
    let shapes = vec![vec![1, 3, 224, 224], vec![1, 3, 224, 224], vec![1, 3, 224, 224]];
    assert_eq!(plan_dispatch(&shapes), DispatchPlan::Stacked);
}

#[test]
fn other_shapes_run_one_by_one() {
    let shapes = vec![vec![1, 3, 224, 224], vec![2, 3, 224, 224]];
    assert_eq!(plan_dispatch(&shapes), DispatchPlan::Individually);
    let shapes = vec![vec![1, 3, 224, 224], vec![1, 3, 224]];
    assert_eq!(plan_dispatch(&shapes), DispatchPlan::Individually);
}

#[test]
fn single_sample_shape() {
    assert!(single_sample(&vec![1, 3, 2, 2]));
    assert!(!single_sample(&vec![2, 3, 2, 2]));
    assert!(!single_sample(&vec![1, 3, 2]));
    assert!(!single_sample(&vec![]));
}

#[test]
fn batched_output_is_split_per_request() {
    let flat: Vec<f32> = (0..6).map(|x| x as f32).collect();
    let r = split_batch_output(&flat, &vec![3, 2], 3);
    assert_eq!(r.len(), 3);
    assert_eq!(r[0], (vec![0.0, 1.0], vec![2]));
    assert_eq!(r[1], (vec![2.0, 3.0], vec![2]));
    assert_eq!(r[2], (vec![4.0, 5.0], vec![2]));
}

#[test]
fn split_uses_the_model_batch_dimension() {
    let flat: Vec<u8> = vec![1, 2, 3, 4, 5, 6, 7, 8];
    let r = split_batch_output(&flat, &vec![4, 2], 2);
    assert_eq!(r, vec![(vec![1, 2], vec![2]), (vec![3, 4], vec![2])]);
    let r = split_batch_output(&flat, &vec![3], 2);
    assert_eq!(r, vec![(vec![1, 2], vec![2]), (vec![3, 4], vec![2])]);
}

#[test]
fn split_of_nothing() {
    let flat: Vec<u8> = vec![];
    assert_eq!(split_batch_output(&flat, &vec![2, 1000], 2), vec![(vec![], vec![0]), (vec![], vec![0])]);
    assert_eq!(split_batch_output(&vec![1u8], &vec![1], 0), vec![]);
}

#[test]
fn samples_of_different_shapes_run_one_by_one() {
    let shapes = vec![vec![1, 3, 224, 224], vec![1, 3, 112, 112]];
    assert_eq!(plan_dispatch(&shapes), DispatchPlan::Individually);
    let shapes = vec![vec![1, 3, 224, 224], vec![1, 3, 224, 224], vec![1, 1, 224, 224]];
    assert_eq!(plan_dispatch(&shapes), DispatchPlan::Individually);
}

#[test]
fn shapes_compare_entry_by_entry() {
    assert!(same_shape(&vec![1, 3, 2, 2], &vec![1, 3, 2, 2]));
    assert!(!same_shape(&vec![1, 3, 2, 2], &vec![1, 3, 2, 1]));
    assert!(!same_shape(&vec![1, 3, 2], &vec![1, 3, 2, 2]));
    assert!(same_shape(&vec![], &vec![]));
}

#[test]
fn answerable_items_counts_whole_shares() {
    // 8 values, batch dimension 2: 4 values per request.
    assert_eq!(answerable_items(8, &vec![2, 4], 2), 2);
    assert_eq!(answerable_items(8, &vec![2, 4], 3), 2);
    assert_eq!(answerable_items(8, &vec![2, 4], 1), 1);
    // Fewer values than the batch dimension: nothing per request.
    assert_eq!(answerable_items(1, &vec![4], 3), 3);
    // 10 values, batch dimension 3: 3 per request, 3 whole shares.
    assert_eq!(answerable_items(10, &vec![3], 5), 3);
}
