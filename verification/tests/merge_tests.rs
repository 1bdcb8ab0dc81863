use par_mergesort::{fold_vectors, merge, merge_vectors};

fn is_non_decreasing(v: &[u64]) -> bool {
    v.windows(2).all(|w| w[0] <= w[1])
}

fn same_elements(a: &[u64], b: &[u64]) -> bool {
    let mut x = a.to_vec();
    let mut y = b.to_vec();
    x.sort();
    y.sort();
    x == y
}

#[test]
fn test_merge() {
    let v1: Vec<u64> = vec![1, 2, 5, 7, 11];
    let v2: Vec<u64> = vec![2, 3, 4, 5, 8, 9, 14];
    let expected: Vec<u64> = vec![1, 2, 2, 3, 4, 5, 5, 7, 8, 9, 11, 14];

    let merged = merge(v1, v2);
    assert_eq!(merged, expected);
}

#[test]
fn merge_with_an_empty_side_returns_the_other() {
    let v: Vec<u64> = vec![3, 9, 27];
    assert_eq!(merge(Vec::new(), v.clone()), v);
    assert_eq!(merge(v.clone(), Vec::new()), v);
    assert_eq!(merge(Vec::new(), Vec::new()), Vec::<u64>::new());
}

#[test]
fn merge_keeps_equal_elements_of_both_sides() {
    let merged = merge(vec![4, 4, 6], vec![4, 6, 6]);
    assert_eq!(merged, vec![4, 4, 4, 6, 6, 6]);
}

#[test]
fn merge_of_sorted_inputs_is_sorted_and_keeps_every_element() {
    let a: Vec<u64> = vec![0, 10, 10, 500, u64::MAX];
    let b: Vec<u64> = vec![1, 10, 499, 501];
    let merged = merge(a.clone(), b.clone());
    assert_eq!(merged.len(), a.len() + b.len());
    assert!(is_non_decreasing(&merged));
    let mut both = a.clone();
    both.extend_from_slice(&b);
    assert!(same_elements(&merged, &both));
    assert_eq!(merged, vec![0, 1, 10, 10, 10, 499, 500, 501, u64::MAX]);
}

#[test]
fn merge_of_unsorted_inputs_takes_the_smaller_front_each_time() {
    let merged = merge(vec![5, 1], vec![3, 2]);
    assert_eq!(merged, vec![3, 2, 5, 1]);
}

#[test]
fn merge_vectors_of_nothing_is_empty() {
    assert_eq!(merge_vectors(Vec::new()), Vec::<u64>::new());
}

#[test]
fn merge_vectors_of_one_run_is_that_run() {
    let run: Vec<u64> = vec![2, 4, 8];
    assert_eq!(merge_vectors(vec![run.clone()]), run);
}

#[test]
fn merge_vectors_of_two_runs_is_their_merge() {
    let a: Vec<u64> = vec![1, 5];
    let b: Vec<u64> = vec![2, 3];
    assert_eq!(merge_vectors(vec![a.clone(), b.clone()]), merge(a, b));
}

#[test]
fn merge_vectors_merges_sorted_runs_into_one_sorted_sequence() {
    let runs: Vec<Vec<u64>> = vec![
        vec![1, 5],
        vec![],
        vec![67, 2345],
        vec![235, 875],
        vec![0, 5, 9000],
    ];
    let total: usize = runs.iter().map(|r| r.len()).sum();
    let merged = merge_vectors(runs);
    assert_eq!(merged.len(), total);
    assert_eq!(merged, vec![0, 1, 5, 5, 67, 235, 875, 2345, 9000]);
}

#[test]
fn merge_vectors_with_empty_runs_only_is_empty() {
    let runs: Vec<Vec<u64>> = vec![vec![], vec![], vec![]];
    assert_eq!(merge_vectors(runs), Vec::<u64>::new());
}

#[test]
fn fold_vectors_agrees_with_merge_vectors_on_sorted_runs() {
    let runs: Vec<Vec<u64>> = vec![vec![3, 30], vec![1, 2, 40], vec![], vec![7], vec![5, 6]];
    let folded = fold_vectors(&runs);
    assert_eq!(folded, vec![1, 2, 3, 5, 6, 7, 30, 40]);
    assert_eq!(folded, merge_vectors(runs));
}

#[test]
fn fold_vectors_of_nothing_is_empty() {
    assert_eq!(fold_vectors(&Vec::new()), Vec::<u64>::new());
}
