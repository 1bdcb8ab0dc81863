use par_mergesort::{parallel_mergesort, recursive_mergesort, worker_count};

#[test]
fn test_recursive_mergesort() {
    let v1: Vec<u64> = vec![
        5, 1, 67, 2345, 875, 235, 573568, 8967, 325, 78, 252, 1, 8, 579, 324, 80,
    ];
    let v2: Vec<u64> = vec![
        1, 1, 5, 8, 67, 78, 80, 235, 252, 324, 325, 579, 875, 2345, 8967, 573568,
    ];

    let sorted = recursive_mergesort(v1);
    assert_eq!(sorted, v2);
}

#[test]
fn recursive_mergesort_keeps_short_inputs() {
    assert_eq!(recursive_mergesort(Vec::new()), Vec::<u64>::new());
    assert_eq!(recursive_mergesort(vec![42]), vec![42]);
}

#[test]
fn recursive_mergesort_is_idempotent() {
    let v: Vec<u64> = vec![9, 3, 3, 0, u64::MAX, 17, 4, 4, 1];
    let once = recursive_mergesort(v);
    let twice = recursive_mergesort(once.clone());
    assert_eq!(once, vec![0, 1, 3, 3, 4, 4, 9, 17, u64::MAX]);
    assert_eq!(twice, once);
}

#[test]
fn recursive_mergesort_agrees_with_the_standard_sort() {
    let mut state: u64 = 0x2545_f491_4f6c_dd1d;
    let mut v: Vec<u64> = Vec::new();
    for _ in 0..257 {
        state ^= state << 13;
        state ^= state >> 7;
        state ^= state << 17;
        v.push(state % 50);
    }
    let mut expected = v.clone();
    expected.sort();
    assert_eq!(recursive_mergesort(v), expected);
}

#[test]
fn parallel_mergesort_with_three_workers() {
    let sorted = parallel_mergesort(vec![5, 1, 67, 2345, 875, 235], 3);
    assert_eq!(sorted, vec![1, 5, 67, 235, 875, 2345]);
}

#[test]
fn parallel_mergesort_of_empty_and_single_inputs() {
    assert_eq!(parallel_mergesort(Vec::new(), 4), Vec::<u64>::new());
    assert_eq!(parallel_mergesort(vec![42], 4), vec![42]);
}

#[test]
fn parallel_mergesort_with_fewer_elements_than_workers() {
    assert_eq!(parallel_mergesort(vec![3, 1], 8), vec![1, 3]);
}

#[test]
fn parallel_mergesort_does_not_depend_on_the_worker_count() {
    let v: Vec<u64> = vec![
        5, 1, 67, 2345, 875, 235, 573568, 8967, 325, 78, 252, 1, 8, 579, 324, 80,
    ];
    let expected = recursive_mergesort(v.clone());
    for workers in 1..40 {
        assert_eq!(parallel_mergesort(v.clone(), workers), expected);
    }
}

#[test]
fn parallel_mergesort_serves_zero_workers_as_one() {
    assert_eq!(parallel_mergesort(vec![3, 2, 1], 0), vec![1, 2, 3]);
    assert_eq!(parallel_mergesort(Vec::new(), 0), Vec::<u64>::new());
}

#[test]
fn parallel_mergesort_is_idempotent() {
    let once = parallel_mergesort(vec![8, 6, 7, 5, 3, 0, 9], 3);
    assert_eq!(once, vec![0, 3, 5, 6, 7, 8, 9]);
    assert_eq!(parallel_mergesort(once.clone(), 3), once);
}

#[test]
fn worker_count_replaces_zero_by_one() {
    assert_eq!(worker_count(0), 1);
    assert_eq!(worker_count(1), 1);
    assert_eq!(worker_count(7), 7);
    assert_eq!(worker_count(usize::MAX), usize::MAX);
}
