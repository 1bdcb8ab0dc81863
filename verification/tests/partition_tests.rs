use par_mergesort::{collect_runs, partition, sort_chunks, SortError};

#[test]
fn partition_cuts_at_the_rounded_down_bounds() {
    let data: Vec<u64> = vec![10, 11, 12, 13, 14, 15, 16, 17, 18, 19];
    let chunks = partition(&data, 3).unwrap();
    assert_eq!(chunks, vec![vec![10, 11, 12], vec![13, 14, 15], vec![16, 17, 18, 19]]);
}

#[test]
fn partition_into_one_chunk_is_the_whole_input() {
    let data: Vec<u64> = vec![4, 2, 9];
    assert_eq!(partition(&data, 1), Ok(vec![data.clone()]));
}

#[test]
fn partition_with_more_workers_than_elements_leaves_empty_chunks() {
    let data: Vec<u64> = vec![3, 1];
    let chunks = partition(&data, 8).unwrap();
    assert_eq!(chunks.len(), 8);
    assert_eq!(
        chunks,
        vec![vec![], vec![], vec![], vec![3], vec![], vec![], vec![], vec![1]]
    );
}

#[test]
fn partition_of_an_empty_input_gives_empty_chunks() {
    let chunks = partition(&Vec::new(), 4).unwrap();
    assert_eq!(chunks, vec![Vec::<u64>::new(); 4]);
}

#[test]
fn partition_refuses_zero_workers() {
    assert_eq!(partition(&vec![1, 2, 3], 0), Err(SortError::NoWorkers));
    assert_eq!(partition(&Vec::new(), 0), Err(SortError::NoWorkers));
}

#[test]
fn partition_chunks_rebuild_the_input_and_are_balanced() {
    for len in 0..30u64 {
        let data: Vec<u64> = (0..len).map(|x| x * 7 % 11).collect();
        for workers in 1..12usize {
            let chunks = partition(&data, workers).unwrap();
            assert_eq!(chunks.len(), workers);
            let joined: Vec<u64> = chunks.iter().flatten().copied().collect();
            assert_eq!(joined, data);
            let longest = chunks.iter().map(|c| c.len()).max().unwrap();
            let shortest = chunks.iter().map(|c| c.len()).min().unwrap();
            assert!(longest - shortest <= 1);
            assert_eq!(shortest, data.len() / workers);
            assert_eq!(longest, (data.len() + workers - 1) / workers);
        }
    }
}

#[test]
fn sort_chunks_sorts_every_chunk_in_place_order() {
    let chunks: Vec<Vec<u64>> = vec![vec![5, 1], vec![], vec![2345, 67, 100], vec![7]];
    let runs = sort_chunks(chunks);
    assert_eq!(runs, vec![vec![1, 5], vec![], vec![67, 100, 2345], vec![7]]);
}

#[test]
fn collect_runs_returns_the_runs_in_index_order() {
    let outcomes = vec![Some(vec![1, 2]), Some(vec![]), Some(vec![0, 9])];
    assert_eq!(collect_runs(outcomes), Ok(vec![vec![1, 2], vec![], vec![0, 9]]));
    assert_eq!(collect_runs(Vec::new()), Ok(Vec::new()));
}

#[test]
fn collect_runs_names_the_first_failed_chunk() {
    let outcomes = vec![Some(vec![1, 2]), None, Some(vec![0, 9]), None];
    assert_eq!(collect_runs(outcomes), Err(SortError::WorkerFailed { chunk: 1 }));
    assert_eq!(collect_runs(vec![None]), Err(SortError::WorkerFailed { chunk: 0 }));
}
