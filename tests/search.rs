use kata_threadpool::search::{chunk_count, find_in_chunk, first_match};

fn reversed(n: u32) -> Vec<u32> {
    (0..n).rev().collect()
}

/// Every chunk searched, the reports drained in the order given.
fn search_in_order(data: &[u32], target: u32, chunk_size: usize, order: &[usize]) -> Option<u32> {
    let reports: Vec<Option<usize>> = order
        .iter()
        .map(|&c| find_in_chunk(data, target, c, chunk_size))
        .collect();
    first_match(&reports)
}

#[test]
fn million_reversed_finds_known_target() {
    let data = reversed(1_000_000);
    let chunk_size = 50_000;
    let n_chunks = chunk_count(data.len(), chunk_size);
    assert_eq!(n_chunks, 20);
    let in_order: Vec<usize> = (0..n_chunks).collect();
    assert_eq!(search_in_order(&data, 100_000, chunk_size, &in_order), Some(899_999));
    // Reports arriving in another order find the same unique position.
    let backwards: Vec<usize> = (0..n_chunks).rev().collect();
    assert_eq!(search_in_order(&data, 100_000, chunk_size, &backwards), Some(899_999));
}

#[test]
fn million_reversed_absent_target_gives_no_match() {
    let data = reversed(1_000_000);
    let order: Vec<usize> = (0..20).collect();
    assert_eq!(search_in_order(&data, 2_000_000, 50_000, &order), None);
}

#[test]
fn chunk_search_reports_first_position_in_its_chunk() {
    let data = vec![5, 1, 5, 5, 2, 5];
    assert_eq!(find_in_chunk(&data, 5, 0, 3), Some(0));
    assert_eq!(find_in_chunk(&data, 5, 1, 3), Some(3));
    assert_eq!(find_in_chunk(&data, 1, 1, 3), None);
    assert_eq!(find_in_chunk(&data, 2, 1, 3), Some(4));
}

#[test]
fn tail_shorter_than_a_chunk_is_not_searched() {
    assert_eq!(chunk_count(10, 4), 2);
    assert_eq!(chunk_count(3, 4), 0);
    let data = vec![0, 0, 0, 0, 9];
    let order: Vec<usize> = (0..chunk_count(data.len(), 2)).collect();
    assert_eq!(search_in_order(&data, 9, 2, &order), None);
}

#[test]
fn drain_takes_the_first_report_with_a_match() {
    assert_eq!(first_match(&[None, Some(7), Some(3)]), Some(7));
    assert_eq!(first_match(&[None, None]), None);
    assert_eq!(first_match(&[]), None);
}
