use os_sync::banker::detect_safe;

#[test]
fn no_thread_is_safe() {
    assert!(detect_safe(vec![], &vec![], &vec![]));
    assert!(detect_safe(vec![0, 1], &vec![], &vec![]));
}

#[test]
fn textbook_state_is_safe() {
    let work = vec![3, 3, 2];
    let alloc = vec![vec![0, 1, 0], vec![2, 0, 0], vec![3, 0, 2], vec![2, 1, 1], vec![0, 0, 2]];
    let need = vec![vec![7, 4, 3], vec![1, 2, 2], vec![6, 0, 0], vec![0, 1, 1], vec![4, 3, 1]];
    assert!(detect_safe(work, &alloc, &need));
}

#[test]
fn textbook_states() {
    // thread 3 finishes, then 1, then 0, 2 and 4
    let work = vec![3, 1, 2];
    let alloc = vec![vec![0, 3, 0], vec![2, 0, 0], vec![3, 0, 2], vec![2, 1, 1], vec![0, 0, 2]];
    let need = vec![vec![7, 2, 3], vec![1, 2, 2], vec![6, 0, 0], vec![0, 1, 1], vec![4, 3, 1]];
    assert!(detect_safe(work, &alloc, &need));
    // nobody's need fits in (1, 1, 0)
    let work = vec![1, 1, 0];
    let alloc = vec![vec![0, 1, 0], vec![2, 0, 0], vec![3, 0, 2], vec![2, 1, 1], vec![0, 0, 2]];
    let need = vec![vec![7, 4, 3], vec![1, 2, 2], vec![6, 0, 0], vec![0, 1, 1], vec![4, 3, 1]];
    assert!(!detect_safe(work, &alloc, &need));
}

#[test]
fn single_thread_needing_more_than_free_is_unsafe() {
    assert!(!detect_safe(vec![0], &vec![vec![1]], &vec![vec![1]]));
    assert!(detect_safe(vec![1], &vec![vec![1]], &vec![vec![1]]));
}

#[test]
fn first_fitting_thread_goes_first() {
    // With a negative holding, finishing thread 0 first shrinks the free
    // units; the check takes threads in the order it finds them.
    assert!(!detect_safe(vec![0], &vec![vec![-1], vec![0]], &vec![vec![0], vec![0]]));
}

#[test]
fn shorter_rows_compare_only_common_resources() {
    assert!(detect_safe(vec![0, 5], &vec![vec![1]], &vec![vec![0]]));
    assert!(detect_safe(vec![0], &vec![vec![0]], &vec![vec![0, 9]]));
}
