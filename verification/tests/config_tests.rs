use rustml_inference::config::{
    calculate_intra_threads, calculate_max_concurrency, calculate_pool_size, intra_threads_for_cores,
    pool_size_for_cores, queue_capacity,
};

#[test]
fn pool_size_is_half_the_cores_clamped() {
    assert_eq!(pool_size_for_cores(1), 2);
    assert_eq!(pool_size_for_cores(4), 2);
    assert_eq!(pool_size_for_cores(5), 2);
    assert_eq!(pool_size_for_cores(6), 3);
    assert_eq!(pool_size_for_cores(12), 6);
    assert_eq!(pool_size_for_cores(16), 8);
    assert_eq!(pool_size_for_cores(64), 8);
    assert_eq!(pool_size_for_cores(usize::MAX), 8);
}

#[test]
fn intra_threads_is_a_quarter_of_the_cores_clamped() {
    assert_eq!(intra_threads_for_cores(1), 1);
    assert_eq!(intra_threads_for_cores(7), 1);
    assert_eq!(intra_threads_for_cores(8), 2);
    assert_eq!(intra_threads_for_cores(12), 3);
    assert_eq!(intra_threads_for_cores(16), 4);
    assert_eq!(intra_threads_for_cores(128), 4);
}

#[test]
fn detected_sizes_follow_the_cpu_count() {
    let cores = num_cpus::get();
    assert_eq!(calculate_pool_size(), pool_size_for_cores(cores));
    assert_eq!(calculate_intra_threads(), intra_threads_for_cores(cores));
    let p = calculate_pool_size();
    assert!((2..=8).contains(&p));
}

#[test]
fn max_concurrency_defaults_to_three_per_session() {
    assert_eq!(calculate_max_concurrency(4, None), 12);
    assert_eq!(calculate_max_concurrency(2, None), 6);
    assert_eq!(calculate_max_concurrency(8, Some("")), 24);
}

#[test]
fn max_concurrency_takes_a_valid_setting() {
    assert_eq!(calculate_max_concurrency(4, Some("7")), 7);
    assert_eq!(calculate_max_concurrency(4, Some("+15")), 15);
    assert_eq!(calculate_max_concurrency(4, Some("0")), 0);
    assert_eq!(calculate_max_concurrency(4, Some("007")), 7);
}

#[test]
fn max_concurrency_ignores_an_invalid_setting() {
    assert_eq!(calculate_max_concurrency(4, Some("-3")), 12);
    assert_eq!(calculate_max_concurrency(4, Some("+")), 12);
    assert_eq!(calculate_max_concurrency(4, Some(" 7")), 12);
    assert_eq!(calculate_max_concurrency(4, Some("7x")), 12);
    assert_eq!(calculate_max_concurrency(4, Some("99999999999999999999999")), 12);
}

#[test]
fn queue_holds_four_batches() {
    assert_eq!(queue_capacity(4), 16);
    assert_eq!(queue_capacity(1), 4);
}
