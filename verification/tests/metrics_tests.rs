use rustml_inference::metrics::BatchMetrics;

#[test]
fn new_metrics_are_zero() {
    let m = BatchMetrics::new();
    assert_eq!(m.queue_depth, 0);
    assert_eq!(m.total_batches, 0);
    assert_eq!(m.total_items, 0);
    assert_eq!(m.queue_wait_ns, 0);
    assert_eq!(m.batch_latency_ns, 0);
    assert_eq!(m.infer_latency_ns, 0);
}

#[test]
fn enqueue_then_dequeue_restores_queue_depth() {
    let mut m = BatchMetrics::new();
    m.record_enqueue();
    m.record_enqueue();
    assert_eq!(m.queue_depth, 2);
    m.record_dequeue();
    assert_eq!(m.queue_depth, 1);
    m.record_dequeue();
    assert_eq!(m.queue_depth, 0);
}

#[test]
fn queue_depth_wraps_like_an_atomic_counter() {
    let mut m = BatchMetrics::new();
    m.record_dequeue();
    assert_eq!(m.queue_depth, usize::MAX);
    m.record_enqueue();
    assert_eq!(m.queue_depth, 0);
}

#[test]
fn batches_add_up() {
    let mut m = BatchMetrics::new();
    m.record_batch(3);
    m.record_batch(1);
    assert_eq!(m.total_batches, 2);
    assert_eq!(m.total_items, 4);
    assert_eq!(m.queue_depth, 0);
}
