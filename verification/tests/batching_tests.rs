use rustml_inference::batching::{BatchAction, BatchAssembler, BatchEvent};
use rustml_inference::metrics::BatchMetrics;

fn dispatched(a: BatchAction<u32>) -> Vec<u32> {
    match a {
        BatchAction::Dispatch(v) => v,
        _ => panic!("expected a dispatch"),
    }
}

#[test]
fn first_request_arms_the_deadline() {
    let mut assembler = BatchAssembler::new(4);
    let mut m = BatchMetrics::new();
    m.record_enqueue();
    assert!(matches!(assembler.step(BatchEvent::Received(7), &mut m), BatchAction::ArmDeadline));
    assert_eq!(assembler.pending_len(), 1);
    assert_eq!(m.queue_depth, 0);
    assert_eq!(m.total_batches, 0);
}

#[test]
fn a_full_batch_goes_out_at_once() {
    let mut assembler = BatchAssembler::new(3);
    let mut m = BatchMetrics::new();
    assert!(matches!(assembler.step(BatchEvent::Received(1), &mut m), BatchAction::ArmDeadline));
    assert!(matches!(assembler.step(BatchEvent::Received(2), &mut m), BatchAction::AwaitMore));
    let b = dispatched(assembler.step(BatchEvent::Received(3), &mut m));
    assert_eq!(b, vec![1, 2, 3]);
    assert_eq!(assembler.pending_len(), 0);
    assert_eq!(m.total_batches, 1);
    assert_eq!(m.total_items, 3);
    assert_eq!(m.queue_depth, usize::MAX - 2);
}

#[test]
fn deadline_sends_a_partial_batch() {
    let mut assembler = BatchAssembler::new(4);
    let mut m = BatchMetrics::new();
    assembler.step(BatchEvent::Received(10), &mut m);
    assembler.step(BatchEvent::Received(11), &mut m);
    let b = dispatched(assembler.step(BatchEvent::DeadlineElapsed, &mut m));
    assert_eq!(b, vec![10, 11]);
    assert!(matches!(assembler.step(BatchEvent::DeadlineElapsed, &mut m), BatchAction::AwaitFirst));
    assert_eq!(m.total_batches, 1);
    assert_eq!(m.total_items, 2);
}

#[test]
fn closing_flushes_then_stops() {
    let mut assembler = BatchAssembler::new(4);
    let mut m = BatchMetrics::new();
    assembler.step(BatchEvent::Received(5), &mut m);
    let b = dispatched(assembler.step(BatchEvent::Closed, &mut m));
    assert_eq!(b, vec![5]);
    assert!(matches!(assembler.step(BatchEvent::Closed, &mut m), BatchAction::Shutdown));
}

#[test]
fn batch_limit_of_one_sends_every_request_alone() {
    for limit in [0usize, 1] {
        let mut assembler = BatchAssembler::new(limit);
        let mut m = BatchMetrics::new();
        assert_eq!(dispatched(assembler.step(BatchEvent::Received(1), &mut m)), vec![1]);
        assert_eq!(dispatched(assembler.step(BatchEvent::Received(2), &mut m)), vec![2]);
        assert_eq!(m.total_batches, 2);
        assert_eq!(assembler.max_batch(), limit);
    }
}

#[test]
fn requests_come_out_in_order_and_complete() {
    let mut assembler = BatchAssembler::new(3);
    let mut m = BatchMetrics::new();
    let events = vec![
        BatchEvent::Received(1),
        BatchEvent::Received(2),
        BatchEvent::DeadlineElapsed,
        BatchEvent::Received(3),
        BatchEvent::Received(4),
        BatchEvent::Received(5),
        BatchEvent::Received(6),
        BatchEvent::Closed,
        BatchEvent::Closed,
    ];
    let mut out = Vec::new();
    let mut batches = Vec::new();
    for ev in events {
        if let BatchAction::Dispatch(b) = assembler.step(ev, &mut m) {
            assert!(!b.is_empty() && b.len() <= 3);
            out.extend(b.iter().copied());
            batches.push(b);
        }
    }
    assert_eq!(out, vec![1, 2, 3, 4, 5, 6]);
    assert_eq!(batches, vec![vec![1, 2], vec![3, 4, 5], vec![6]]);
    assert_eq!(m.total_items, 6);
    assert_eq!(m.total_batches, 3);
}

#[test]
fn batch_counters_stay_between_their_bounds() {
    let mut assembler = BatchAssembler::new(3);
    let mut m = BatchMetrics::new();
    let mut dequeued = 0usize;
    for i in 0..20u32 {
        let ev = if i % 4 == 3 { BatchEvent::DeadlineElapsed } else { BatchEvent::Received(i) };
        if matches!(ev, BatchEvent::Received(_)) {
            dequeued += 1;
        }
        assembler.step(ev, &mut m);
        assert!(m.total_batches <= m.total_items);
        assert!(m.total_items <= 3 * m.total_batches);
        assert_eq!(m.total_items, dequeued - assembler.pending_len());
    }
}
