use vstd::prelude::*;

verus! {

/// `x + d` on a counter that wraps around past `usize::MAX`.
pub open spec fn counter_add(x: usize, d: usize) -> usize {
    if x + d > usize::MAX {
        (x + d - (usize::MAX + 1)) as usize
    } else {
        (x + d) as usize
    }
}

/// `x - d` on a counter that wraps around below zero.
pub open spec fn counter_sub(x: usize, d: usize) -> usize {
    if x - d < 0 {
        (x - d + (usize::MAX + 1)) as usize
    } else {
        (x - d) as usize
    }
}

/// Counters kept by the dynamic batcher and read by the monitoring endpoint.
/// The counters wrap around, as atomic `fetch_add`/`fetch_sub` do; the three
/// latency fields hold the last value recorded, in nanoseconds.
#[derive(Clone, Copy, Debug)]
pub struct BatchMetrics {
    /// Requests submitted to the queue and not yet taken by the batcher.
    pub queue_depth: usize,
    /// Batches dispatched so far.
    pub total_batches: usize,
    /// Requests dispatched so far, over all batches.
    pub total_items: usize,
    /// Time the first request of the last batch spent in the queue.
    pub queue_wait_ns: usize,
    /// Duration of the last batched run, inference and bookkeeping.
    pub batch_latency_ns: usize,
    /// Duration of the last batched inference call.
    pub infer_latency_ns: usize,
}

impl BatchMetrics {
    /// All counters at zero.
    pub fn new() -> (m: Self)
        ensures
            m.queue_depth == 0,
            m.total_batches == 0,
            m.total_items == 0,
            m.queue_wait_ns == 0,
            m.batch_latency_ns == 0,
            m.infer_latency_ns == 0,
    {
        BatchMetrics {
            queue_depth: 0,
            total_batches: 0,
            total_items: 0,
            queue_wait_ns: 0,
            batch_latency_ns: 0,
            infer_latency_ns: 0,
        }
    }

    /// A request entered the queue.
    pub fn record_enqueue(&mut self)
        ensures
            *final(self) == (BatchMetrics {
                queue_depth: counter_add(old(self).queue_depth, 1),
                ..*old(self)
            }),
            old(self).queue_depth < usize::MAX ==> final(self).queue_depth == old(self).queue_depth + 1,
            old(self).queue_depth == usize::MAX ==> final(self).queue_depth == 0,
    {
        self.queue_depth = self.queue_depth.wrapping_add(1);
    }

    /// The batcher took a request off the queue.
    pub fn record_dequeue(&mut self)
        ensures
            *final(self) == (BatchMetrics {
                queue_depth: counter_sub(old(self).queue_depth, 1),
                ..*old(self)
            }),
            old(self).queue_depth > 0 ==> final(self).queue_depth == old(self).queue_depth - 1,
            old(self).queue_depth == 0 ==> final(self).queue_depth == usize::MAX,
    {
        self.queue_depth = self.queue_depth.wrapping_sub(1);
    }

    /// A batch of `items` requests was dispatched.
    pub fn record_batch(&mut self, items: usize)
        ensures
            *final(self) == (BatchMetrics {
                total_batches: counter_add(old(self).total_batches, 1),
                total_items: counter_add(old(self).total_items, items),
                ..*old(self)
            }),
            old(self).total_batches < usize::MAX ==> final(self).total_batches == old(self).total_batches + 1,
            old(self).total_items + items <= usize::MAX ==> final(self).total_items == old(self).total_items
                + items,
            old(self).total_items + items > usize::MAX ==> final(self).total_items == old(self).total_items
                + items - (usize::MAX + 1),
    {
        self.total_batches = self.total_batches.wrapping_add(1);
        self.total_items = self.total_items.wrapping_add(items);
    }
}

/// Taking a request off the queue undoes putting one on it: the metrics come
/// back to what they were.
pub proof fn lemma_enqueue_dequeue_restores(m: BatchMetrics)
    ensures
        (BatchMetrics {
            queue_depth: counter_sub(counter_add(m.queue_depth, 1), 1),
            ..m
        }) == m,
{
}

/// Queue depth counts submissions minus removals: after `n` requests are put
/// on an empty queue and `k <= n` are taken off, the depth is `n - k`.
pub proof fn lemma_queue_depth_counts(n: nat, k: nat)
    requires
        k <= n,
        n <= usize::MAX,
    ensures
        apply_dequeues(apply_enqueues(0, n), k) == n - k,
    decreases n + k,
{
    if k > 0 {
        lemma_queue_depth_counts(n, (k - 1) as nat);
    } else if n > 0 {
        lemma_queue_depth_counts((n - 1) as nat, 0);
    }
}

/// Queue depth after `n` enqueues, starting from `d`.
pub open spec fn apply_enqueues(d: usize, n: nat) -> usize
    decreases n,
{
    if n == 0 {
        d
    } else {
        counter_add(apply_enqueues(d, (n - 1) as nat), 1)
    }
}

/// Queue depth after `k` dequeues, starting from `d`.
pub open spec fn apply_dequeues(d: usize, k: nat) -> usize
    decreases k,
{
    if k == 0 {
        d
    } else {
        counter_sub(apply_dequeues(d, (k - 1) as nat), 1)
    }
}

} // verus!
