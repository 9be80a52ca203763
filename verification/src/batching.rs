use vstd::prelude::*;
use crate::metrics::{BatchMetrics, counter_add, counter_sub};

verus! {

/// What the batcher's worker observed while waiting.
pub enum BatchEvent<T> {
    /// A request came off the queue.
    Received(T),
    /// The queue is closed and empty: no request will come any more.
    Closed,
    /// The deadline armed when the current batch was started has passed.
    DeadlineElapsed,
}

/// What the worker does next.
pub enum BatchAction<T> {
    /// Wait for a request, with no deadline.
    AwaitFirst,
    /// A batch was started: arm the deadline, then wait for a request or for it.
    ArmDeadline,
    /// Keep waiting for a request or for the deadline already armed.
    AwaitMore,
    /// Run these requests, in this order, as one batch.
    Dispatch(Vec<T>),
    /// Stop the worker.
    Shutdown,
}

/// Abstract form of a [`BatchAction`].
#[verifier::ext_equal]
pub enum Decision<T> {
    AwaitFirst,
    ArmDeadline,
    AwaitMore,
    Dispatch(Seq<T>),
    Shutdown,
}

impl<T> View for BatchAction<T> {
    type V = Decision<T>;

    open spec fn view(&self) -> Decision<T> {
        match self {
            BatchAction::AwaitFirst => Decision::AwaitFirst,
            BatchAction::ArmDeadline => Decision::ArmDeadline,
            BatchAction::AwaitMore => Decision::AwaitMore,
            BatchAction::Dispatch(v) => Decision::Dispatch(v@),
            BatchAction::Shutdown => Decision::Shutdown,
        }
    }
}

/// Abstract state of a [`BatchAssembler`]: the requests of the batch being
/// filled, in arrival order, and the batch size limit.
#[verifier::ext_equal]
pub struct AssemblerView<T> {
    pub pending: Seq<T>,
    pub max_batch: nat,
}

/// A batch is being filled only while it is below the size limit.
pub open spec fn assembler_wf<T>(a: AssemblerView<T>) -> bool {
    a.pending.len() == 0 || a.pending.len() < a.max_batch
}

/// One decision of the batching worker. A request joins the current batch;
/// the batch goes out as soon as it reaches `max_batch` requests, or when the
/// deadline passes, or when the queue closes. With no batch started, a closed
/// queue stops the worker.
pub open spec fn spec_step<T>(a: AssemblerView<T>, event: BatchEvent<T>) -> (AssemblerView<T>, Decision<T>) {
    let empty = AssemblerView { pending: Seq::<T>::empty(), max_batch: a.max_batch };
    match event {
        BatchEvent::Received(x) => {
            let p = a.pending.push(x);
            if p.len() < a.max_batch {
                (
                    AssemblerView { pending: p, max_batch: a.max_batch },
                    if a.pending.len() == 0 {
                        Decision::ArmDeadline
                    } else {
                        Decision::AwaitMore
                    },
                )
            } else {
                (empty, Decision::Dispatch(p))
            }
        },
        BatchEvent::Closed => {
            if a.pending.len() == 0 {
                (a, Decision::Shutdown)
            } else {
                (empty, Decision::Dispatch(a.pending))
            }
        },
        BatchEvent::DeadlineElapsed => {
            if a.pending.len() == 0 {
                (a, Decision::AwaitFirst)
            } else {
                (empty, Decision::Dispatch(a.pending))
            }
        },
    }
}

/// The counters after one decision: a request taken off the queue lowers the
/// queue depth by one; a dispatched batch adds one batch and its requests.
pub open spec fn metrics_after<T>(m: BatchMetrics, event: BatchEvent<T>, d: Decision<T>) -> BatchMetrics {
    let m1 = match event {
        BatchEvent::Received(_) => BatchMetrics { queue_depth: counter_sub(m.queue_depth, 1), ..m },
        _ => m,
    };
    match d {
        Decision::Dispatch(b) => BatchMetrics {
            total_batches: counter_add(m1.total_batches, 1),
            total_items: counter_add(m1.total_items, b.len() as usize),
            ..m1
        },
        _ => m1,
    }
}

/// The decision logic of the dynamic batcher's worker loop: it gathers
/// requests into batches of at most `max_batch` requests.
pub struct BatchAssembler<T> {
    pending: Vec<T>,
    max_batch: usize,
}

impl<T> View for BatchAssembler<T> {
    type V = AssemblerView<T>;

    closed spec fn view(&self) -> AssemblerView<T> {
        AssemblerView { pending: self.pending@, max_batch: self.max_batch as nat }
    }
}

impl<T> BatchAssembler<T> {
    #[verifier::type_invariant]
    spec fn inv(self) -> bool {
        self.pending.len() == 0 || self.pending.len() < self.max_batch
    }

    /// No batch started, batches limited to `max_batch` requests (a limit of
    /// 0 behaves as 1: every request goes out alone).
    pub fn new(max_batch: usize) -> (a: Self)
        ensures
            a@.pending == Seq::<T>::empty(),
            a@.max_batch == max_batch,
            assembler_wf(a@),
    {
        BatchAssembler { pending: Vec::new(), max_batch }
    }

    /// The batch size limit.
    pub fn max_batch(&self) -> (n: usize)
        ensures
            n == self@.max_batch,
    {
        self.max_batch
    }

    /// Number of requests in the batch being filled.
    pub fn pending_len(&self) -> (n: usize)
        ensures
            n == self@.pending.len(),
    {
        self.pending.len()
    }

    /// Takes the next event and says what to do, updating the counters.
    pub fn step(&mut self, event: BatchEvent<T>, metrics: &mut BatchMetrics) -> (action: BatchAction<T>)
        ensures
            (final(self)@, action@) == spec_step(old(self)@, event),
            *final(metrics) == metrics_after(*old(metrics), event, action@),
            assembler_wf(old(self)@),
            assembler_wf(final(self)@),
            final(self)@.max_batch == old(self)@.max_batch,
            final(metrics).queue_wait_ns == old(metrics).queue_wait_ns,
            final(metrics).batch_latency_ns == old(metrics).batch_latency_ns,
            final(metrics).infer_latency_ns == old(metrics).infer_latency_ns,
            event is Received && old(metrics).queue_depth > 0 ==> final(metrics).queue_depth == old(
                metrics,
            ).queue_depth - 1,
            !(event is Received) ==> final(metrics).queue_depth == old(metrics).queue_depth,
            !(action@ is Dispatch) ==> final(metrics).total_batches == old(metrics).total_batches
                && final(metrics).total_items == old(metrics).total_items,
            forall|b: Seq<T>|
                action@ == Decision::Dispatch(b) && old(metrics).total_batches < usize::MAX
                    && old(metrics).total_items + b.len() <= usize::MAX ==> final(metrics).total_batches
                    == old(metrics).total_batches + 1 && final(metrics).total_items == old(
                    metrics,
                ).total_items + b.len(),
            match event {
                BatchEvent::Received(x) => if old(self)@.pending.len() + 1 < old(self)@.max_batch {
                    &&& final(self)@.pending == old(self)@.pending.push(x)
                    &&& !(action@ is Dispatch)
                    &&& (action@ is ArmDeadline <==> old(self)@.pending.len() == 0)
                    &&& (action@ is AwaitMore <==> old(self)@.pending.len() > 0)
                } else {
                    &&& action@ == Decision::Dispatch(old(self)@.pending.push(x))
                    &&& final(self)@.pending.len() == 0
                },
                _ => if old(self)@.pending.len() == 0 {
                    &&& final(self)@.pending.len() == 0
                    &&& (event is Closed ==> action@ is Shutdown)
                    &&& (event is DeadlineElapsed ==> action@ is AwaitFirst)
                } else {
                    &&& action@ == Decision::Dispatch(old(self)@.pending)
                    &&& final(self)@.pending.len() == 0
                },
            },
    {
        proof {
            use_type_invariant(&*self);
        }
        let mut pending: Vec<T> = Vec::new();
        std::mem::swap(&mut pending, &mut self.pending);
        match event {
            BatchEvent::Received(x) => {
                metrics.record_dequeue();
                let was_empty = pending.len() == 0;
                pending.push(x);
                if pending.len() < self.max_batch {
                    self.pending = pending;
                    assert(self.pending@ =~= old(self)@.pending.push(x));
                    if was_empty {
                        BatchAction::ArmDeadline
                    } else {
                        BatchAction::AwaitMore
                    }
                } else {
                    metrics.record_batch(pending.len());
                    BatchAction::Dispatch(pending)
                }
            },
            BatchEvent::Closed => {
                if pending.len() == 0 {
                    BatchAction::Shutdown
                } else {
                    metrics.record_batch(pending.len());
                    BatchAction::Dispatch(pending)
                }
            },
            BatchEvent::DeadlineElapsed => {
                if pending.len() == 0 {
                    BatchAction::AwaitFirst
                } else {
                    metrics.record_batch(pending.len());
                    BatchAction::Dispatch(pending)
                }
            },
        }
    }
}

/// A batch waits until it is full: a request that leaves the batch below
/// `max_batch` joins it and nothing is sent out (the deadline is armed by the
/// first request of a batch); a request that brings it to `max_batch` sends
/// the whole batch, that request last, and starts afresh. The deadline and a
/// closed queue send out whatever is pending, if anything.
pub proof fn lemma_batch_fills_before_dispatch<T>(a: AssemblerView<T>, x: T)
    ensures
        a.pending.len() + 1 < a.max_batch ==> {
            &&& spec_step(a, BatchEvent::Received(x)).0.pending == a.pending.push(x)
            &&& !(spec_step(a, BatchEvent::Received(x)).1 is Dispatch)
            &&& (spec_step(a, BatchEvent::Received(x)).1 is ArmDeadline <==> a.pending.len() == 0)
        },
        a.pending.len() + 1 >= a.max_batch ==> {
            &&& spec_step(a, BatchEvent::Received(x)).1 == Decision::Dispatch(a.pending.push(x))
            &&& spec_step(a, BatchEvent::Received(x)).0.pending.len() == 0
        },
        a.pending.len() > 0 ==> spec_step(a, BatchEvent::<T>::DeadlineElapsed).1 == Decision::Dispatch(a.pending)
            && spec_step(a, BatchEvent::<T>::Closed).1 == Decision::Dispatch(a.pending),
        a.pending.len() == 0 ==> spec_step(a, BatchEvent::<T>::DeadlineElapsed).1 is AwaitFirst
            && spec_step(a, BatchEvent::<T>::Closed).1 is Shutdown,
{
}

/// The batches a decision sends out: one, or none.
pub open spec fn dispatched<T>(d: Decision<T>) -> Seq<Seq<T>> {
    match d {
        Decision::Dispatch(b) => seq![b],
        _ => Seq::empty(),
    }
}

/// State reached and batches sent out, in order, when the worker goes
/// through `events` starting from `a`.
pub open spec fn run_events<T>(a: AssemblerView<T>, events: Seq<BatchEvent<T>>) -> (AssemblerView<T>, Seq<Seq<T>>)
    decreases events.len(),
{
    if events.len() == 0 {
        (a, Seq::empty())
    } else {
        let prev = run_events(a, events.drop_last());
        let next = spec_step(prev.0, events.last());
        (next.0, prev.1 + dispatched(next.1))
    }
}

/// The requests among `events`, in arrival order.
pub open spec fn received_items<T>(events: Seq<BatchEvent<T>>) -> Seq<T>
    decreases events.len(),
{
    if events.len() == 0 {
        Seq::empty()
    } else {
        received_items(events.drop_last()) + match events.last() {
            BatchEvent::Received(x) => seq![x],
            _ => Seq::empty(),
        }
    }
}

/// The batches laid end to end.
pub open spec fn concat_batches<T>(bs: Seq<Seq<T>>) -> Seq<T>
    decreases bs.len(),
{
    if bs.len() == 0 {
        Seq::empty()
    } else {
        concat_batches(bs.drop_last()) + bs.last()
    }
}

/// A batch that the worker may send out: not empty, and within the size
/// limit (a limit of 0 lets single requests through).
pub open spec fn batch_size_ok(len: nat, max_batch: nat) -> bool {
    1 <= len && (len <= max_batch || len == 1)
}

/// Dynamic batching loses, duplicates and reorders no request: whatever the
/// events, the batches sent out followed by the batch still being filled are
/// exactly the requests received, in arrival order. Every batch sent out is
/// non-empty and within the size limit.
pub proof fn lemma_batching_preserves_requests<T>(a: AssemblerView<T>, events: Seq<BatchEvent<T>>)
    requires
        assembler_wf(a),
    ensures
        concat_batches(run_events(a, events).1) + run_events(a, events).0.pending == a.pending
            + received_items(events),
        run_events(a, events).0.max_batch == a.max_batch,
        assembler_wf(run_events(a, events).0),
        forall|i: int|
            0 <= i < run_events(a, events).1.len() ==> batch_size_ok(
                #[trigger] run_events(a, events).1[i].len(),
                a.max_batch,
            ),
    decreases events.len(),
{
    if events.len() > 0 {
        let init = events.drop_last();
        lemma_batching_preserves_requests(a, init);
        let prev = run_events(a, init);
        let ev = events.last();
        let next = spec_step(prev.0, ev);
        let bs = prev.1 + dispatched(next.1);
        assert(run_events(a, events) == (next.0, bs));
        let c = concat_batches(prev.1);
        let p = prev.0.pending;
        let r = received_items(init);
        assert(c + p == a.pending + r);
        match ev {
            BatchEvent::Received(x) => {
                assert(received_items(events) == r + seq![x]);
                assert(p.push(x) =~= p + seq![x]);
                assert((c + p) + seq![x] =~= c + (p + seq![x]));
                assert((a.pending + r) + seq![x] =~= a.pending + (r + seq![x]));
            },
            _ => {
                assert(received_items(events) == r + Seq::<T>::empty());
                assert(r + Seq::<T>::empty() =~= r);
            },
        }
        match next.1 {
            Decision::Dispatch(b) => {
                assert(dispatched(next.1) == seq![b]);
                assert(bs.drop_last() =~= prev.1);
                assert(bs.last() == b);
                assert(concat_batches(bs) == c + b);
                assert(next.0.pending =~= Seq::<T>::empty());
                assert(c + b + next.0.pending =~= c + b);
                assert(batch_size_ok(b.len(), a.max_batch));
                assert forall|i: int| 0 <= i < bs.len() implies batch_size_ok(
                    #[trigger] bs[i].len(),
                    a.max_batch,
                ) by {
                    if i < prev.1.len() {
                        assert(bs[i] == prev.1[i]);
                    }
                }
            },
            _ => {
                assert(dispatched(next.1) == Seq::<Seq<T>>::empty());
                assert(bs =~= prev.1);
            },
        }
    } else {
        assert(a.pending + received_items(events) =~= a.pending);
        assert(concat_batches(run_events(a, events).1) =~= Seq::<T>::empty());
        assert(Seq::<T>::empty() + a.pending =~= a.pending);
    }
}

/// The counters after the worker goes through `events` starting from `a`.
pub open spec fn run_metrics<T>(m: BatchMetrics, a: AssemblerView<T>, events: Seq<BatchEvent<T>>) -> BatchMetrics
    decreases events.len(),
{
    if events.len() == 0 {
        m
    } else {
        let init = events.drop_last();
        let prev = run_events(a, init);
        metrics_after(run_metrics(m, a, init), events.last(), spec_step(prev.0, events.last()).1)
    }
}

/// The counters tell what the worker did: as long as they do not wrap
/// around, the queue depth drops by one per request taken off the queue (when
/// it counted at least those requests),
/// `total_batches` grows by the number of batches sent out and `total_items`
/// by the number of requests in them; the latency fields are left alone.
pub proof fn lemma_metrics_count_batches<T>(m: BatchMetrics, a: AssemblerView<T>, events: Seq<BatchEvent<T>>)
    requires
        assembler_wf(a),
        m.total_batches + events.len() <= usize::MAX,
        m.total_items + a.pending.len() + received_items(events).len() <= usize::MAX,
    ensures
        m.queue_depth >= received_items(events).len() ==> run_metrics(m, a, events).queue_depth
            == m.queue_depth - received_items(events).len(),
        run_metrics(m, a, events).total_batches == m.total_batches + run_events(a, events).1.len(),
        run_metrics(m, a, events).total_items == m.total_items + concat_batches(run_events(a, events).1).len(),
        run_metrics(m, a, events).queue_wait_ns == m.queue_wait_ns,
        run_metrics(m, a, events).batch_latency_ns == m.batch_latency_ns,
        run_metrics(m, a, events).infer_latency_ns == m.infer_latency_ns,
        run_events(a, events).1.len() <= events.len(),
    decreases events.len(),
{
    if events.len() > 0 {
        let init = events.drop_last();
        let ev = events.last();
        let r = match ev {
            BatchEvent::Received(x) => seq![x],
            _ => Seq::<T>::empty(),
        };
        assert(received_items(events) == received_items(init) + r);
        lemma_metrics_count_batches(m, a, init);
        lemma_batching_preserves_requests(a, events);
        lemma_batching_preserves_requests(a, init);
        let prev = run_events(a, init);
        let next = spec_step(prev.0, ev);
        let bs = prev.1 + dispatched(next.1);
        assert(run_events(a, events) == (next.0, bs));
        match next.1 {
            Decision::Dispatch(b) => {
                assert(bs.drop_last() =~= prev.1);
                assert(bs.last() == b);
                assert(concat_batches(bs) == concat_batches(prev.1) + b);
            },
            _ => {
                assert(bs =~= prev.1);
            },
        }
    }
}

proof fn lemma_concat_len_bounds<T>(bs: Seq<Seq<T>>, mb: nat)
    requires
        mb >= 1,
        forall|i: int| 0 <= i < bs.len() ==> batch_size_ok(#[trigger] bs[i].len(), mb),
    ensures
        bs.len() <= concat_batches(bs).len() <= mb * bs.len(),
    decreases bs.len(),
{
    if bs.len() > 0 {
        let init = bs.drop_last();
        assert forall|i: int| 0 <= i < init.len() implies batch_size_ok(#[trigger] init[i].len(), mb) by {
            assert(init[i] == bs[i]);
        }
        lemma_concat_len_bounds(init, mb);
        let k = init.len();
        let c = concat_batches(init).len();
        let l = bs.last().len();
        assert(batch_size_ok(bs[bs.len() - 1].len(), mb));
        assert(c + l <= mb * (k + 1)) by (nonlinear_arith)
            requires
                c <= mb * k,
                l <= mb,
        ;
    }
}

/// Batch counters of a fresh batcher: starting from no batch and counters at
/// zero, with a batch size limit of at least one, `total_batches <=
/// total_items <= max_batch * total_batches` holds after every event, and
/// `total_items` is the number of requests taken off the queue and already
/// sent out (those received, less the batch still being filled).
pub proof fn lemma_batch_counter_bounds<T>(m: BatchMetrics, a: AssemblerView<T>, events: Seq<BatchEvent<T>>)
    requires
        a.pending.len() == 0,
        a.max_batch >= 1,
        m.total_batches == 0,
        m.total_items == 0,
        events.len() <= usize::MAX,
    ensures
        run_metrics(m, a, events).total_batches <= run_metrics(m, a, events).total_items,
        run_metrics(m, a, events).total_items <= a.max_batch * run_metrics(m, a, events).total_batches,
        run_metrics(m, a, events).total_items == received_items(events).len() - run_events(
            a,
            events,
        ).0.pending.len(),
{
    lemma_received_len(events);
    lemma_metrics_count_batches(m, a, events);
    lemma_batching_preserves_requests(a, events);
    let bs = run_events(a, events).1;
    lemma_concat_len_bounds(bs, a.max_batch);
    assert(a.pending + received_items(events) =~= received_items(events));
}

proof fn lemma_received_len<T>(events: Seq<BatchEvent<T>>)
    ensures
        received_items(events).len() <= events.len(),
    decreases events.len(),
{
    if events.len() > 0 {
        lemma_received_len(events.drop_last());
    }
}

} // verus!
