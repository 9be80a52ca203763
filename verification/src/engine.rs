use vstd::prelude::*;
use crate::metrics::counter_add;

verus! {

/// Why the engine turned a request away before running the model.
#[derive(Clone, Copy, Debug, PartialEq, Eq)]
pub enum EngineError {
    /// The input does not have as many dimensions as the model's input.
    RankMismatch { expected: usize, got: usize },
    /// As many requests as allowed are already running.
    Overloaded,
}

/// The state of an inference engine that its scheduling decisions read:
/// the model's input shape, the size of the session pool, the round-robin
/// counter, the number of requests in flight and the concurrency limit.
pub struct EngineState {
    input_shape: Vec<i64>,
    pool_size: usize,
    index: usize,
    active_requests: usize,
    max_concurrency: usize,
}

/// Abstract view of an [`EngineState`].
pub struct EngineView {
    pub input_shape: Seq<i64>,
    pub pool_size: nat,
    pub index: usize,
    pub active_requests: usize,
    pub max_concurrency: usize,
}

impl View for EngineState {
    type V = EngineView;

    closed spec fn view(&self) -> EngineView {
        EngineView {
            input_shape: self.input_shape@,
            pool_size: self.pool_size as nat,
            index: self.index,
            active_requests: self.active_requests,
            max_concurrency: self.max_concurrency,
        }
    }
}

/// Outcome of admitting a request with an input of `input_rank` dimensions:
/// a rank check against the model first, then the concurrency limit.
pub open spec fn spec_begin_request(e: EngineView, input_rank: nat) -> Result<(), EngineError> {
    if input_rank != e.input_shape.len() {
        Err(EngineError::RankMismatch { expected: e.input_shape.len() as usize, got: input_rank as usize })
    } else if e.active_requests >= e.max_concurrency {
        Err(EngineError::Overloaded)
    } else {
        Ok(())
    }
}

/// Session picked by the round-robin counter `index` in a pool of `pool` sessions.
pub open spec fn spec_pick(index: usize, pool: nat) -> nat
    recommends
        pool > 0,
{
    (index as nat) % pool
}

impl EngineState {
    #[verifier::type_invariant]
    spec fn inv(self) -> bool {
        &&& self.pool_size >= 1
        &&& self.active_requests <= self.max_concurrency
    }

    /// An engine over `pool_size >= 1` sessions of a model with the given
    /// input shape, with nothing in flight and the round-robin counter at 0.
    pub fn new(input_shape: Vec<i64>, pool_size: usize, max_concurrency: usize) -> (e: Self)
        requires
            pool_size >= 1,
        ensures
            e@.input_shape == input_shape@,
            e@.pool_size == pool_size,
            e@.index == 0,
            e@.active_requests == 0,
            e@.max_concurrency == max_concurrency,
            e@.active_requests <= e@.max_concurrency,
    {
        EngineState { input_shape, pool_size, index: 0, active_requests: 0, max_concurrency }
    }

    /// The model's input shape.
    pub fn input_shape(&self) -> (s: &Vec<i64>)
        ensures
            s@ == self@.input_shape,
    {
        &self.input_shape
    }

    /// Number of sessions in the pool.
    pub fn pool_size(&self) -> (n: usize)
        ensures
            n == self@.pool_size,
            n >= 1,
    {
        proof {
            use_type_invariant(self);
        }
        self.pool_size
    }

    /// Requests admitted and not yet released; never more than the limit.
    pub fn active_requests(&self) -> (n: usize)
        ensures
            n == self@.active_requests,
            n <= self@.max_concurrency,
    {
        proof {
            use_type_invariant(self);
        }
        self.active_requests
    }

    /// Most requests allowed in flight at once.
    pub fn max_concurrency(&self) -> (n: usize)
        ensures
            n == self@.max_concurrency,
    {
        self.max_concurrency
    }

    /// The round-robin counter.
    pub fn index(&self) -> (n: usize)
        ensures
            n == self@.index,
    {
        self.index
    }

    /// Admits a request whose input has `input_rank` dimensions. A rank that
    /// differs from the model's is refused first; otherwise the request is
    /// refused when the concurrency limit is reached, and counted in flight
    /// when it is not.
    pub fn begin_request(&mut self, input_rank: usize) -> (r: Result<(), EngineError>)
        ensures
            r == spec_begin_request(old(self)@, input_rank as nat),
            r is Ok ==> final(self)@ == (EngineView {
                active_requests: (old(self)@.active_requests + 1) as usize,
                ..old(self)@
            }),
            r is Err ==> final(self)@ == old(self)@,
            final(self)@.active_requests <= final(self)@.max_concurrency,
            input_rank != old(self)@.input_shape.len() ==> r == Err::<(), EngineError>(
                EngineError::RankMismatch {
                    expected: old(self)@.input_shape.len() as usize,
                    got: input_rank,
                },
            ) && final(self)@ == old(self)@,
            input_rank == old(self)@.input_shape.len() && old(self)@.active_requests
                >= old(self)@.max_concurrency ==> r == Err::<(), EngineError>(EngineError::Overloaded)
                && final(self)@ == old(self)@,
            input_rank == old(self)@.input_shape.len() && old(self)@.active_requests
                < old(self)@.max_concurrency ==> r is Ok && final(self)@.active_requests
                == old(self)@.active_requests + 1,
    {
        proof {
            use_type_invariant(&*self);
        }
        if input_rank != self.input_shape.len() {
            return Err(EngineError::RankMismatch { expected: self.input_shape.len(), got: input_rank });
        }
        if self.active_requests >= self.max_concurrency {
            return Err(EngineError::Overloaded);
        }
        self.active_requests = self.active_requests + 1;
        Ok(())
    }

    /// A request that was admitted has finished, successfully or not: it no
    /// longer counts as in flight.
    pub fn end_request(&mut self)
        requires
            old(self)@.active_requests > 0,
        ensures
            final(self)@ == (EngineView {
                active_requests: (old(self)@.active_requests - 1) as usize,
                ..old(self)@
            }),
    {
        proof {
            use_type_invariant(&*self);
        }
        self.active_requests = self.active_requests - 1;
    }

    /// Ends an admitted request whatever its outcome, and hands the outcome
    /// back: a request that failed after admission frees its slot just as
    /// one that succeeded.
    pub fn complete_request<T, E>(&mut self, outcome: Result<T, E>) -> (r: Result<T, E>)
        requires
            old(self)@.active_requests > 0,
        ensures
            r == outcome,
            final(self)@ == (EngineView {
                active_requests: (old(self)@.active_requests - 1) as usize,
                ..old(self)@
            }),
    {
        self.end_request();
        outcome
    }

    /// Picks the session for the next request, round robin: the counter
    /// modulo the pool size, and the counter moves on by one.
    pub fn select_session(&mut self) -> (i: usize)
        ensures
            i == spec_pick(old(self)@.index, old(self)@.pool_size),
            i == (old(self)@.index as nat) % old(self)@.pool_size,
            i < old(self)@.pool_size,
            final(self)@ == (EngineView {
                index: counter_add(old(self)@.index, 1),
                ..old(self)@
            }),
    {
        proof {
            use_type_invariant(&*self);
        }
        let i = self.index % self.pool_size;
        self.index = self.index.wrapping_add(1);
        i
    }
}

/// Backpressure: admitting a request never takes the number in flight above
/// the limit, and releasing an admitted request keeps it there.
pub proof fn lemma_backpressure_limit(e: EngineView, input_rank: nat)
    requires
        e.active_requests <= e.max_concurrency,
    ensures
        spec_begin_request(e, input_rank) is Ok ==> e.active_requests + 1 <= e.max_concurrency,
        spec_begin_request(e, input_rank) == Err::<(), EngineError>(EngineError::Overloaded) <==> (
            input_rank == e.input_shape.len() && e.active_requests == e.max_concurrency),
        e.active_requests > 0 ==> e.active_requests - 1 <= e.max_concurrency,
{
}

/// The rank is checked before the concurrency limit: an input whose rank
/// differs from the model's is refused as a rank mismatch, naming both ranks,
/// whatever the number in flight; an input of the right rank is refused as
/// overloaded exactly when the limit is reached, and admitted otherwise.
pub proof fn lemma_rank_checked_before_limit(e: EngineView, input_rank: nat)
    requires
        input_rank <= usize::MAX,
    ensures
        input_rank != e.input_shape.len() ==> spec_begin_request(e, input_rank) == Err::<(), EngineError>(
            EngineError::RankMismatch { expected: e.input_shape.len() as usize, got: input_rank as usize },
        ),
        input_rank == e.input_shape.len() ==> (spec_begin_request(e, input_rank) is Ok <==> e.active_requests
            < e.max_concurrency),
        input_rank == e.input_shape.len() && e.active_requests >= e.max_concurrency ==> spec_begin_request(
            e,
            input_rank,
        ) == Err::<(), EngineError>(EngineError::Overloaded),
{
}

/// Releasing a request undoes admitting it.
pub proof fn lemma_begin_end_restores(e: EngineView)
    requires
        e.active_requests < e.max_concurrency,
    ensures
        ((e.active_requests + 1) as usize) - 1 == e.active_requests,
{
}

/// Counter value after `k` selections starting from `start`.
pub open spec fn counter_after(start: usize, k: nat) -> usize
    decreases k,
{
    if k == 0 {
        start
    } else {
        counter_add(counter_after(start, (k - 1) as nat), 1)
    }
}

/// Session picked by the `k`-th selection (counting from 0) after the
/// counter stood at `start`.
pub open spec fn nth_pick(start: usize, pool: nat, k: nat) -> nat {
    spec_pick(counter_after(start, k), pool)
}

/// Some selection among the `pool` that follow counter value `start` picks session `s`.
pub open spec fn window_covers(start: usize, pool: nat, s: nat) -> bool {
    exists|j: nat| j < pool && #[trigger] nth_pick(start, pool, j) == s
}

proof fn lemma_counter_after_no_wrap(start: usize, k: nat)
    requires
        start + k <= usize::MAX,
    ensures
        counter_after(start, k) == start + k,
    decreases k,
{
    if k > 0 {
        lemma_counter_after_no_wrap(start, (k - 1) as nat);
    }
}

/// Round robin spreads load evenly: any `pool` consecutive selections (while
/// the counter does not wrap) pick every session of the pool exactly once.
pub proof fn lemma_round_robin_window(start: usize, pool: nat)
    requires
        pool >= 1,
        start + pool <= usize::MAX + 1,
    ensures
        forall|j1: nat, j2: nat|
            j1 < pool && j2 < pool && j1 != j2 ==> nth_pick(start, pool, j1) != nth_pick(
                start,
                pool,
                j2,
            ),
        forall|s: nat| s < pool ==> #[trigger] window_covers(start, pool, s),
{
    let p = pool as int;
    let st = start as int;
    assert forall|j1: nat, j2: nat|
        j1 < pool && j2 < pool && j1 != j2 implies nth_pick(start, pool, j1) != nth_pick(
        start,
        pool,
        j2,
    ) by {
        lemma_counter_after_no_wrap(start, j1);
        lemma_counter_after_no_wrap(start, j2);
        lemma_distinct_mod(st + j1, st + j2, p);
    }
    assert forall|s: nat| s < pool implies #[trigger] window_covers(start, pool, s) by {
        let r = st % p;
        vstd::arithmetic::div_mod::lemma_fundamental_div_mod(st, p);
        let q = st / p;
        let j: nat = if s >= r { (s - r) as nat } else { (s + p - r) as nat };
        lemma_counter_after_no_wrap(start, j);
        if s >= r {
            assert(st + j == p * q + s);
            vstd::arithmetic::div_mod::lemma_mod_multiples_vanish(q, s as int, p);
        } else {
            assert(st + j == p * (q + 1) + s) by (nonlinear_arith)
                requires
                    st == p * q + r,
                    j == s + p - r,
            ;
            vstd::arithmetic::div_mod::lemma_mod_multiples_vanish(q + 1, s as int, p);
        }
        vstd::arithmetic::div_mod::lemma_small_mod(s, pool);
        assert(nth_pick(start, pool, j) == s);
    }
}

proof fn lemma_distinct_mod(a: int, b: int, p: int)
    requires
        p >= 1,
        a >= 0,
        b >= 0,
        a != b,
        a - b < p,
        b - a < p,
    ensures
        a % p != b % p,
{
    vstd::arithmetic::div_mod::lemma_fundamental_div_mod(a, p);
    vstd::arithmetic::div_mod::lemma_fundamental_div_mod(b, p);
    let qa = a / p;
    let qb = b / p;
    if a % p == b % p {
        assert(a - b == p * (qa - qb)) by (nonlinear_arith)
            requires
                a == p * qa + a % p,
                b == p * qb + b % p,
                a % p == b % p,
        ;
        if qa - qb >= 1 {
            assert(p * (qa - qb) >= p) by (nonlinear_arith)
                requires
                    qa - qb >= 1,
                    p >= 1,
            ;
        } else if qa - qb <= -1 {
            assert(p * (qa - qb) <= -p) by (nonlinear_arith)
                requires
                    qa - qb <= -1,
                    p >= 1,
            ;
        }
    }
}

} // verus!
