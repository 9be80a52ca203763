use vstd::prelude::*;
use crate::batching::concat_batches;

verus! {

/// How a batch of requests is sent to the engine.
#[derive(Clone, Copy, Debug, PartialEq, Eq)]
pub enum DispatchPlan {
    /// One request: run it as it is.
    Single,
    /// Every input is one 4-D sample and all have the same shape: stack them
    /// along the first axis and run them together.
    Stacked,
    /// Run every request on its own.
    Individually,
}

/// An input that can join a stacked batch: four dimensions, the first of size 1.
pub open spec fn is_single_sample(shape: Seq<usize>) -> bool {
    shape.len() == 4 && shape[0] == 1
}

/// The input shapes of a batch, as sequences.
pub open spec fn shapes_view(shapes: Seq<Vec<usize>>) -> Seq<Seq<usize>> {
    shapes.map_values(|s: Vec<usize>| s@)
}

/// Whether every input is a single sample of one common shape.
pub open spec fn stackable(shapes: Seq<Seq<usize>>) -> bool {
    forall|i: int| 0 <= i < shapes.len() ==> is_single_sample(#[trigger] shapes[i]) && shapes[i] == shapes[0]
}

/// How a batch with these input shapes is run: alone when it holds one
/// request, stacked when all inputs are single samples of one shape, and one
/// by one otherwise.
pub open spec fn spec_plan(shapes: Seq<Seq<usize>>) -> DispatchPlan {
    if shapes.len() == 1 {
        DispatchPlan::Single
    } else if stackable(shapes) {
        DispatchPlan::Stacked
    } else {
        DispatchPlan::Individually
    }
}

/// Whether an input of this shape can join a stacked batch.
pub fn single_sample(shape: &Vec<usize>) -> (b: bool)
    ensures
        b == is_single_sample(shape@),
{
    shape.len() == 4 && shape[0] == 1
}

/// Whether two shapes are the same.
pub fn same_shape(a: &Vec<usize>, b: &Vec<usize>) -> (r: bool)
    ensures
        r == (a@ == b@),
{
    if a.len() != b.len() {
        return false;
    }
    let mut i: usize = 0;
    while i < a.len()
        invariant
            0 <= i <= a.len(),
            a.len() == b.len(),
            forall|k: int| 0 <= k < i ==> a@[k] == b@[k],
        decreases a.len() - i,
    {
        if a[i] != b[i] {
            return false;
        }
        i = i + 1;
    }
    assert(a@ =~= b@);
    true
}

/// Chooses how to run a batch from the shapes of its inputs, in order.
pub fn plan_dispatch(shapes: &Vec<Vec<usize>>) -> (p: DispatchPlan)
    requires
        shapes.len() >= 1,
    ensures
        p == spec_plan(shapes_view(shapes@)),
        shapes.len() == 1 ==> p == DispatchPlan::Single,
        p == DispatchPlan::Stacked ==> shapes.len() >= 2 && forall|i: int|
            0 <= i < shapes.len() ==> {
                &&& (#[trigger] shapes@[i])@.len() == 4
                &&& shapes@[i]@[0] == 1
                &&& shapes@[i]@ == shapes@[0]@
            },
        shapes.len() >= 2 && (exists|i: int|
            0 <= i < shapes.len() && ((#[trigger] shapes@[i])@.len() != 4 || shapes@[i]@[0] != 1))
            ==> p == DispatchPlan::Individually,
        shapes.len() >= 2 && (forall|i: int|
            0 <= i < shapes.len() ==> (#[trigger] shapes@[i])@.len() == 4 && shapes@[i]@[0] == 1
                && shapes@[i]@ == shapes@[0]@) ==> p == DispatchPlan::Stacked,
{
    proof {
        lemma_plan_cases(shapes_view(shapes@));
        let sv0 = shapes_view(shapes@);
        assert(forall|i: int| 0 <= i < shapes.len() ==> #[trigger] sv0[i] == shapes@[i]@);
    }
    let ghost sv = shapes_view(shapes@);
    if shapes.len() == 1 {
        return DispatchPlan::Single;
    }
    let mut i: usize = 0;
    while i < shapes.len()
        invariant
            0 <= i <= shapes.len(),
            sv == shapes_view(shapes@),
            sv.len() == shapes.len(),
            shapes.len() >= 2,
            forall|k: int| 0 <= k < i ==> is_single_sample(#[trigger] sv[k]) && sv[k] == sv[0],
        decreases shapes.len() - i,
    {
        assert(sv[i as int] == shapes@[i as int]@);
        assert(sv[0] == shapes@[0]@);
        if !single_sample(&shapes[i]) || !same_shape(&shapes[i], &shapes[0]) {
            assert(!(is_single_sample(sv[i as int]) && sv[i as int] == sv[0]));
            return DispatchPlan::Individually;
        }
        i = i + 1;
    }
    proof {
        assert forall|i: int| 0 <= i < shapes.len() implies (#[trigger] shapes@[i])@.len() == 4
            && shapes@[i]@[0] == 1 && shapes@[i]@ == shapes@[0]@ by {
            assert(sv[i] == shapes@[i]@);
            assert(sv[0] == shapes@[0]@);
            assert(is_single_sample(sv[i]) && sv[i] == sv[0]);
        }
    }
    DispatchPlan::Stacked
}

/// Which plan a batch gets: one request runs alone; a batch of two or more is
/// stacked exactly when every input has four dimensions, a first dimension of
/// 1 and the shape of the first input; any input with another rank or another
/// first dimension sends the batch one request at a time.
pub proof fn lemma_plan_cases(shapes: Seq<Seq<usize>>)
    ensures
        shapes.len() == 1 ==> spec_plan(shapes) == DispatchPlan::Single,
        spec_plan(shapes) == DispatchPlan::Stacked ==> shapes.len() != 1 && forall|i: int|
            0 <= i < shapes.len() ==> {
                &&& (#[trigger] shapes[i]).len() == 4
                &&& shapes[i][0] == 1
                &&& shapes[i] == shapes[0]
            },
        shapes.len() >= 2 && (exists|i: int|
            0 <= i < shapes.len() && ((#[trigger] shapes[i]).len() != 4 || shapes[i][0] != 1))
            ==> spec_plan(shapes) == DispatchPlan::Individually,
        shapes.len() >= 2 && (forall|i: int|
            0 <= i < shapes.len() ==> (#[trigger] shapes[i]).len() == 4 && shapes[i][0] == 1 && shapes[i]
                == shapes[0]) ==> spec_plan(shapes) == DispatchPlan::Stacked,
{
    if shapes.len() >= 2 && (exists|i: int|
        0 <= i < shapes.len() && ((#[trigger] shapes[i]).len() != 4 || shapes[i][0] != 1)) {
        let i = choose|i: int| 0 <= i < shapes.len() && ((#[trigger] shapes[i]).len() != 4 || shapes[i][0] != 1);
        assert(!is_single_sample(shapes[i]));
    }
}

/// Number of batch entries the model reported: the first output dimension,
/// read as a `usize` the way an `as` cast reads it.
pub open spec fn spec_batch_dim(out_shape: Seq<i64>) -> nat
    recommends
        out_shape.len() >= 1,
{
    (out_shape[0] as usize) as nat
}

/// Values per request in a batched output of `flat_len` values.
pub open spec fn spec_per_item(flat_len: nat, out_shape: Seq<i64>) -> nat {
    flat_len / spec_batch_dim(out_shape)
}

/// How many of `n` requests a batched output of `flat_len` values can answer,
/// in order: each takes `per` values, so all of them when `per` is 0, and
/// otherwise as many as there are whole runs of `per` values.
pub open spec fn spec_answerable(flat_len: nat, out_shape: Seq<i64>, n: nat) -> nat {
    let per = spec_per_item(flat_len, out_shape);
    if per == 0 {
        n
    } else if n <= flat_len / per {
        n
    } else {
        flat_len / per
    }
}

/// Number of requests, of the `n` in a batch, whose share of the batched
/// output is there to be sent back (the rest would read past its end).
pub fn answerable_items(flat_len: usize, out_shape: &Vec<i64>, n: usize) -> (k: usize)
    requires
        out_shape.len() >= 1,
        spec_batch_dim(out_shape@) > 0,
    ensures
        k == spec_answerable(flat_len as nat, out_shape@, n as nat),
        k <= n,
        k * spec_per_item(flat_len as nat, out_shape@) <= flat_len,
        k < n ==> (k + 1) * spec_per_item(flat_len as nat, out_shape@) > flat_len,
        k * (flat_len / (out_shape@[0] as usize)) <= flat_len,
        k < n ==> (k + 1) * (flat_len / (out_shape@[0] as usize)) > flat_len,
{
    let b = out_shape[0] as usize;
    let per = flat_len / b;
    if per == 0 {
        proof {
            assert(n * per == 0) by (nonlinear_arith)
                requires
                    per == 0,
            ;
        }
        return n;
    }
    let whole = flat_len / per;
    proof {
        vstd::arithmetic::div_mod::lemma_fundamental_div_mod(flat_len as int, per as int);
        assert(whole * per <= flat_len) by (nonlinear_arith)
            requires
                flat_len == per * whole + flat_len % per,
                flat_len % per >= 0,
        ;
        assert((whole + 1) * per > flat_len) by (nonlinear_arith)
            requires
                flat_len == per * whole + flat_len % per,
                flat_len % per < per,
        ;
    }
    if n <= whole {
        proof {
            assert(n * per <= whole * per) by (nonlinear_arith)
                requires
                    n <= whole,
            ;
        }
        n
    } else {
        whole
    }
}

/// Splits the flat output of a batched run into one result per request:
/// request `i` gets the `i`-th run of `per` consecutive values, where `per` is
/// the output length divided by the model's batch dimension, and the shape
/// `[per]`.
pub fn split_batch_output<T: Copy>(flat: &Vec<T>, out_shape: &Vec<i64>, n: usize) -> (r: Vec<(Vec<T>, Vec<i64>)>)
    requires
        out_shape.len() >= 1,
        spec_batch_dim(out_shape@) > 0,
        n * spec_per_item(flat.len() as nat, out_shape@) <= flat.len(),
    ensures
        r.len() == n,
        forall|i: int|
            0 <= i < n ==> {
                let per = spec_per_item(flat.len() as nat, out_shape@) as int;
                &&& (#[trigger] r[i]).0@ == flat@.subrange(i * per, i * per + per)
                &&& r[i].1@ == seq![per as i64]
            },
        forall|i: int|
            0 <= i < n ==> {
                let per = (flat.len() / (out_shape@[0] as usize)) as int;
                &&& (#[trigger] r[i]).0@ == flat@.subrange(i * per, i * per + per)
                &&& r[i].1@ == seq![per as i64]
            },
{
    let b = out_shape[0] as usize;
    let per = flat.len() / b;
    let ghost pi = per as int;
    let mut r: Vec<(Vec<T>, Vec<i64>)> = Vec::new();
    let mut i: usize = 0;
    while i < n
        invariant
            0 <= i <= n,
            per == spec_per_item(flat.len() as nat, out_shape@),
            pi == per,
            n * per <= flat.len(),
            r.len() == i,
            forall|k: int|
                0 <= k < i ==> {
                    &&& (#[trigger] r[k]).0@ == flat@.subrange(k * pi, k * pi + pi)
                    &&& r[k].1@ == seq![per as i64]
                },
        decreases n - i,
    {
        assert((i + 1) * per <= n * per) by (nonlinear_arith)
            requires
                i + 1 <= n,
        ;
        assert((i + 1) * per == i * per + per) by (nonlinear_arith);
        let offset = i * per;
        let mut chunk: Vec<T> = Vec::new();
        let mut j: usize = 0;
        while j < per
            invariant
                0 <= j <= per,
                offset == i * per,
                offset + per <= flat.len(),
                chunk@ =~= flat@.subrange(offset as int, offset + j),
            decreases per - j,
        {
            chunk.push(flat[offset + j]);
            j = j + 1;
        }
        let mut shape: Vec<i64> = Vec::new();
        shape.push(per as i64);
        assert(shape@ =~= seq![per as i64]);
        r.push((chunk, shape));
        i = i + 1;
    }
    r
}

/// The first `n` runs of `per` consecutive values of `flat`.
pub open spec fn output_slices<T>(flat: Seq<T>, per: nat, n: nat) -> Seq<Seq<T>> {
    Seq::new(n, |i: int| flat.subrange(i * per, i * per + per))
}

/// Every value of a batched output goes to exactly one request: when the
/// output holds `n` runs of `per` values, the per-request results laid end to
/// end give back the whole output, in order.
pub proof fn lemma_split_partitions_output<T>(flat: Seq<T>, per: nat, n: nat)
    requires
        n * per == flat.len(),
    ensures
        concat_batches(output_slices(flat, per, n)) == flat,
    decreases n,
{
    if n == 0 {
        assert(flat.len() == 0) by (nonlinear_arith)
            requires
                n == 0,
                n * per == flat.len(),
        ;
        assert(flat =~= Seq::<T>::empty());
    } else {
        let m = (n - 1) as nat;
        assert(m * per + per == n * per) by (nonlinear_arith)
            requires
                m == n - 1,
        ;
        let front = flat.subrange(0, (m * per) as int);
        lemma_split_partitions_output(front, per, m);
        let sl = output_slices(flat, per, n);
        assert(sl.drop_last() =~= output_slices(front, per, m)) by {
            assert forall|i: int| 0 <= i < m implies #[trigger] sl.drop_last()[i] == output_slices(
                front,
                per,
                m,
            )[i] by {
                assert(i * per + per <= m * per) by (nonlinear_arith)
                    requires
                        0 <= i < m,
                ;
                assert(i * per >= 0) by (nonlinear_arith)
                    requires
                        0 <= i,
                ;
                assert(flat.subrange(i * per, i * per + per) =~= front.subrange(i * per, i * per + per));
            }
        }
        assert(sl.last() == flat.subrange((m * per) as int, (m * per + per) as int));
        assert(front + flat.subrange((m * per) as int, (m * per + per) as int) =~= flat);
    }
}

} // verus!
