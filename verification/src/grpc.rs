use vstd::prelude::*;

verus! {

/// Outcome of a batch of requests answered one by one: every response, in
/// request order, when all succeeded; otherwise the error of the first
/// request (in request order) that failed.
pub open spec fn spec_collect<T, E>(rs: Seq<Result<T, E>>) -> Result<Seq<T>, E>
    decreases rs.len(),
{
    if rs.len() == 0 {
        Ok(Seq::empty())
    } else {
        match spec_collect(rs.drop_last()) {
            Err(e) => Err(e),
            Ok(ts) => match rs.last() {
                Ok(t) => Ok(ts.push(t)),
                Err(e) => Err(e),
            },
        }
    }
}

/// A batch succeeds exactly when every one of its requests succeeds, and then
/// it answers every request, one response each, in request order.
pub proof fn lemma_collect_all_or_first_error<T, E>(rs: Seq<Result<T, E>>)
    ensures
        spec_collect(rs) is Ok <==> (forall|i: int| 0 <= i < rs.len() ==> #[trigger] rs[i] is Ok),
        spec_collect(rs) is Ok ==> {
            let ts = spec_collect(rs)->Ok_0;
            &&& ts.len() == rs.len()
            &&& forall|i: int| 0 <= i < rs.len() ==> #[trigger] rs[i] == Ok::<T, E>(ts[i])
        },
        spec_collect(rs) is Err ==> exists|i: int|
            0 <= i < rs.len() && rs[i] == Err::<T, E>(spec_collect(rs)->Err_0) && (forall|k: int|
                0 <= k < i ==> #[trigger] rs[k] is Ok),
    decreases rs.len(),
{
    if rs.len() > 0 {
        let init = rs.drop_last();
        lemma_collect_all_or_first_error(init);
        assert(forall|i: int| 0 <= i < init.len() ==> #[trigger] init[i] == rs[i]);
        match spec_collect(init) {
            Err(e) => {
                let i = choose|i: int|
                    0 <= i < init.len() && init[i] == Err::<T, E>(e) && (forall|k: int|
                        0 <= k < i ==> #[trigger] init[k] is Ok);
                assert(rs[i] == Err::<T, E>(e));
                assert(!(rs[i] is Ok));
                assert(spec_collect(rs) == Err::<Seq<T>, E>(e));
                assert forall|k: int| 0 <= k < i implies #[trigger] rs[k] is Ok by {
                    assert(init[k] is Ok);
                }
                assert(exists|j: int|
                    0 <= j < rs.len() && rs[j] == Err::<T, E>(spec_collect(rs)->Err_0) && (forall|k: int|
                        0 <= k < j ==> #[trigger] rs[k] is Ok));
            },
            Ok(ts) => {
                match rs.last() {
                    Ok(t) => {
                        assert forall|i: int| 0 <= i < rs.len() implies #[trigger] rs[i] == Ok::<T, E>(
                            ts.push(t)[i],
                        ) by {
                            if i < init.len() {
                                assert(init[i] == Ok::<T, E>(ts[i]));
                            }
                        }
                    },
                    Err(e) => {
                        let i = rs.len() - 1;
                        assert(rs[i] == Err::<T, E>(e));
                        assert forall|k: int| 0 <= k < i implies #[trigger] rs[k] is Ok by {
                            assert(init[k] is Ok);
                        }
                        assert(spec_collect(rs) == Err::<Seq<T>, E>(e));
                        assert(exists|j: int|
                            0 <= j < rs.len() && rs[j] == Err::<T, E>(spec_collect(rs)->Err_0) && (forall|
                                k: int,
                            |
                                0 <= k < j ==> #[trigger] rs[k] is Ok));
                    },
                }
            },
        }
    }
}

proof fn lemma_collect_error_sticks<T, E>(rs: Seq<Result<T, E>>, i: int, k: int, e: E)
    requires
        0 <= i < k <= rs.len(),
        spec_collect(rs.take(i + 1)) == Err::<Seq<T>, E>(e),
    ensures
        spec_collect(rs.take(k)) == Err::<Seq<T>, E>(e),
    decreases k - i,
{
    if k > i + 1 {
        lemma_collect_error_sticks(rs, i, k - 1, e);
        assert(rs.take(k).drop_last() =~= rs.take(k - 1));
    }
}

/// Gathers the answers to the requests of a batch, in request order, and
/// stops at the first failure.
pub fn collect_batch_responses<T, E>(results: Vec<Result<T, E>>) -> (r: Result<Vec<T>, E>)
    ensures
        match r {
            Ok(v) => spec_collect(results@) == Ok::<Seq<T>, E>(v@),
            Err(e) => spec_collect(results@) == Err::<Seq<T>, E>(e),
        },
        r is Ok ==> r->Ok_0.len() == results.len() && forall|i: int|
            0 <= i < results.len() ==> #[trigger] results@[i] == Ok::<T, E>(r->Ok_0@[i]),
        r is Err ==> exists|i: int|
            0 <= i < results.len() && results@[i] == Err::<T, E>(r->Err_0) && forall|k: int|
                0 <= k < i ==> #[trigger] results@[k] is Ok,
        (forall|i: int| 0 <= i < results.len() ==> #[trigger] results@[i] is Ok) ==> r is Ok,
{
    let ghost rs = results@;
    let mut out: Vec<T> = Vec::new();
    let mut pending = results;
    let n = pending.len();
    // Reverse the requests so that popping yields them in request order.
    let mut queue: Vec<Result<T, E>> = Vec::new();
    while pending.len() > 0
        invariant
            n == rs.len(),
            pending@ == rs.take(pending.len() as int),
            queue.len() + pending.len() == n,
            forall|k: int| 0 <= k < queue.len() ==> #[trigger] queue@[k] == rs[n - 1 - k],
        decreases pending.len(),
    {
        let item = pending.pop().unwrap();
        queue.push(item);
    }
    let mut i: usize = 0;
    assert(rs.take(0) =~= Seq::<Result<T, E>>::empty());
    while queue.len() > 0
        invariant
            n == rs.len(),
            i + queue.len() == n,
            rs == results@,
            forall|k: int| 0 <= k < queue.len() ==> #[trigger] queue@[k] == rs[n - 1 - k],
            spec_collect(rs.take(i as int)) == Ok::<Seq<T>, E>(out@),
        decreases queue.len(),
    {
        let item = queue.pop().unwrap();
        assert(item == rs[i as int]);
        assert(rs.take(i + 1).drop_last() =~= rs.take(i as int));
        match item {
            Ok(t) => {
                assert(rs.take(i + 1).last() == rs[i as int]);
                out.push(t);
            },
            Err(e) => {
                proof {
                    assert(rs.take(i + 1).last() == rs[i as int]);
                    assert(spec_collect(rs.take(i + 1)) == Err::<Seq<T>, E>(e));
                    if i + 1 < n {
                        lemma_collect_error_sticks(rs, i as int, n as int, e);
                    }
                    assert(rs.take(n as int) =~= rs);
                    lemma_collect_all_or_first_error(rs);
                }
                return Err(e);
            },
        }
        i = i + 1;
    }
    assert(rs.take(n as int) =~= rs);
    proof {
        lemma_collect_all_or_first_error(rs);
    }
    Ok(out)
}

/// The shape carried by a prediction request, read as array dimensions: each
/// entry is cast to `usize` as `as` casts (a negative entry wraps around).
pub fn request_shape(shape: &Vec<i64>) -> (dims: Vec<usize>)
    ensures
        dims.len() == shape.len(),
        forall|i: int| 0 <= i < shape.len() ==> #[trigger] dims[i] == shape[i] as usize,
{
    let mut dims: Vec<usize> = Vec::new();
    let mut i: usize = 0;
    while i < shape.len()
        invariant
            0 <= i <= shape.len(),
            dims.len() == i,
            forall|k: int| 0 <= k < i ==> #[trigger] dims[k] == shape[k] as usize,
        decreases shape.len() - i,
    {
        dims.push(shape[i] as usize);
        i = i + 1;
    }
    dims
}

} // verus!
