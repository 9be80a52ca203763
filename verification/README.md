# rustml_inference

An ONNX inference server (gRPC front end, dynamic batching, a pool of ONNX
Runtime sessions, a metrics endpoint) whose decision logic is verified with
Verus.

- `src/` — the verified library:
  - `config`: session pool size, threads per session, concurrency limit and
    queue capacity, from the CPU count and the `MAX_CONCURRENCY` setting;
  - `engine`: admission control (rank check, backpressure) and round-robin
    session selection;
  - `batching`: the batching worker as a state machine from events (request,
    queue closed, deadline) to actions, with its counters;
  - `dispatch`: how a batch is run (alone, stacked, one by one) and how a
    batched output is split between the requests;
  - `metrics`: the batcher's counters;
  - `grpc`: request shapes and the gathering of batch responses.
- `app/` — the server itself: tokio tasks and channels, ONNX Runtime
  sessions, ndarray tensors, the tonic gRPC service and the axum endpoint.
- `tests/` — tests of the library on concrete values.
