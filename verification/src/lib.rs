//! Verified core of an ONNX inference server: engine sizing, admission
//! control and round-robin session scheduling, the dynamic batching state
//! machine with its counters, and the bookkeeping around batched results.

pub mod config;
pub mod metrics;
pub mod engine;
pub mod batching;
pub mod dispatch;
pub mod grpc;
