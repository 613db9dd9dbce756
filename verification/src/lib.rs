//! Verified core of an in-network gradient aggregation server.
//!
//! A group of peers each contribute a tensor of identical shape; the
//! collective produces the elementwise sum at every participant, either
//! through a central aggregator pipeline or through a ring all-reduce.
//! This crate holds the parts of that system that are pure logic and
//! proves them correct: partition bookkeeping for the shared tensor
//! buffers, the readiness-bitmask handshake between worker pools, the
//! bootstrap wire format, the reduction semantics over an exact element
//! model, the ring protocol, and the throughput accounting.
//!
//! Network transport, OS threads and the floating-point SIMD kernels
//! live outside this crate and drive these functions.

use vstd::prelude::*;

pub mod config;
pub mod mask;
pub mod partitioned_vec;
pub mod pipeline;
pub mod reduce;
pub mod ring;
pub mod stat;
pub mod wire;
pub mod utils;

verus! {

/// The transfer tag every send and receive agrees on by construction.
pub const TRANSFER_TAG: i32 = 0x69;

} // verus!
