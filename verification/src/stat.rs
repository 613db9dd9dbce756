//! Throughput accounting.
//!
//! After a run the driver reports how many bytes moved per pass and at
//! what rate. The sizes and the latency are exact integer arithmetic
//! and are computed here; the harness formats them. Rates are in bits
//! per second: bytes scale by eight for bits and the per-pass latency
//! is measured in microseconds.

use vstd::prelude::*;

verus! {

use crate::config::Config;

/// What one run reports.
pub struct Stats {
    /// Parallel links driven (one per configured address).
    pub nsplit: u64,
    /// Bytes per element on the wire.
    pub elem_size: u64,
    /// Bytes of one tensor on the wire.
    pub payload_bytes: u64,
    /// Bytes moved per pass: over all ranks in the ring topology, over
    /// all links in the aggregator topology.
    pub total_bytes: u64,
    /// Microseconds per pass.
    pub latency_us: u64,
    /// Reported rate in bits per second; none when the measured
    /// latency rounds to zero microseconds.
    pub bandwidth_bps: Option<u64>,
}

/// How many parallel links the address list names.
pub open spec fn spec_nsplit(args: &Config) -> int {
    args.addresses@.len() as int
}

/// Bytes of one tensor on the wire.
pub open spec fn spec_payload_bytes(args: &Config) -> int {
    args.count * args.data_type.spec_elem_size()
}

/// Over how many links one pass moves a tensor: every rank in the
/// ring topology, every configured address otherwise.
pub open spec fn spec_links(args: &Config) -> int {
    if args.ring_rank > 0 {
        args.nrank as int
    } else {
        spec_nsplit(args)
    }
}

/// Bytes moved per pass.
pub open spec fn spec_total_bytes(args: &Config) -> int {
    spec_links(args) * spec_payload_bytes(args)
}

/// Computes the run report: link count, wire sizes, the per-pass
/// latency, and the rate in bits per second.
pub fn print_stat(args: &Config, elapsed_us: u64) -> (r: Stats)
    requires
        1 <= args.try_count,
        1 <= args.nrank,
        1 <= args.addresses@.len(),
        spec_total_bytes(args) * 8_000_000 <= u64::MAX,
    ensures
        r.nsplit == spec_nsplit(args),
        r.elem_size == args.data_type.spec_elem_size(),
        r.payload_bytes == spec_payload_bytes(args),
        r.total_bytes == spec_total_bytes(args),
        r.latency_us == elapsed_us as int / args.try_count as int,
        r.latency_us == 0 ==> r.bandwidth_bps is None,
        r.latency_us >= 1 ==> r.bandwidth_bps == Some(
            (spec_total_bytes(args) * 8_000_000 / r.latency_us as int) as u64,
        ),
{
    let nsplit = args.addresses.len() as u64;
    let elem_size = args.data_type.elem_size() as u64;
    proof {
        let links = spec_links(args);
        let payload = spec_payload_bytes(args);
        assert(payload <= links * payload && links * payload <= links * payload * 8_000_000)
            by (nonlinear_arith)
            requires
                1 <= links,
                0 <= payload,
        ;
    }
    let payload_bytes = (args.count as u64) * elem_size;
    let total_bytes = if args.ring_rank > 0 {
        (args.nrank as u64) * payload_bytes
    } else {
        nsplit * payload_bytes
    };
    let latency_us = elapsed_us / (args.try_count as u64);
    let bandwidth_bps = if latency_us == 0 {
        None
    } else {
        proof {
            vstd::arithmetic::div_mod::lemma_div_is_ordered(
                0,
                total_bytes * 8_000_000,
                latency_us as int,
            );
            vstd::arithmetic::div_mod::lemma_div_is_ordered_by_denominator(
                total_bytes * 8_000_000,
                1,
                latency_us as int,
            );
        }
        Some(total_bytes * 8_000_000 / latency_us)
    };
    Stats { nsplit, elem_size, payload_bytes, total_bytes, latency_us, bandwidth_bps }
}

/// Sanity bound on the reported rate: over a measurement interval of
/// `latency` microseconds in which `links` links each carried
/// `link_bits` scaled bits, the reported rate times the interval never
/// exceeds `links · link_bits` — aggregate throughput is at most the
/// link count times per-link capacity.
pub proof fn lemma_bandwidth_bound(total_bits: int, latency: int, links: int, link_bits: int)
    requires
        1 <= latency,
        0 <= total_bits,
        total_bits <= links * link_bits,
    ensures
        (total_bits / latency) * latency <= links * link_bits,
{
    vstd::arithmetic::div_mod::lemma_fundamental_div_mod(total_bits, latency);
    vstd::arithmetic::div_mod::lemma_mod_bound(total_bits, latency);
    assert(latency * (total_bits / latency) == (total_bits / latency) * latency)
        by (nonlinear_arith);
}

} // verus!
