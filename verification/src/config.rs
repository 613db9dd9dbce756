//! Run configuration.
//!
//! Rank count, topology and worker pool sizes are fixed for the
//! lifetime of a run; this module holds them as plain values, checks
//! the constraints the pipeline needs before any worker starts, and
//! fixes the wire size of each element type. Parsing the command line
//! into these fields is the harness's job.

use vstd::prelude::*;

verus! {

/// The tensor element type of a run. Every buffer of one run uses one
/// element type.
#[derive(Clone, Copy, Debug, PartialEq, Eq, Structural)]
pub enum DataType {
    /// IEEE single precision.
    F32,
    /// IEEE half precision.
    F16,
    /// Brain floating point.
    Bf16,
}

impl DataType {
    /// Size of one element on the wire, in bytes.
    pub open spec fn spec_elem_size(&self) -> int {
        match self {
            DataType::F32 => 4,
            DataType::F16 => 2,
            DataType::Bf16 => 2,
        }
    }

    /// Size of one element on the wire, in bytes.
    pub fn elem_size(&self) -> (r: usize)
        ensures
            r == self.spec_elem_size(),
    {
        match self {
            DataType::F32 => 4,
            DataType::F16 => 2,
            DataType::Bf16 => 2,
        }
    }
}

/// Why a configuration cannot start a pipeline.
#[derive(Clone, Copy, Debug, PartialEq, Eq, Structural)]
pub enum ConfigError {
    /// A count that must be positive is zero.
    ZeroValue,
    /// A worker pool is wider than a readiness word can index.
    MaskWidth,
    /// The rank count does not divide among the receive workers.
    RecvSplit,
    /// The rank count does not divide among the send workers.
    SendSplit,
    /// The element count does not divide among the reduce workers.
    CountSplit,
}

/// One run's settings, as the command line fixes them. The address
/// list is already split at commas; `recv_threads` and `send_threads`
/// of zero mean one per rank and are resolved before validation.
pub struct Config {
    /// Chatty logging.
    pub verbose: bool,
    /// Run as the test-driver client.
    pub client: bool,
    /// Run as the symmetric bench echo server.
    pub bench: bool,
    /// TCP port of the bootstrap listener.
    pub port: u16,
    /// Peer addresses, one per parallel link.
    pub addresses: Vec<String>,
    /// Elements per tensor.
    pub count: usize,
    /// Passes to run.
    pub try_count: usize,
    /// Reduce workers per job.
    pub reduce_threads: usize,
    /// Jobs pipelined over the same workers.
    pub reduce_jobs: usize,
    /// Receive workers; resolved from zero to `nrank`.
    pub recv_threads: usize,
    /// Send workers; resolved from zero to `nrank`.
    pub send_threads: usize,
    /// Parallel ring instances.
    pub nchannel: usize,
    /// In-flight request batches.
    pub nreq: usize,
    /// Peers in the collective.
    pub nrank: usize,
    /// Element type of every buffer.
    pub data_type: DataType,
    /// This peer's rank in the ring topology; zero selects the
    /// aggregator topology.
    pub ring_rank: usize,
    /// Address of the hierarchical upstream aggregator; empty for
    /// none.
    pub upstream: String,
}

impl Config {
    /// The constraints the pipeline is built under: positive counts,
    /// worker pools no wider than a readiness word, ranks dividing
    /// evenly among the receive and send pools, and elements dividing
    /// evenly among the reduce workers.
    pub open spec fn valid(&self) -> bool {
        &&& 1 <= self.nrank
        &&& 1 <= self.count
        &&& 1 <= self.try_count
        &&& 1 <= self.reduce_threads
        &&& 1 <= self.reduce_jobs
        &&& 1 <= self.recv_threads
        &&& 1 <= self.send_threads
        &&& 1 <= self.nreq
        &&& 1 <= self.nchannel
        &&& self.recv_threads <= 63
        &&& self.send_threads <= 63
        &&& self.nrank as int % self.recv_threads as int == 0
        &&& self.nrank as int % self.send_threads as int == 0
        &&& self.count as int % self.reduce_threads as int == 0
    }

    /// The outcome validation is specified to give: the first failing
    /// check, in a fixed order, or success.
    pub open spec fn spec_validate(&self) -> Result<(), ConfigError> {
        if self.nrank == 0 || self.count == 0 || self.try_count == 0 || self.reduce_threads == 0
            || self.reduce_jobs == 0 || self.recv_threads == 0 || self.send_threads == 0
            || self.nreq == 0 || self.nchannel == 0 {
            Err(ConfigError::ZeroValue)
        } else if self.recv_threads > 63 || self.send_threads > 63 {
            Err(ConfigError::MaskWidth)
        } else if self.nrank as int % self.recv_threads as int != 0 {
            Err(ConfigError::RecvSplit)
        } else if self.nrank as int % self.send_threads as int != 0 {
            Err(ConfigError::SendSplit)
        } else if self.count as int % self.reduce_threads as int != 0 {
            Err(ConfigError::CountSplit)
        } else {
            Ok(())
        }
    }

    /// Checks the pipeline's constraints, reporting the first failure;
    /// succeeds exactly on valid configurations.
    pub fn validate(&self) -> (r: Result<(), ConfigError>)
        ensures
            r == self.spec_validate(),
            r is Ok <==> self.valid(),
    {
        if self.nrank == 0 || self.count == 0 || self.try_count == 0 || self.reduce_threads == 0
            || self.reduce_jobs == 0 || self.recv_threads == 0 || self.send_threads == 0
            || self.nreq == 0 || self.nchannel == 0 {
            Err(ConfigError::ZeroValue)
        } else if self.recv_threads > 63 || self.send_threads > 63 {
            Err(ConfigError::MaskWidth)
        } else if self.nrank % self.recv_threads != 0 {
            Err(ConfigError::RecvSplit)
        } else if self.nrank % self.send_threads != 0 {
            Err(ConfigError::SendSplit)
        } else if self.count % self.reduce_threads != 0 {
            Err(ConfigError::CountSplit)
        } else {
            Ok(())
        }
    }
}

} // verus!
