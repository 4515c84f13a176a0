use vstd::prelude::*;

use crate::concurrent::{
    bucket_capacity, capacity_spec, concurrent_output, overflows, OVER_PROVISION_DENOMINATOR,
    OVER_PROVISION_NUMERATOR,
};
use crate::dataset::Tuple;
use crate::error::PartitionError;
use crate::hashing::valid_hash_bits;
use crate::independent::{holds_buckets, independent_output, is_independent_result};
use crate::routing::routed_all;

verus! {

/// How the workers write their tuples into buckets.
#[derive(Debug, Clone, Copy, PartialEq, Eq, Structural)]
pub enum Strategy {
    /// Each thread owns private buckets; no synchronization.
    Independent,
    /// All threads share one bucket array and claim slots atomically.
    Concurrent,
}

/// A strategy together with whether worker threads ask to be pinned to cores.
#[derive(Debug, Clone, Copy, PartialEq, Eq, Structural)]
pub struct Method {
    pub strategy: Strategy,
    pub pin: bool,
}

/// The method that a numeric selector names: 1 and 3 are the independent
/// strategy, 2 and 4 the concurrent one, and 3 and 4 pin their threads.
pub fn method_from_selector(selector: i64) -> (r: Result<Method, PartitionError>)
    ensures
        selector == 1 ==> r == Ok::<Method, PartitionError>(Method { strategy: Strategy::Independent, pin: false }),
        selector == 2 ==> r == Ok::<Method, PartitionError>(Method { strategy: Strategy::Concurrent, pin: false }),
        selector == 3 ==> r == Ok::<Method, PartitionError>(Method { strategy: Strategy::Independent, pin: true }),
        selector == 4 ==> r == Ok::<Method, PartitionError>(Method { strategy: Strategy::Concurrent, pin: true }),
        !(1 <= selector <= 4) ==> r == Err::<Method, PartitionError>(PartitionError::InvalidMethod { selector }),
{
    if selector == 1 {
        Ok(Method { strategy: Strategy::Independent, pin: false })
    } else if selector == 2 {
        Ok(Method { strategy: Strategy::Concurrent, pin: false })
    } else if selector == 3 {
        Ok(Method { strategy: Strategy::Independent, pin: true })
    } else if selector == 4 {
        Ok(Method { strategy: Strategy::Concurrent, pin: true })
    } else {
        Err(PartitionError::InvalidMethod { selector })
    }
}

/// The parameters of one partitioning run.
#[derive(Debug, Clone, Copy, PartialEq, Eq, Structural)]
pub struct PartitionConfig {
    pub num_threads: usize,
    pub hash_bits: u32,
    pub strategy: Strategy,
    /// Whether worker threads ask to be pinned to cores. Pinning is a
    /// performance hint only: the work done and its result never depend on it.
    pub pin: bool,
    /// Hand the buckets back (collection mode) rather than dropping them
    /// once written (measurement mode).
    pub collect: bool,
    /// The over-provisioning factor of the concurrent strategy's buckets is
    /// `over_numerator / over_denominator`.
    pub over_numerator: usize,
    pub over_denominator: usize,
}

impl PartitionConfig {
    /// A configuration with the default over-provisioning factor of 3/2.
    pub fn new(num_threads: usize, hash_bits: u32, strategy: Strategy, pin: bool, collect: bool) -> (r: PartitionConfig)
        ensures
            r == (PartitionConfig {
                num_threads,
                hash_bits,
                strategy,
                pin,
                collect,
                over_numerator: OVER_PROVISION_NUMERATOR,
                over_denominator: OVER_PROVISION_DENOMINATOR,
            }),
    {
        PartitionConfig {
            num_threads,
            hash_bits,
            strategy,
            pin,
            collect,
            over_numerator: OVER_PROVISION_NUMERATOR,
            over_denominator: OVER_PROVISION_DENOMINATOR,
        }
    }
}

/// What a successful run hands back.
pub enum PartitionOutcome {
    /// Measurement mode: the buckets were dropped.
    Measured,
    /// The private buckets of every thread of the independent strategy.
    Independent(Vec<Vec<Vec<Tuple>>>),
    /// The occupied slots of every shared bucket of the concurrent strategy.
    Concurrent(Vec<Vec<Tuple>>),
}

/// The bucket capacity that `config` gives the concurrent strategy on `n` tuples.
pub open spec fn config_capacity(n: nat, config: PartitionConfig) -> nat {
    capacity_spec(n, config.hash_bits as nat, config.over_numerator as nat, config.over_denominator as nat)
}

/// Partitions `data` as `config` says, one worker after another. Errors, in
/// the order checked: no threads, `hash_bits` out of range, an unusable
/// over-provisioning factor (concurrent only), a bucket overflow (concurrent
/// only).
pub fn partition(data: &Vec<Tuple>, config: &PartitionConfig) -> (r: Result<PartitionOutcome, PartitionError>)
    ensures
        config.num_threads == 0 ==> r matches Err(PartitionError::InvalidThreadCount),
        config.num_threads > 0 && !valid_hash_bits(config.hash_bits as nat) ==> r == Err::<PartitionOutcome, PartitionError>(
            PartitionError::InvalidHashBits { hash_bits: config.hash_bits },
        ),
        config.num_threads > 0 && valid_hash_bits(config.hash_bits as nat) && config.strategy == Strategy::Independent ==> {
            &&& r is Ok
            &&& config.collect ==> (r matches Ok(PartitionOutcome::Independent(out)) && is_independent_result(
                out@,
                data@,
                config.num_threads as nat,
                config.hash_bits as nat,
            ))
            &&& !config.collect ==> r matches Ok(PartitionOutcome::Measured)
        },
        config.num_threads > 0 && valid_hash_bits(config.hash_bits as nat) && config.strategy == Strategy::Concurrent
            && (config.over_denominator == 0 || config_capacity(data.len() as nat, *config) > usize::MAX) ==> r
            == Err::<PartitionOutcome, PartitionError>(
            PartitionError::InvalidOverProvisioning {
                numerator: config.over_numerator,
                denominator: config.over_denominator,
            },
        ),
        config.num_threads > 0 && valid_hash_bits(config.hash_bits as nat) && config.strategy == Strategy::Concurrent
            && config.over_denominator > 0 && config_capacity(data.len() as nat, *config) <= usize::MAX ==> {
            let cap = config_capacity(data.len() as nat, *config);
            &&& (r is Ok <==> !overflows(data@, config.hash_bits as nat, cap))
            &&& r is Err ==> (r matches Err(PartitionError::Overflow { bucket, index }) && index == cap)
            &&& config.collect && r is Ok ==> (r matches Ok(PartitionOutcome::Concurrent(out)) && holds_buckets(
                out@,
                routed_all(data@, config.hash_bits as nat),
            ))
            &&& !config.collect && r is Ok ==> r matches Ok(PartitionOutcome::Measured)
        },
{
    if config.num_threads == 0 {
        return Err(PartitionError::InvalidThreadCount);
    }
    match config.strategy {
        Strategy::Independent => {
            let out = match independent_output(data, config.num_threads, config.hash_bits) {
                Ok(out) => out,
                Err(e) => return Err(e),
            };
            if config.collect {
                Ok(PartitionOutcome::Independent(out))
            } else {
                Ok(PartitionOutcome::Measured)
            }
        },
        Strategy::Concurrent => {
            let capacity = match bucket_capacity(
                data.len(),
                config.hash_bits,
                config.over_numerator,
                config.over_denominator,
            ) {
                Ok(c) => c,
                Err(e) => return Err(e),
            };
            let buckets = match concurrent_output(data, config.num_threads, config.hash_bits, capacity) {
                Ok(b) => b,
                Err(e) => return Err(e),
            };
            if config.collect {
                Ok(PartitionOutcome::Concurrent(buckets.into_buckets()))
            } else {
                Ok(PartitionOutcome::Measured)
            }
        },
    }
}

} // verus!
