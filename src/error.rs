use vstd::prelude::*;

verus! {

/// Everything that can stop a partitioning run.
#[derive(Debug, Clone, Copy, PartialEq, Eq, Structural)]
pub enum PartitionError {
    /// The number of worker threads is zero.
    InvalidThreadCount,
    /// `hash_bits` is larger than the widest supported bit-width.
    InvalidHashBits { hash_bits: u32 },
    /// The partitioning method selector names no strategy.
    InvalidMethod { selector: i64 },
    /// The over-provisioning ratio has a zero denominator, or the bucket
    /// capacity it gives does not fit in a `usize`.
    InvalidOverProvisioning { numerator: usize, denominator: usize },
    /// A dataset image whose length is not a whole number of records.
    MalformedDataset { len: usize },
    /// A reservation in a shared bucket landed at or past its capacity.
    Overflow { bucket: usize, index: usize },
}

impl PartitionError {
    /// True for the errors that come from an invalid configuration.
    pub fn is_config_error(&self) -> (r: bool)
        ensures
            r == (self is InvalidThreadCount || self is InvalidHashBits || self is InvalidMethod
                || self is InvalidOverProvisioning),
    {
        match self {
            PartitionError::InvalidThreadCount => true,
            PartitionError::InvalidHashBits { .. } => true,
            PartitionError::InvalidMethod { .. } => true,
            PartitionError::InvalidOverProvisioning { .. } => true,
            _ => false,
        }
    }
}

} // verus!
