use vstd::prelude::*;
use vstd::arithmetic::power2::pow2;
use vstd::bits::lemma_u64_shl_is_mul;
use vstd::bits::lemma_u64_pow2_no_overflow;
use vstd::arithmetic::power2::lemma_pow2_strictly_increases;

use crate::error::PartitionError;

verus! {

/// The widest bit-width for which `2^hash_bits` is accepted.
pub const MAX_HASH_BITS: u32 = 62;

/// The number of buckets that `hash_bits` low-order bits select.
pub open spec fn bucket_count_spec(hash_bits: nat) -> nat {
    pow2(hash_bits)
}

/// The bucket of `key`: its low `hash_bits` bits, read as an unsigned number.
pub open spec fn route_spec(key: u64, hash_bits: nat) -> nat {
    (key as nat) % pow2(hash_bits)
}

/// `2^hash_bits` fits comfortably in a `u64` (and a `usize`) for valid widths.
pub proof fn lemma_bucket_count_bounds(hash_bits: nat)
    requires
        hash_bits <= MAX_HASH_BITS,
    ensures
        1 <= bucket_count_spec(hash_bits) <= pow2(62),
        pow2(62) < u64::MAX,
{
    lemma_u64_pow2_no_overflow(62);
    lemma_u64_pow2_no_overflow(hash_bits);
    if hash_bits < 62 {
        lemma_pow2_strictly_increases(hash_bits, 62);
    }
}

/// The number of buckets, `2^hash_bits`.
pub fn bucket_count(hash_bits: u32) -> (r: u64)
    requires
        hash_bits <= MAX_HASH_BITS,
    ensures
        r as nat == bucket_count_spec(hash_bits as nat),
        1 <= r <= pow2(62),
{
    proof {
        lemma_bucket_count_bounds(hash_bits as nat);
        lemma_u64_shl_is_mul(1, hash_bits as u64);
    }
    1u64 << (hash_bits as u64)
}

/// The bucket of `key`, computed in unsigned 64-bit arithmetic, for a width
/// already known to be valid; `route` takes any width and reports a
/// configuration error for one that is too wide.
pub fn hash(key: u64, hash_bits: u32) -> (r: u64)
    requires
        hash_bits <= MAX_HASH_BITS,
    ensures
        r as nat == route_spec(key, hash_bits as nat),
        (r as nat) < bucket_count_spec(hash_bits as nat),
{
    let buckets = bucket_count(hash_bits);
    key % buckets
}

/// A bit-width is usable when `2^hash_bits` neither overflows 64 bits nor
/// exceeds the number of buffers the machine can index.
pub open spec fn valid_hash_bits(hash_bits: nat) -> bool {
    hash_bits <= MAX_HASH_BITS && bucket_count_spec(hash_bits) <= usize::MAX
}

/// Checks `hash_bits`; on success returns the number of buckets.
pub fn check_hash_bits(hash_bits: u32) -> (r: Result<usize, PartitionError>)
    ensures
        r is Ok <==> valid_hash_bits(hash_bits as nat),
        r matches Ok(n) ==> n as nat == bucket_count_spec(hash_bits as nat),
        r is Err ==> r == Err::<usize, PartitionError>(PartitionError::InvalidHashBits { hash_bits }),
{
    if hash_bits > MAX_HASH_BITS {
        return Err(PartitionError::InvalidHashBits { hash_bits });
    }
    let n = bucket_count(hash_bits);
    if n > usize::MAX as u64 {
        Err(PartitionError::InvalidHashBits { hash_bits })
    } else {
        Ok(n as usize)
    }
}

/// The bucket of `key`, or a configuration error when `hash_bits` is too wide.
pub fn route(key: u64, hash_bits: u32) -> (r: Result<u64, PartitionError>)
    ensures
        hash_bits <= MAX_HASH_BITS ==> (r matches Ok(i) && i as nat == route_spec(key, hash_bits as nat)),
        hash_bits > MAX_HASH_BITS ==> r == Err::<u64, PartitionError>(PartitionError::InvalidHashBits { hash_bits }),
{
    if hash_bits > MAX_HASH_BITS {
        Err(PartitionError::InvalidHashBits { hash_bits })
    } else {
        Ok(hash(key, hash_bits))
    }
}

/// Every key, whatever its top bit, is routed into `[0, 2^hash_bits)`, and
/// the bucket is the key modulo `2^hash_bits` taken over unsigned numbers.
pub proof fn lemma_route_in_range(key: u64, hash_bits: nat)
    requires
        hash_bits <= MAX_HASH_BITS,
    ensures
        0 <= route_spec(key, hash_bits) < bucket_count_spec(hash_bits),
        route_spec(key, hash_bits) == (key as int) % (pow2(hash_bits) as int),
{
    lemma_bucket_count_bounds(hash_bits);
}

} // verus!
