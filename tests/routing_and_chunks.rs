use partitioner::chunker::{chunk, chunk_size, Chunk};
use partitioner::error::PartitionError;
use partitioner::hashing::{bucket_count, check_hash_bits, hash, route, MAX_HASH_BITS};

fn c(start: usize, end: usize) -> Chunk {
    Chunk { start, end }
}

#[test]
fn hash_is_unsigned_modulo() {
    assert_eq!(hash(13, 2), 1);
    assert_eq!(hash(13, 0), 0);
    assert_eq!(hash(u64::MAX, 4), 15);
    assert_eq!(hash(7, 62), 7);
}

#[test]
fn hash_of_top_bit_key_is_in_range() {
    let key: u64 = 1u64 << 63;
    for b in 0..=MAX_HASH_BITS {
        let r = hash(key, b);
        assert!(r < (1u64 << b));
        assert_eq!(r, 0);
    }
    assert_eq!(hash(key + 5, 3), 5);
}

#[test]
fn route_rejects_wide_hash_bits() {
    assert_eq!(route(9, 3), Ok(1));
    assert_eq!(route(9, 63), Err(PartitionError::InvalidHashBits { hash_bits: 63 }));
    assert_eq!(check_hash_bits(64), Err(PartitionError::InvalidHashBits { hash_bits: 64 }));
    assert_eq!(check_hash_bits(3), Ok(8));
    assert!(PartitionError::InvalidHashBits { hash_bits: 64 }.is_config_error());
}

#[test]
fn bucket_count_is_power_of_two() {
    assert_eq!(bucket_count(0), 1);
    assert_eq!(bucket_count(1), 2);
    assert_eq!(bucket_count(10), 1024);
    assert_eq!(bucket_count(62), 1u64 << 62);
}

#[test]
fn chunk_size_is_ceiling() {
    assert_eq!(chunk_size(10, 3), 4);
    assert_eq!(chunk_size(9, 3), 3);
    assert_eq!(chunk_size(0, 4), 0);
    assert_eq!(chunk_size(3, 5), 1);
}

#[test]
fn chunks_cover_dataset() {
    let chunks = chunk(10, 3).unwrap();
    assert_eq!(chunks, vec![c(0, 4), c(4, 8), c(8, 10)]);
    let chunks = chunk(8, 2).unwrap();
    assert_eq!(chunks, vec![c(0, 4), c(4, 8)]);
    for (n, t) in [(0usize, 1usize), (1, 1), (7, 7), (100, 7), (5, 9)] {
        let chunks = chunk(n, t).unwrap();
        assert_eq!(chunks.len(), t);
        let mut next = 0;
        for ch in &chunks {
            assert_eq!(ch.start, next);
            assert!(ch.start <= ch.end && ch.end <= n);
            next = ch.end;
        }
        assert_eq!(next, n);
    }
}

#[test]
fn more_threads_than_tuples_gives_empty_chunks() {
    let chunks = chunk(3, 5).unwrap();
    assert_eq!(chunks, vec![c(0, 1), c(1, 2), c(2, 3), c(3, 3), c(3, 3)]);
    assert_eq!(chunks[4].len(), 0);
    let chunks = chunk(0, 3).unwrap();
    assert_eq!(chunks, vec![c(0, 0), c(0, 0), c(0, 0)]);
}

#[test]
fn zero_threads_is_config_error() {
    assert_eq!(chunk(10, 0), Err(PartitionError::InvalidThreadCount));
    assert!(PartitionError::InvalidThreadCount.is_config_error());
    assert!(!PartitionError::Overflow { bucket: 0, index: 1 }.is_config_error());
}
