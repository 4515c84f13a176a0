use partitioner::chunker::Chunk;
use partitioner::concurrent::{bucket_capacity, concurrent_output, validate_output, ClaimBuckets};
use partitioner::dataset::Tuple;
use partitioner::engine::{method_from_selector, partition, Method, PartitionConfig, PartitionOutcome, Strategy};
use partitioner::error::PartitionError;
use partitioner::independent::{div_ceil, independent_output, independent_output_thread};
use partitioner::shared::{concurrent_output_thread, occupied_count, SharedBuckets};

fn dataset(keys: std::ops::Range<u64>) -> Vec<Tuple> {
    keys.map(|k| Tuple { key: k, payload: k * 10 }).collect()
}

fn keys_of(bucket: &[Tuple]) -> Vec<u64> {
    let mut keys: Vec<u64> = bucket.iter().map(|t| t.key).collect();
    keys.sort();
    keys
}

#[test]
fn end_to_end_independent() {
    let data = dataset(0..8);
    let out = independent_output(&data, 2, 1).unwrap();
    assert_eq!(out.len(), 2);
    assert_eq!(keys_of(&out[0][0]), vec![0, 2]);
    assert_eq!(keys_of(&out[0][1]), vec![1, 3]);
    assert_eq!(keys_of(&out[1][0]), vec![4, 6]);
    assert_eq!(keys_of(&out[1][1]), vec![5, 7]);
    let mut bucket0 = Vec::new();
    let mut bucket1 = Vec::new();
    for thread in &out {
        bucket0.extend_from_slice(&thread[0]);
        bucket1.extend_from_slice(&thread[1]);
    }
    assert_eq!(keys_of(&bucket0), vec![0, 2, 4, 6]);
    assert_eq!(keys_of(&bucket1), vec![1, 3, 5, 7]);
    assert_eq!(bucket0.len() + bucket1.len(), 8);
}

#[test]
fn end_to_end_concurrent() {
    let data = dataset(0..8);
    let config = PartitionConfig::new(2, 1, Strategy::Concurrent, false, true);
    match partition(&data, &config).unwrap() {
        PartitionOutcome::Concurrent(buckets) => {
            assert_eq!(buckets.len(), 2);
            assert_eq!(keys_of(&buckets[0]), vec![0, 2, 4, 6]);
            assert_eq!(keys_of(&buckets[1]), vec![1, 3, 5, 7]);
            assert!(validate_output(8, &buckets));
            assert_eq!(buckets[0][1], Tuple { key: 2, payload: 20 });
        },
        _ => panic!("expected concurrent buckets"),
    }
}

#[test]
fn independent_thread_fills_private_buckets() {
    let data = dataset(0..10);
    let buffers = independent_output_thread(&data, Chunk { start: 3, end: 9 }, 2);
    assert_eq!(buffers.len(), 4);
    assert_eq!(keys_of(&buffers[0]), vec![4, 8]);
    assert_eq!(keys_of(&buffers[1]), vec![5]);
    assert_eq!(keys_of(&buffers[2]), vec![6]);
    assert_eq!(keys_of(&buffers[3]), vec![3, 7]);
    let empty = independent_output_thread(&data, Chunk { start: 10, end: 10 }, 0);
    assert_eq!(empty.len(), 1);
    assert!(empty[0].is_empty());
}

#[test]
fn independent_runs_are_deterministic() {
    let data: Vec<Tuple> = (0..200u64).map(|k| Tuple { key: k.wrapping_mul(0x9e37_79b9_7f4a_7c15), payload: k }).collect();
    let first = independent_output(&data, 3, 3).unwrap();
    let second = independent_output(&data, 3, 3).unwrap();
    assert_eq!(first, second);
}

#[test]
fn concurrent_conserves_tuples() {
    let data = dataset(0..1000);
    let capacity = bucket_capacity(data.len(), 4, 3, 2).unwrap();
    assert_eq!(capacity, 95);
    let buckets = concurrent_output(&data, 4, 4, capacity).unwrap();
    let mut total = 0;
    for k in 0..buckets.num_buckets() {
        total += buckets.occupied(k);
    }
    assert_eq!(total, 1000);
    let contents = buckets.into_buckets();
    assert!(validate_output(1000, &contents));
    assert!(!validate_output(999, &contents));
}

#[test]
fn skewed_keys_overflow() {
    let data: Vec<Tuple> = (0..20u64).map(|k| Tuple { key: k * 8, payload: k }).collect();
    assert_eq!(concurrent_output(&data, 2, 3, 4).err(), Some(PartitionError::Overflow { bucket: 0, index: 4 }));
    let config = PartitionConfig::new(2, 3, Strategy::Concurrent, false, true);
    match partition(&data, &config) {
        Err(PartitionError::Overflow { bucket, index }) => {
            assert_eq!(bucket, 0);
            assert_eq!(index, 5);
        },
        _ => panic!("expected an overflow"),
    }
}

#[test]
fn claim_refuses_full_bucket() {
    let mut buckets = ClaimBuckets::new(2, 1);
    let t = Tuple { key: 1, payload: 2 };
    assert_eq!(buckets.claim_and_write(1, t), Ok(0));
    assert_eq!(buckets.claim_and_write(1, t), Err(PartitionError::Overflow { bucket: 1, index: 1 }));
    assert_eq!(buckets.occupied(1), 1);
    assert_eq!(buckets.occupied(0), 0);
    assert_eq!(buckets.capacity(), 1);
    assert_eq!(buckets.into_buckets(), vec![vec![], vec![t]]);
}

#[test]
fn shared_buckets_claim_distinct_slots() {
    let buckets = SharedBuckets::new(2, 3);
    assert_eq!(buckets.num_buckets(), 2);
    assert_eq!(buckets.capacity(), 3);
    let data = dataset(0..6);
    concurrent_output_thread(&buckets, &data, Chunk { start: 0, end: 3 }, 1).unwrap();
    concurrent_output_thread(&buckets, &data, Chunk { start: 3, end: 6 }, 1).unwrap();
    let snap = buckets.snapshot();
    assert_eq!(keys_of(&snap[0]), vec![0, 2, 4]);
    assert_eq!(keys_of(&snap[1]), vec![1, 3, 5]);
    assert_eq!(snap[1][0], Tuple { key: 1, payload: 10 });
    assert_eq!(
        buckets.claim_and_write(0, Tuple { key: 8, payload: 0 }),
        Err(PartitionError::Overflow { bucket: 0, index: 3 })
    );
    assert_eq!(buckets.occupied(0), 3);
}

#[test]
fn shared_worker_reports_overflow() {
    let buckets = SharedBuckets::new(4, 2);
    let data: Vec<Tuple> = (0..5u64).map(|k| Tuple { key: k * 4, payload: k }).collect();
    let r = concurrent_output_thread(&buckets, &data, Chunk { start: 0, end: 5 }, 2);
    assert_eq!(r, Err(PartitionError::Overflow { bucket: 0, index: 2 }));
}

#[test]
fn capacity_formula() {
    assert_eq!(bucket_capacity(8, 1, 3, 2), Ok(6));
    assert_eq!(bucket_capacity(10, 2, 3, 2), Ok(5));
    assert_eq!(bucket_capacity(0, 2, 3, 2), Ok(0));
    assert_eq!(bucket_capacity(10, 2, 1, 1), Ok(3));
    assert_eq!(
        bucket_capacity(10, 2, 3, 0),
        Err(PartitionError::InvalidOverProvisioning { numerator: 3, denominator: 0 })
    );
    assert_eq!(
        bucket_capacity(usize::MAX, 0, 2, 1),
        Err(PartitionError::InvalidOverProvisioning { numerator: 2, denominator: 1 })
    );
    assert_eq!(bucket_capacity(10, 63, 3, 2), Err(PartitionError::InvalidHashBits { hash_bits: 63 }));
    assert_eq!(div_ceil(7, 2), 4);
    assert_eq!(div_ceil(8, 2), 4);
}

#[test]
fn partition_measurement_mode() {
    let data = dataset(0..8);
    for strategy in [Strategy::Independent, Strategy::Concurrent] {
        let config = PartitionConfig::new(2, 1, strategy, false, false);
        assert!(matches!(partition(&data, &config), Ok(PartitionOutcome::Measured)));
    }
}

#[test]
fn partition_collects_independent_buckets() {
    let data = dataset(0..8);
    let config = PartitionConfig::new(4, 1, Strategy::Independent, false, true);
    match partition(&data, &config).unwrap() {
        PartitionOutcome::Independent(out) => {
            assert_eq!(out.len(), 4);
            assert_eq!(keys_of(&out[3][0]), vec![6]);
            assert_eq!(keys_of(&out[3][1]), vec![7]);
        },
        _ => panic!("expected independent buckets"),
    }
}

#[test]
fn partition_config_errors() {
    let data = dataset(0..8);
    let config = PartitionConfig::new(0, 1, Strategy::Independent, false, true);
    assert!(matches!(partition(&data, &config), Err(PartitionError::InvalidThreadCount)));
    let config = PartitionConfig::new(2, 70, Strategy::Concurrent, false, true);
    assert!(matches!(partition(&data, &config), Err(PartitionError::InvalidHashBits { hash_bits: 70 })));
    let mut config = PartitionConfig::new(2, 1, Strategy::Concurrent, false, true);
    config.over_denominator = 0;
    assert!(matches!(
        partition(&data, &config),
        Err(PartitionError::InvalidOverProvisioning { numerator: 3, denominator: 0 })
    ));
    assert_eq!(independent_output(&data, 0, 1), Err(PartitionError::InvalidThreadCount));
    assert_eq!(independent_output(&data, 1, 63), Err(PartitionError::InvalidHashBits { hash_bits: 63 }));
    assert!(concurrent_output(&data, 0, 1, 10).is_err());
}

#[test]
fn method_selectors() {
    assert_eq!(method_from_selector(1), Ok(Method { strategy: Strategy::Independent, pin: false }));
    assert_eq!(method_from_selector(2), Ok(Method { strategy: Strategy::Concurrent, pin: false }));
    assert_eq!(method_from_selector(3), Ok(Method { strategy: Strategy::Independent, pin: true }));
    assert_eq!(method_from_selector(4), Ok(Method { strategy: Strategy::Concurrent, pin: true }));
    assert_eq!(method_from_selector(5), Err(PartitionError::InvalidMethod { selector: 5 }));
    assert_eq!(method_from_selector(0), Err(PartitionError::InvalidMethod { selector: 0 }));
    assert!(PartitionError::InvalidMethod { selector: 0 }.is_config_error());
}

#[test]
fn write_reserved_checks_capacity_first() {
    let buckets = SharedBuckets::new(2, 2);
    let t = Tuple { key: 5, payload: 50 };
    assert_eq!(buckets.write_reserved(1, 1, t), Ok(1));
    assert_eq!(buckets.write_reserved(1, 2, t), Err(PartitionError::Overflow { bucket: 1, index: 2 }));
    assert_eq!(
        buckets.write_reserved(0, usize::MAX, t),
        Err(PartitionError::Overflow { bucket: 0, index: usize::MAX })
    );
    assert_eq!(buckets.read_bucket(1, 2), vec![Tuple { key: 0, payload: 0 }, t]);
    assert!(buckets.read_bucket(0, 0).is_empty());
}

#[test]
fn occupied_count_clamps_to_capacity() {
    assert_eq!(occupied_count(3, 5), 3);
    assert_eq!(occupied_count(5, 5), 5);
    assert_eq!(occupied_count(9, 5), 5);
    assert_eq!(occupied_count(0, 0), 0);
}

#[test]
fn empty_chunk_claims_nothing() {
    let buckets = SharedBuckets::new(1, 0);
    let data = dataset(0..4);
    assert_eq!(concurrent_output_thread(&buckets, &data, Chunk { start: 2, end: 2 }, 0), Ok(()));
    assert_eq!(buckets.occupied(0), 0);
    assert_eq!(
        concurrent_output_thread(&buckets, &data, Chunk { start: 2, end: 3 }, 0),
        Err(PartitionError::Overflow { bucket: 0, index: 0 })
    );
}

#[test]
fn pinning_does_not_change_result() {
    let data = dataset(0..50);
    for strategy in [Strategy::Independent, Strategy::Concurrent] {
        let plain = partition(&data, &PartitionConfig::new(3, 2, strategy, false, true)).unwrap();
        let pinned = partition(&data, &PartitionConfig::new(3, 2, strategy, true, true)).unwrap();
        match (plain, pinned) {
            (PartitionOutcome::Independent(a), PartitionOutcome::Independent(b)) => assert_eq!(a, b),
            (PartitionOutcome::Concurrent(a), PartitionOutcome::Concurrent(b)) => assert_eq!(a, b),
            _ => panic!("outcomes differ in kind"),
        }
    }
}
