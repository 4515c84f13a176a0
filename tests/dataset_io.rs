use partitioner::dataset::{encode_dataset, parse_dataset, synthetic_dataset, ByteOrder, Tuple};
use partitioner::error::PartitionError;

fn t(key: u64, payload: u64) -> Tuple {
    Tuple { key, payload }
}

#[test]
fn parse_little_endian_record() {
    let mut bytes = vec![0u8; 16];
    bytes[0] = 0x01;
    bytes[1] = 0x02;
    bytes[8] = 0xff;
    bytes[15] = 0x80;
    let tuples = parse_dataset(&bytes, ByteOrder::Little).unwrap();
    assert_eq!(tuples, vec![t(0x0201, 0x8000_0000_0000_00ff)]);
}

#[test]
fn parse_big_endian_record() {
    let mut bytes = vec![0u8; 32];
    bytes[7] = 0x01;
    bytes[6] = 0x02;
    bytes[16 + 8] = 0x12;
    let tuples = parse_dataset(&bytes, ByteOrder::Big).unwrap();
    assert_eq!(tuples, vec![t(0x0201, 0), t(0, 0x1200_0000_0000_0000)]);
}

#[test]
fn parse_matches_native_bytes() {
    let key: u64 = 0x0123_4567_89ab_cdef;
    let payload: u64 = 42;
    let mut bytes = Vec::new();
    bytes.extend_from_slice(&key.to_le_bytes());
    bytes.extend_from_slice(&payload.to_le_bytes());
    assert_eq!(parse_dataset(&bytes, ByteOrder::Little).unwrap(), vec![t(key, payload)]);
    let mut bytes = Vec::new();
    bytes.extend_from_slice(&key.to_be_bytes());
    bytes.extend_from_slice(&payload.to_be_bytes());
    assert_eq!(parse_dataset(&bytes, ByteOrder::Big).unwrap(), vec![t(key, payload)]);
}

#[test]
fn truncated_image_is_rejected() {
    let bytes = vec![0u8; 20];
    assert_eq!(parse_dataset(&bytes, ByteOrder::Little), Err(PartitionError::MalformedDataset { len: 20 }));
    assert_eq!(parse_dataset(&Vec::new(), ByteOrder::Little), Ok(Vec::new()));
}

#[test]
fn encode_then_parse_round_trips() {
    let tuples = vec![t(0, 1), t(u64::MAX, 1u64 << 63), t(0x0102_0304_0506_0708, 7)];
    for order in [ByteOrder::Little, ByteOrder::Big] {
        let bytes = encode_dataset(&tuples, order);
        assert_eq!(bytes.len(), 48);
        assert_eq!(parse_dataset(&bytes, order).unwrap(), tuples);
    }
    let bytes = encode_dataset(&tuples, ByteOrder::Little);
    assert_eq!(&bytes[32..40], &0x0102_0304_0506_0708u64.to_le_bytes());
    let bytes = encode_dataset(&tuples, ByteOrder::Big);
    assert_eq!(&bytes[32..40], &[1, 2, 3, 4, 5, 6, 7, 8]);
}

#[test]
fn synthetic_keys_are_sequential() {
    let tuples = synthetic_dataset(100);
    assert_eq!(tuples.len(), 100);
    for (i, tuple) in tuples.iter().enumerate() {
        assert_eq!(tuple.key, i as u64);
    }
    assert!(synthetic_dataset(0).is_empty());
}
