use vstd::prelude::*;

use crate::error::PartitionError;

verus! {

/// One record of the dataset: a partitioning key and its payload.
#[derive(Debug, Clone, Copy, PartialEq, Eq, Structural)]
pub struct Tuple {
    pub key: u64,
    pub payload: u64,
}

/// The byte order in which the words of a dataset image are stored.
#[derive(Debug, Clone, Copy, PartialEq, Eq, Structural)]
pub enum ByteOrder {
    Little,
    Big,
}

/// Bytes per record: an 8-byte key followed by an 8-byte payload.
pub const RECORD_BYTES: usize = 16;

/// The `j`-th byte of `s` in significance order (least significant first).
pub open spec fn sig_byte(s: Seq<u8>, j: int, order: ByteOrder) -> u64 {
    match order {
        ByteOrder::Little => s[j] as u64,
        ByteOrder::Big => s[7 - j] as u64,
    }
}

/// The word that the eight bytes `s` encode in byte order `order`.
pub open spec fn word_spec(s: Seq<u8>, order: ByteOrder) -> u64 {
    sig_byte(s, 0, order)
        | (sig_byte(s, 1, order) << 8u64)
        | (sig_byte(s, 2, order) << 16u64)
        | (sig_byte(s, 3, order) << 24u64)
        | (sig_byte(s, 4, order) << 32u64)
        | (sig_byte(s, 5, order) << 40u64)
        | (sig_byte(s, 6, order) << 48u64)
        | (sig_byte(s, 7, order) << 56u64)
}

/// The `j`-th byte, in storage order, of `w` written in byte order `order`.
pub open spec fn word_byte(w: u64, j: int, order: ByteOrder) -> u8 {
    let shift: u64 = match order {
        ByteOrder::Little => (8 * j) as u64,
        ByteOrder::Big => (8 * (7 - j)) as u64,
    };
    ((w >> shift) & 0xffu64) as u8
}

/// The tuple that the record at `bytes[16 * i ..]` encodes.
pub open spec fn record_spec(bytes: Seq<u8>, i: int, order: ByteOrder) -> Tuple {
    Tuple {
        key: word_spec(key_bytes(bytes, i), order),
        payload: word_spec(payload_bytes(bytes, i), order),
    }
}

/// The key bytes of record `i` of `bytes`.
pub open spec fn key_bytes(bytes: Seq<u8>, i: int) -> Seq<u8> {
    bytes.subrange(16 * i, 16 * i + 8)
}

/// The payload bytes of record `i` of `bytes`.
pub open spec fn payload_bytes(bytes: Seq<u8>, i: int) -> Seq<u8> {
    bytes.subrange(16 * i + 8, 16 * i + 16)
}

/// The eight bytes that store `w` in byte order `order`.
pub open spec fn word_bytes(w: u64, order: ByteOrder) -> Seq<u8> {
    Seq::new(8, |j: int| word_byte(w, j, order))
}

/// `bytes` is the image of `tuples`: record after record, key then payload.
pub open spec fn is_image(bytes: Seq<u8>, tuples: Seq<Tuple>, order: ByteOrder) -> bool {
    &&& bytes.len() == 16 * tuples.len()
    &&& forall|i: int|
        0 <= i < tuples.len() ==> {
            &&& #[trigger] key_bytes(bytes, i) == word_bytes(tuples[i].key, order)
            &&& payload_bytes(bytes, i) == word_bytes(tuples[i].payload, order)
        }
}

fn read_word(bytes: &Vec<u8>, at: usize, order: ByteOrder) -> (r: u64)
    requires
        at + 8 <= bytes.len(),
    ensures
        r == word_spec(bytes@.subrange(at as int, at + 8), order),
{
    let s = Ghost(bytes@.subrange(at as int, at + 8));
    let (b0, b1, b2, b3, b4, b5, b6, b7) = match order {
        ByteOrder::Little => (bytes[at], bytes[at + 1], bytes[at + 2], bytes[at + 3],
            bytes[at + 4], bytes[at + 5], bytes[at + 6], bytes[at + 7]),
        ByteOrder::Big => (bytes[at + 7], bytes[at + 6], bytes[at + 5], bytes[at + 4],
            bytes[at + 3], bytes[at + 2], bytes[at + 1], bytes[at]),
    };
    assert(sig_byte(s@, 0, order) == b0 as u64 && sig_byte(s@, 7, order) == b7 as u64);
    (b0 as u64) | ((b1 as u64) << 8u64) | ((b2 as u64) << 16u64) | ((b3 as u64) << 24u64)
        | ((b4 as u64) << 32u64) | ((b5 as u64) << 40u64) | ((b6 as u64) << 48u64)
        | ((b7 as u64) << 56u64)
}

/// Decodes a dataset image: back-to-back 16-byte records, each a key word
/// followed by a payload word. An image whose length is not a multiple of
/// 16 is malformed.
pub fn parse_dataset(bytes: &Vec<u8>, order: ByteOrder) -> (r: Result<Vec<Tuple>, PartitionError>)
    ensures
        r is Ok <==> bytes.len() % 16 == 0,
        r is Err ==> r == Err::<Vec<Tuple>, PartitionError>(
            PartitionError::MalformedDataset { len: bytes.len() },
        ),
        r matches Ok(tuples) ==> {
            &&& tuples.len() == bytes.len() / 16
            &&& forall|i: int| 0 <= i < tuples.len() ==> #[trigger] tuples@[i] == record_spec(bytes@, i, order)
        },
{
    if bytes.len() % RECORD_BYTES != 0 {
        return Err(PartitionError::MalformedDataset { len: bytes.len() });
    }
    let count = bytes.len() / RECORD_BYTES;
    let mut tuples: Vec<Tuple> = Vec::with_capacity(count);
    let mut i: usize = 0;
    while i < count
        invariant
            count == bytes.len() / 16,
            bytes.len() % 16 == 0,
            i <= count,
            tuples.len() == i,
            forall|k: int| 0 <= k < i ==> #[trigger] tuples@[k] == record_spec(bytes@, k, order),
        decreases count - i,
    {
        assert(16 * i + 16 <= bytes.len()) by (nonlinear_arith)
            requires i < count, count == bytes.len() / 16, bytes.len() % 16 == 0;
        let at = RECORD_BYTES * i;
        let key = read_word(bytes, at, order);
        let payload = read_word(bytes, at + 8, order);
        tuples.push(Tuple { key, payload });
        i = i + 1;
    }
    Ok(tuples)
}

fn write_word(out: &mut Vec<u8>, w: u64, order: ByteOrder)
    ensures
        final(out)@ == old(out)@ + word_bytes(w, order),
{
    let mut j: u64 = 0;
    while j < 8
        invariant
            j <= 8,
            out@ == old(out)@ + word_bytes(w, order).take(j as int),
        decreases 8 - j,
    {
        let shift: u64 = match order {
            ByteOrder::Little => 8 * j,
            ByteOrder::Big => 8 * (7 - j),
        };
        out.push(((w >> shift) & 0xffu64) as u8);
        assert(word_bytes(w, order).take(j + 1) =~= word_bytes(w, order).take(j as int).push(
            word_byte(w, j as int, order),
        ));
        j = j + 1;
    }
    assert(word_bytes(w, order).take(8) =~= word_bytes(w, order));
}

/// Encodes `tuples` as a dataset image in byte order `order`.
pub fn encode_dataset(tuples: &Vec<Tuple>, order: ByteOrder) -> (r: Vec<u8>)
    requires
        16 * tuples.len() <= usize::MAX,
    ensures
        is_image(r@, tuples@, order),
{
    let mut out: Vec<u8> = Vec::with_capacity(RECORD_BYTES * tuples.len());
    let mut i: usize = 0;
    while i < tuples.len()
        invariant
            16 * tuples.len() <= usize::MAX,
            i <= tuples.len(),
            out@.len() == 16 * i,
            forall|k: int|
                0 <= k < i ==> {
                    &&& #[trigger] key_bytes(out@, k) == word_bytes(tuples@[k].key, order)
                    &&& payload_bytes(out@, k) == word_bytes(tuples@[k].payload, order)
                },
        decreases tuples.len() - i,
    {
        let ghost before = out@;
        write_word(&mut out, tuples[i].key, order);
        write_word(&mut out, tuples[i].payload, order);
        assert forall|k: int|
            0 <= k <= i implies {
                &&& #[trigger] key_bytes(out@, k) == word_bytes(tuples@[k].key, order)
                &&& payload_bytes(out@, k) == word_bytes(tuples@[k].payload, order)
            } by {
            if k < i {
                assert(key_bytes(out@, k) =~= key_bytes(before, k));
                assert(payload_bytes(out@, k) =~= payload_bytes(before, k));
            } else {
                assert(key_bytes(out@, k) =~= word_bytes(tuples@[k].key, order));
                assert(payload_bytes(out@, k) =~= word_bytes(tuples@[k].payload, order));
            }
        }
        i = i + 1;
    }
    out
}

proof fn lemma_byte_of(x: u64)
    ensures
        ((x & 0xffu64) as u8) as u64 == x & 0xffu64,
{
    assert(((x & 0xffu64) as u8) as u64 == x & 0xffu64) by (bit_vector);
}

proof fn lemma_word_round_trip(w: u64, order: ByteOrder)
    ensures
        word_spec(word_bytes(w, order), order) == w,
{
    let s = word_bytes(w, order);
    lemma_byte_of(w >> 0u64);
    lemma_byte_of(w >> 8u64);
    lemma_byte_of(w >> 16u64);
    lemma_byte_of(w >> 24u64);
    lemma_byte_of(w >> 32u64);
    lemma_byte_of(w >> 40u64);
    lemma_byte_of(w >> 48u64);
    lemma_byte_of(w >> 56u64);
    assert(sig_byte(s, 0, order) == (w >> 0u64) & 0xffu64);
    assert(sig_byte(s, 1, order) == (w >> 8u64) & 0xffu64);
    assert(sig_byte(s, 2, order) == (w >> 16u64) & 0xffu64);
    assert(sig_byte(s, 3, order) == (w >> 24u64) & 0xffu64);
    assert(sig_byte(s, 4, order) == (w >> 32u64) & 0xffu64);
    assert(sig_byte(s, 5, order) == (w >> 40u64) & 0xffu64);
    assert(sig_byte(s, 6, order) == (w >> 48u64) & 0xffu64);
    assert(sig_byte(s, 7, order) == (w >> 56u64) & 0xffu64);
    assert(w == ((w >> 0u64) & 0xffu64) | (((w >> 8u64) & 0xffu64) << 8u64)
        | (((w >> 16u64) & 0xffu64) << 16u64) | (((w >> 24u64) & 0xffu64) << 24u64)
        | (((w >> 32u64) & 0xffu64) << 32u64) | (((w >> 40u64) & 0xffu64) << 40u64)
        | (((w >> 48u64) & 0xffu64) << 48u64) | (((w >> 56u64) & 0xffu64) << 56u64)) by (bit_vector);
}

/// Decoding an image gives back exactly the tuples it was written from, in
/// either byte order: `parse_dataset(encode_dataset(t)) == Ok(t)`.
pub proof fn lemma_image_round_trip(bytes: Seq<u8>, tuples: Seq<Tuple>, order: ByteOrder)
    requires
        is_image(bytes, tuples, order),
    ensures
        bytes.len() % 16 == 0,
        bytes.len() / 16 == tuples.len(),
        forall|i: int| 0 <= i < tuples.len() ==> #[trigger] record_spec(bytes, i, order) == tuples[i],
{
    assert forall|i: int| 0 <= i < tuples.len() implies #[trigger] record_spec(bytes, i, order) == tuples[i] by {
        lemma_word_round_trip(tuples[i].key, order);
        lemma_word_round_trip(tuples[i].payload, order);
        assert(key_bytes(bytes, i) == word_bytes(tuples[i].key, order));
    }
}

/// Relies on `rand::random::<u64>`: a word drawn from the thread-local
/// generator. Nothing is known of its value.
#[verifier::external_body]
fn random_payload() -> u64 {
    rand::random::<u64>()
}

/// `size` synthetic tuples whose keys run `0, 1, ..., size - 1` in order,
/// each with a random payload.
pub fn synthetic_dataset(size: usize) -> (r: Vec<Tuple>)
    ensures
        r.len() == size,
        forall|i: int| 0 <= i < size ==> #[trigger] r@[i].key == i,
{
    let mut tuples: Vec<Tuple> = Vec::with_capacity(size);
    let mut i: usize = 0;
    while i < size
        invariant
            i <= size,
            tuples.len() == i,
            forall|k: int| 0 <= k < i ==> #[trigger] tuples@[k].key == k,
        decreases size - i,
    {
        tuples.push(Tuple { key: i as u64, payload: random_payload() });
        i = i + 1;
    }
    tuples
}

} // verus!
