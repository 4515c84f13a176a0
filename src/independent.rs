use vstd::prelude::*;

use crate::chunker::{chunk, chunk_end_spec, chunk_start_spec, is_chunking, lemma_chunks_partition, Chunk};
use crate::dataset::Tuple;
use crate::error::PartitionError;
use crate::hashing::{bucket_count, bucket_count_spec, check_hash_bits, hash, lemma_bucket_count_bounds, valid_hash_bits};
use crate::routing::{lemma_routed_push, routed, routed_all};

verus! {

/// The tuples of `data` inside chunk `c`.
pub open spec fn chunk_tuples(data: Seq<Tuple>, c: Chunk) -> Seq<Tuple> {
    data.subrange(c.start as int, c.end as int)
}

/// The buffers `out` hold exactly the sequences `expected`, bucket by bucket.
pub open spec fn holds_buckets(out: Seq<Vec<Tuple>>, expected: Seq<Seq<Tuple>>) -> bool {
    &&& out.len() == expected.len()
    &&& forall|k: int| 0 <= k < out.len() ==> #[trigger] out[k]@ == expected[k]
}

/// What thread `t` of `num_threads` owns after an independent pass over `data`.
pub open spec fn thread_buckets(data: Seq<Tuple>, num_threads: nat, hash_bits: nat, t: nat) -> Seq<Seq<Tuple>> {
    routed_all(
        data.subrange(
            chunk_start_spec(data.len(), num_threads, t) as int,
            chunk_end_spec(data.len(), num_threads, t) as int,
        ),
        hash_bits,
    )
}

/// `out` is the result of an independent pass: one private set of buckets per thread.
pub open spec fn is_independent_result(
    out: Seq<Vec<Vec<Tuple>>>,
    data: Seq<Tuple>,
    num_threads: nat,
    hash_bits: nat,
) -> bool {
    &&& out.len() == num_threads
    &&& forall|t: int|
        0 <= t < out.len() ==> holds_buckets(#[trigger] out[t]@, thread_buckets(data, num_threads, hash_bits, t as nat))
}

/// The ceiling of `a / b`.
pub fn div_ceil(a: usize, b: usize) -> (r: usize)
    requires
        b >= 1,
    ensures
        r as int == a as int / b as int + if a as int % b as int == 0 { 0int } else { 1int },
{
    let q = a / b;
    if a % b == 0 {
        q
    } else {
        proof {
            assert(q * b <= a && a == q * b + a % b) by (nonlinear_arith) requires q == a / b, b >= 1;
            assert(q < a) by (nonlinear_arith) requires q * b <= a, a % b != 0, b >= 1, a == q * b + a % b;
        }
        q + 1
    }
}

/// One worker of the independent strategy: routes every tuple of `chunk`
/// into the thread's own `2^hash_bits` buffers, each sized up front to the
/// average occupancy and free to grow past it.
pub fn independent_output_thread(data: &Vec<Tuple>, chunk: Chunk, hash_bits: u32) -> (buffers: Vec<Vec<Tuple>>)
    requires
        chunk.start <= chunk.end <= data.len(),
        valid_hash_bits(hash_bits as nat),
    ensures
        holds_buckets(buffers@, routed_all(chunk_tuples(data@, chunk), hash_bits as nat)),
{
    proof {
        lemma_bucket_count_bounds(hash_bits as nat);
    }
    let num_buffers = bucket_count(hash_bits) as usize;
    let estimate = div_ceil(chunk.len(), num_buffers);
    let mut buffers: Vec<Vec<Tuple>> = Vec::with_capacity(num_buffers);
    let mut k: usize = 0;
    while k < num_buffers
        invariant
            k <= num_buffers,
            buffers.len() == k,
            forall|j: int| 0 <= j < k ==> (#[trigger] buffers@[j])@ == Seq::<Tuple>::empty(),
        decreases num_buffers - k,
    {
        buffers.push(Vec::with_capacity(estimate));
        k = k + 1;
    }
    let ghost b = hash_bits as nat;
    let mut i: usize = chunk.start;
    proof {
        assert forall|j: int| 0 <= j < num_buffers implies (#[trigger] buffers@[j])@ == routed(
            data@.subrange(chunk.start as int, i as int),
            b,
            j as nat,
        ) by {
            assert(data@.subrange(chunk.start as int, i as int).len() == 0);
        }
    }
    while i < chunk.end
        invariant
            chunk.start <= i <= chunk.end <= data.len(),
            valid_hash_bits(b),
            b == hash_bits,
            num_buffers == bucket_count_spec(b),
            buffers.len() == num_buffers,
            forall|j: int|
                0 <= j < num_buffers ==> (#[trigger] buffers@[j])@ == routed(
                    data@.subrange(chunk.start as int, i as int),
                    b,
                    j as nat,
                ),
        decreases chunk.end - i,
    {
        let t = data[i];
        let h = hash(t.key, hash_bits) as usize;
        buffers[h].push(t);
        proof {
            let before = data@.subrange(chunk.start as int, i as int);
            assert(data@.subrange(chunk.start as int, i + 1) =~= before.push(t));
            assert forall|j: int| 0 <= j < num_buffers implies (#[trigger] buffers@[j])@ == routed(
                data@.subrange(chunk.start as int, i + 1),
                b,
                j as nat,
            ) by {
                lemma_routed_push(before, t, b, j as nat);
            }
        }
        i = i + 1;
    }
    buffers
}

/// The independent strategy run to completion, one worker after another:
/// thread `t` gets the buckets of its own chunk. Fails before any work when
/// there are no threads or `hash_bits` is out of range.
pub fn independent_output(data: &Vec<Tuple>, num_threads: usize, hash_bits: u32) -> (r: Result<Vec<Vec<Vec<Tuple>>>, PartitionError>)
    ensures
        num_threads == 0 ==> r == Err::<Vec<Vec<Vec<Tuple>>>, PartitionError>(PartitionError::InvalidThreadCount),
        num_threads > 0 && !valid_hash_bits(hash_bits as nat) ==> r == Err::<Vec<Vec<Vec<Tuple>>>, PartitionError>(
            PartitionError::InvalidHashBits { hash_bits },
        ),
        num_threads > 0 && valid_hash_bits(hash_bits as nat) ==> (r matches Ok(out) && is_independent_result(
            out@,
            data@,
            num_threads as nat,
            hash_bits as nat,
        )),
{
    let chunks = match chunk(data.len(), num_threads) {
        Ok(c) => c,
        Err(e) => return Err(e),
    };
    if let Err(e) = check_hash_bits(hash_bits) {
        return Err(e);
    }
    proof {
        lemma_chunks_partition(chunks@, data.len() as nat, num_threads as nat);
    }
    let mut out: Vec<Vec<Vec<Tuple>>> = Vec::with_capacity(num_threads);
    let mut t: usize = 0;
    while t < num_threads
        invariant
            t <= num_threads,
            valid_hash_bits(hash_bits as nat),
            is_chunking(chunks@, data.len() as nat, num_threads as nat),
            forall|i: int| 0 <= i < chunks.len() ==> #[trigger] chunks@[i].start <= chunks@[i].end <= data.len(),
            out.len() == t,
            forall|i: int|
                0 <= i < t ==> holds_buckets(
                    #[trigger] out@[i]@,
                    thread_buckets(data@, num_threads as nat, hash_bits as nat, i as nat),
                ),
        decreases num_threads - t,
    {
        let c = chunks[t];
        out.push(independent_output_thread(data, c, hash_bits));
        t = t + 1;
    }
    Ok(out)
}

/// The independent strategy has no races: two results of it on the same
/// dataset and parameters give every thread, in every bucket, the same
/// multiset of tuples.
pub proof fn lemma_independent_deterministic(
    data: Seq<Tuple>,
    num_threads: nat,
    hash_bits: nat,
    first: Seq<Vec<Vec<Tuple>>>,
    second: Seq<Vec<Vec<Tuple>>>,
)
    requires
        is_independent_result(first, data, num_threads, hash_bits),
        is_independent_result(second, data, num_threads, hash_bits),
    ensures
        first.len() == second.len(),
        forall|t: int, k: int|
            0 <= t < first.len() && 0 <= k < first[t]@.len() ==> {
                &&& k < second[t]@.len()
                &&& (#[trigger] first[t]@[k])@.to_multiset() == second[t]@[k]@.to_multiset()
            },
{
    assert forall|t: int, k: int|
        0 <= t < first.len() && 0 <= k < first[t]@.len() implies {
            &&& k < second[t]@.len()
            &&& (#[trigger] first[t]@[k])@.to_multiset() == second[t]@[k]@.to_multiset()
        } by {
        assert(holds_buckets(first[t]@, thread_buckets(data, num_threads, hash_bits, t as nat)));
        assert(holds_buckets(second[t]@, thread_buckets(data, num_threads, hash_bits, t as nat)));
        assert(first[t]@[k]@ == second[t]@[k]@);
    }
}

} // verus!
