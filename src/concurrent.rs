use vstd::prelude::*;

use crate::chunker::{chunk, lemma_chunks_partition};
use crate::dataset::Tuple;
use crate::error::PartitionError;
use crate::hashing::{
    bucket_count_spec, check_hash_bits, hash, lemma_bucket_count_bounds, route_spec, valid_hash_bits, MAX_HASH_BITS,
};
use crate::independent::holds_buckets;
use crate::routing::{
    bucket_multiset, lemma_routed_all_same, lemma_routed_conserves, lemma_routed_prefix_len, lemma_routed_push, routed, routed_all,
    total_len,
};

verus! {

/// The default over-provisioning factor, 3/2, as a numerator ...
pub const OVER_PROVISION_NUMERATOR: usize = 3;

/// ... and a denominator.
pub const OVER_PROVISION_DENOMINATOR: usize = 2;

pub open spec fn ceil_div(a: nat, b: nat) -> nat {
    if b == 0 {
        0
    } else {
        a / b + if a % b == 0 { 0nat } else { 1nat }
    }
}

/// The capacity of each shared bucket for `n` tuples over `2^hash_bits`
/// buckets: the average occupancy, rounded up, times the over-provisioning
/// factor `numerator / denominator`, rounded up.
pub open spec fn capacity_spec(n: nat, hash_bits: nat, numerator: nat, denominator: nat) -> nat {
    ceil_div(ceil_div(n, bucket_count_spec(hash_bits)) * numerator, denominator)
}

/// Sizes the shared buckets; see `capacity_spec`.
pub fn bucket_capacity(n: usize, hash_bits: u32, numerator: usize, denominator: usize) -> (r: Result<usize, PartitionError>)
    ensures
        !valid_hash_bits(hash_bits as nat) ==> r == Err::<usize, PartitionError>(
            PartitionError::InvalidHashBits { hash_bits },
        ),
        valid_hash_bits(hash_bits as nat) && (denominator == 0 || capacity_spec(
            n as nat,
            hash_bits as nat,
            numerator as nat,
            denominator as nat,
        ) > usize::MAX) ==> r == Err::<usize, PartitionError>(
            PartitionError::InvalidOverProvisioning { numerator, denominator },
        ),
        valid_hash_bits(hash_bits as nat) && denominator > 0 && capacity_spec(
            n as nat,
            hash_bits as nat,
            numerator as nat,
            denominator as nat,
        ) <= usize::MAX ==> r == Ok::<usize, PartitionError>(
            capacity_spec(n as nat, hash_bits as nat, numerator as nat, denominator as nat) as usize,
        ),
{
    let buckets = match check_hash_bits(hash_bits) {
        Ok(b) => b,
        Err(e) => return Err(e),
    };
    if denominator == 0 {
        return Err(PartitionError::InvalidOverProvisioning { numerator, denominator });
    }
    proof {
        lemma_bucket_count_bounds(hash_bits as nat);
    }
    let avg = crate::independent::div_ceil(n, buckets);
    proof {
        assert((avg as u128) * (numerator as u128) <= 0xffff_ffff_ffff_fffe_0000_0000_0000_0001u128) by (nonlinear_arith)
            requires avg <= 0xffff_ffff_ffff_ffffu128, numerator <= 0xffff_ffff_ffff_ffffu128;
    }
    let scaled: u128 = (avg as u128) * (numerator as u128);
    let q: u128 = scaled / (denominator as u128);
    proof {
        assert(q <= scaled) by (nonlinear_arith) requires q == scaled / (denominator as u128), denominator >= 1;
    }
    let cap: u128 = if scaled % (denominator as u128) == 0 { q } else { q + 1 };
    if cap > usize::MAX as u128 {
        Err(PartitionError::InvalidOverProvisioning { numerator, denominator })
    } else {
        Ok(cap as usize)
    }
}

/// The shared bucket array of the concurrent strategy, as plain values: per
/// bucket a fixed-capacity slot array and a write cursor. Slots below the
/// cursor have been claimed and written; the rest are untouched.
pub struct ClaimBuckets {
    capacity: usize,
    cursors: Vec<usize>,
    slots: Vec<Vec<Tuple>>,
}

impl ClaimBuckets {
    /// Every bucket has `capacity` slots and a cursor within them.
    pub closed spec fn wf(&self) -> bool {
        &&& self.cursors.len() == self.slots.len()
        &&& forall|k: int| 0 <= k < self.slots.len() ==> (#[trigger] self.slots@[k])@.len() == self.capacity
        &&& forall|k: int| 0 <= k < self.cursors.len() ==> #[trigger] self.cursors@[k] <= self.capacity
    }

    pub closed spec fn capacity_view(&self) -> nat {
        self.capacity as nat
    }

    /// The claimed and written slots of each bucket, in claim order.
    pub closed spec fn contents(&self) -> Seq<Seq<Tuple>> {
        Seq::new(self.slots.len() as nat, |k: int| self.slots@[k]@.take(self.cursors@[k] as int))
    }

    /// No bucket holds more than its capacity.
    pub proof fn lemma_bounded(&self)
        requires
            self.wf(),
        ensures
            forall|k: int| 0 <= k < self.contents().len() ==> #[trigger] self.contents()[k].len() <= self.capacity_view(),
    {
    }

    /// `num_buckets` empty buckets of `capacity` slots each.
    pub fn new(num_buckets: usize, capacity: usize) -> (r: ClaimBuckets)
        ensures
            r.wf(),
            r.capacity_view() == capacity,
            r.contents() == Seq::new(num_buckets as nat, |k: int| Seq::<Tuple>::empty()),
    {
        let mut cursors: Vec<usize> = Vec::with_capacity(num_buckets);
        let mut slots: Vec<Vec<Tuple>> = Vec::with_capacity(num_buckets);
        let mut k: usize = 0;
        while k < num_buckets
            invariant
                k <= num_buckets,
                cursors.len() == k,
                slots.len() == k,
                forall|j: int| 0 <= j < k ==> #[trigger] cursors@[j] == 0,
                forall|j: int| 0 <= j < k ==> (#[trigger] slots@[j])@.len() == capacity,
            decreases num_buckets - k,
        {
            let mut bucket: Vec<Tuple> = Vec::with_capacity(capacity);
            let mut i: usize = 0;
            while i < capacity
                invariant
                    i <= capacity,
                    bucket.len() == i,
                decreases capacity - i,
            {
                bucket.push(Tuple { key: 0, payload: 0 });
                i = i + 1;
            }
            cursors.push(0);
            slots.push(bucket);
            k = k + 1;
        }
        let r = ClaimBuckets { capacity, cursors, slots };
        assert forall|j: int| 0 <= j < num_buckets implies #[trigger] r.contents()[j] == Seq::<Tuple>::empty() by {
            assert(r.contents()[j] =~= Seq::<Tuple>::empty());
        }
        assert(r.contents() =~= Seq::new(num_buckets as nat, |k: int| Seq::<Tuple>::empty()));
        r
    }

    /// The number of buckets.
    pub fn num_buckets(&self) -> (r: usize)
        requires
            self.wf(),
        ensures
            r == self.contents().len(),
    {
        self.slots.len()
    }

    /// The number of slots in each bucket.
    pub fn capacity(&self) -> (r: usize)
        ensures
            r == self.capacity_view(),
    {
        self.capacity
    }

    /// The number of occupied slots of `bucket`.
    pub fn occupied(&self, bucket: usize) -> (r: usize)
        requires
            self.wf(),
            bucket < self.contents().len(),
        ensures
            r == self.contents()[bucket as int].len(),
    {
        self.cursors[bucket]
    }

    /// Claims the next slot of `bucket` and writes `t` into it. The claim is
    /// checked against the capacity before anything is written: a bucket
    /// that is full refuses it with an overflow error and stays as it was.
    pub fn claim_and_write(&mut self, bucket: usize, t: Tuple) -> (r: Result<usize, PartitionError>)
        requires
            old(self).wf(),
            bucket < old(self).contents().len(),
        ensures
            final(self).wf(),
            final(self).capacity_view() == old(self).capacity_view(),
            old(self).contents()[bucket as int].len() < old(self).capacity_view() ==> {
                &&& r == Ok::<usize, PartitionError>(old(self).contents()[bucket as int].len() as usize)
                &&& final(self).contents() == old(self).contents().update(
                    bucket as int,
                    old(self).contents()[bucket as int].push(t),
                )
            },
            old(self).contents()[bucket as int].len() >= old(self).capacity_view() ==> {
                &&& r == Err::<usize, PartitionError>(
                    PartitionError::Overflow { bucket, index: old(self).capacity_view() as usize },
                )
                &&& final(self).contents() == old(self).contents()
            },
    {
        let index = self.cursors[bucket];
        if index >= self.capacity {
            return Err(PartitionError::Overflow { bucket, index });
        }
        let ghost before = self.contents();
        self.cursors.set(bucket, index + 1);
        self.slots[bucket].set(index, t);
        proof {
            assert forall|k: int| 0 <= k < self.slots.len() implies (#[trigger] self.slots@[k])@.len() == self.capacity by {}
            assert(self.contents()[bucket as int] =~= before[bucket as int].push(t));
            assert forall|k: int| 0 <= k < self.slots.len() && k != bucket implies self.contents()[k] == before[k] by {}
            assert(self.contents() =~= before.update(bucket as int, before[bucket as int].push(t)));
        }
        Ok(index)
    }

    /// The occupied slots of every bucket, in claim order.
    pub fn into_buckets(self) -> (r: Vec<Vec<Tuple>>)
        requires
            self.wf(),
        ensures
            holds_buckets(r@, self.contents()),
    {
        let ClaimBuckets { capacity, cursors, slots } = self;
        let mut out: Vec<Vec<Tuple>> = Vec::with_capacity(slots.len());
        let mut k: usize = 0;
        while k < slots.len()
            invariant
                k <= slots.len(),
                cursors.len() == slots.len(),
                forall|j: int| 0 <= j < slots.len() ==> (#[trigger] slots@[j])@.len() == capacity,
                forall|j: int| 0 <= j < cursors.len() ==> #[trigger] cursors@[j] <= capacity,
                out.len() == k,
                forall|j: int| 0 <= j < k ==> (#[trigger] out@[j])@ == slots@[j]@.take(cursors@[j] as int),
            decreases slots.len() - k,
        {
            let used = cursors[k];
            let mut bucket: Vec<Tuple> = Vec::with_capacity(used);
            let mut i: usize = 0;
            while i < used
                invariant
                    k < slots.len(),
                    used == cursors@[k as int],
                    used <= slots@[k as int]@.len(),
                    i <= used,
                    bucket@ == slots@[k as int]@.take(i as int),
                decreases used - i,
            {
                bucket.push(slots[k][i]);
                assert(slots@[k as int]@.take(i + 1) =~= slots@[k as int]@.take(i as int).push(slots@[k as int]@[i as int]));
                i = i + 1;
            }
            out.push(bucket);
            k = k + 1;
        }
        out
    }
}

/// Some bucket receives more tuples of `data` than `capacity`.
pub open spec fn overflows(data: Seq<Tuple>, hash_bits: nat, capacity: nat) -> bool {
    exists|k: nat| k < bucket_count_spec(hash_bits) && #[trigger] routed(data, hash_bits, k).len() > capacity
}

/// The concurrent strategy run to completion, its workers taking their
/// chunks one after another: every tuple claims a slot of its bucket in the
/// shared array. The first claim past a bucket's capacity aborts the pass
/// with an overflow error; otherwise bucket `k` ends up holding exactly the
/// tuples that route to `k`.
pub fn concurrent_output(data: &Vec<Tuple>, num_threads: usize, hash_bits: u32, capacity: usize) -> (r: Result<ClaimBuckets, PartitionError>)
    ensures
        num_threads == 0 ==> r == Err::<ClaimBuckets, PartitionError>(PartitionError::InvalidThreadCount),
        num_threads > 0 && !valid_hash_bits(hash_bits as nat) ==> r == Err::<ClaimBuckets, PartitionError>(
            PartitionError::InvalidHashBits { hash_bits },
        ),
        num_threads > 0 && valid_hash_bits(hash_bits as nat) ==> {
            &&& (r is Ok <==> !overflows(data@, hash_bits as nat, capacity as nat))
            &&& r matches Ok(buckets) ==> {
                &&& buckets.wf()
                &&& buckets.capacity_view() == capacity
                &&& buckets.contents() == routed_all(data@, hash_bits as nat)
            }
            &&& r is Err ==> (r matches Err(PartitionError::Overflow { bucket, index }) && index == capacity
                && bucket < bucket_count_spec(hash_bits as nat) && routed(data@, hash_bits as nat, bucket as nat).len()
                > capacity)
        },
{
    let chunks = match chunk(data.len(), num_threads) {
        Ok(c) => c,
        Err(e) => return Err(e),
    };
    let num_buckets = match check_hash_bits(hash_bits) {
        Ok(nb) => nb,
        Err(e) => return Err(e),
    };
    let ghost b = hash_bits as nat;
    let ghost n = data.len();
    proof {
        lemma_chunks_partition(chunks@, data.len() as nat, num_threads as nat);
        lemma_bucket_count_bounds(b);
    }
    let mut buckets = ClaimBuckets::new(num_buckets, capacity);
    let mut i: usize = 0;
    proof {
        assert(buckets.contents() =~= routed_all(data@.take(0), b));
    }
    let mut w: usize = 0;
    while w < num_threads
        invariant
            w <= num_threads,
            n == data.len(),
            b == hash_bits,
            valid_hash_bits(b),
            num_buckets == bucket_count_spec(b),
            chunks.len() == num_threads,
            forall|j: int| 0 <= j < chunks.len() ==> #[trigger] chunks@[j].start <= chunks@[j].end <= n,
            forall|j: int| 0 <= j < chunks.len() - 1 ==> #[trigger] chunks@[j].end == chunks@[j + 1].start,
            chunks@[num_threads - 1].end == n,
            w < num_threads ==> i == chunks@[w as int].start,
            w == num_threads ==> i == n,
            buckets.wf(),
            buckets.capacity_view() == capacity,
            buckets.contents() == routed_all(data@.take(i as int), b),
        decreases num_threads - w,
    {
        let c = chunks[w];
        while i < c.end
            invariant
                w < num_threads,
                i <= c.end <= n,
                n == data.len(),
                b == hash_bits,
                valid_hash_bits(b),
                num_buckets == bucket_count_spec(b),
                buckets.wf(),
                buckets.capacity_view() == capacity,
                buckets.contents() == routed_all(data@.take(i as int), b),
            decreases c.end - i,
        {
            let t = data[i];
            let h = hash(t.key, hash_bits) as usize;
            let ghost before = buckets.contents();
            proof {
                assert(data@.take(i + 1) =~= data@.take(i as int).push(t));
                lemma_routed_push(data@.take(i as int), t, b, h as nat);
            }
            match buckets.claim_and_write(h, t) {
                Ok(_) => {},
                Err(e) => {
                    proof {
                        buckets.lemma_bounded();
                        lemma_routed_prefix_len(data@, i + 1, b, h as nat);
                        assert(routed(data@, b, h as nat).len() > capacity);
                    }
                    return Err(e);
                },
            }
            proof {
                assert forall|k: int| 0 <= k < num_buckets implies #[trigger] buckets.contents()[k] == routed_all(
                    data@.take(i + 1),
                    b,
                )[k] by {
                    lemma_routed_push(data@.take(i as int), t, b, k as nat);
                }
                assert(buckets.contents() =~= routed_all(data@.take(i + 1), b));
            }
            i = i + 1;
        }
        w = w + 1;
    }
    proof {
        assert(data@.take(n as int) =~= data@);
        buckets.lemma_bounded();
        if overflows(data@, b, capacity as nat) {
            let k = choose|k: nat| k < bucket_count_spec(b) && #[trigger] routed(data@, b, k).len() > capacity;
            assert(buckets.contents()[k as int] == routed(data@, b, k));
        }
    }
    Ok(buckets)
}

/// The contents of each buffer of `buffers`.
pub open spec fn buffer_views(buffers: Seq<Vec<Tuple>>) -> Seq<Seq<Tuple>> {
    Seq::new(buffers.len(), |k: int| buffers[k]@)
}

/// Checks a finished pass: true exactly when the buckets hold `data_size`
/// tuples in all.
pub fn validate_output(data_size: usize, buckets: &Vec<Vec<Tuple>>) -> (r: bool)
    ensures
        r == (total_len(buffer_views(buckets@)) == data_size),
{
    let ghost all = buffer_views(buckets@);
    let mut total: usize = 0;
    let mut k: usize = 0;
    while k < buckets.len()
        invariant
            k <= buckets.len(),
            all == buffer_views(buckets@),
            total == total_len(all.take(k as int)),
            total <= data_size,
        decreases buckets.len() - k,
    {
        assert(all.take(k + 1).drop_last() =~= all.take(k as int));
        let size = buckets[k].len();
        if size > data_size - total {
            proof {
                lemma_total_len_prefix(all, k + 1);
            }
            return false;
        }
        total = total + size;
        k = k + 1;
    }
    assert(all.take(k as int) =~= all);
    total == data_size
}

proof fn lemma_total_len_prefix(s: Seq<Seq<Tuple>>, i: int)
    requires
        0 <= i <= s.len(),
    ensures
        total_len(s.take(i)) <= total_len(s),
    decreases s.len() - i,
{
    if i < s.len() {
        lemma_total_len_prefix(s, i + 1);
        assert(s.take(i + 1).drop_last() =~= s.take(i));
    } else {
        assert(s.take(i) =~= s);
    }
}

/// Conservation: after a full concurrent pass over `data` that did not
/// overflow, the occupied-slot counts of all buckets add up to the number of
/// tuples, and the buckets together hold exactly the tuples of `data`: none
/// was lost or written twice.
pub proof fn lemma_concurrent_conserves(data: Seq<Tuple>, hash_bits: nat, buckets: ClaimBuckets)
    requires
        hash_bits <= MAX_HASH_BITS,
        buckets.contents() == routed_all(data, hash_bits),
    ensures
        total_len(buckets.contents()) == data.len(),
        bucket_multiset(buckets.contents()) == data.to_multiset(),
{
    lemma_routed_conserves(data, hash_bits);
}

/// Overflow detection: when every key of `data` routes to bucket 0 and there
/// are more tuples than a bucket holds, the pass overflows, so the full
/// concurrent pass reports an overflow error rather than dropping tuples.
pub proof fn lemma_skew_overflows(data: Seq<Tuple>, hash_bits: nat, capacity: nat)
    requires
        hash_bits <= MAX_HASH_BITS,
        forall|i: int| 0 <= i < data.len() ==> route_spec(#[trigger] data[i].key, hash_bits) == 0,
        data.len() > capacity,
    ensures
        overflows(data, hash_bits, capacity),
{
    lemma_bucket_count_bounds(hash_bits);
    lemma_routed_all_same(data, hash_bits, 0);
    assert(routed(data, hash_bits, 0).len() > capacity);
}

} // verus!
