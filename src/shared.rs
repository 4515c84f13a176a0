use vstd::prelude::*;
use std::sync::atomic::{AtomicU64, AtomicUsize, Ordering};

use crate::chunker::Chunk;
use crate::dataset::Tuple;
use crate::error::PartitionError;
use crate::hashing::{bucket_count_spec, hash, valid_hash_bits};

verus! {

/// The shared bucket array of the concurrent strategy, safe to use from many
/// threads at once through `&self`. Each bucket has `capacity` slots and an
/// atomic write cursor. A writer reserves a slot by an atomic
/// fetch-and-increment of the cursor, which hands every writer a distinct
/// index, and writes the slot only after checking the index against the
/// capacity. Slots are atomic words, so even a misuse cannot race.
pub struct SharedBuckets {
    capacity: usize,
    cursors: Vec<AtomicUsize>,
    keys: Vec<Vec<AtomicU64>>,
    payloads: Vec<Vec<AtomicU64>>,
}

impl SharedBuckets {
    /// Every bucket has a cursor and `capacity` key and payload slots.
    pub closed spec fn wf(&self) -> bool {
        &&& self.cursors.len() == self.keys.len()
        &&& self.keys.len() == self.payloads.len()
        &&& forall|k: int| 0 <= k < self.keys.len() ==> (#[trigger] self.keys@[k])@.len() == self.capacity
        &&& forall|k: int| 0 <= k < self.payloads.len() ==> (#[trigger] self.payloads@[k])@.len() == self.capacity
    }

    pub closed spec fn num_buckets_view(&self) -> nat {
        self.cursors.len() as nat
    }

    pub closed spec fn capacity_view(&self) -> nat {
        self.capacity as nat
    }

    fn zeroed_slots(capacity: usize) -> (r: Vec<AtomicU64>)
        ensures
            r@.len() == capacity,
    {
        let mut slots: Vec<AtomicU64> = Vec::with_capacity(capacity);
        let mut i: usize = 0;
        while i < capacity
            invariant
                i <= capacity,
                slots.len() == i,
            decreases capacity - i,
        {
            slots.push(AtomicU64::new(0));
            i = i + 1;
        }
        slots
    }

    /// `num_buckets` empty buckets of `capacity` slots each, all cursors at zero.
    pub fn new(num_buckets: usize, capacity: usize) -> (r: SharedBuckets)
        ensures
            r.wf(),
            r.num_buckets_view() == num_buckets,
            r.capacity_view() == capacity,
    {
        let mut cursors: Vec<AtomicUsize> = Vec::with_capacity(num_buckets);
        let mut keys: Vec<Vec<AtomicU64>> = Vec::with_capacity(num_buckets);
        let mut payloads: Vec<Vec<AtomicU64>> = Vec::with_capacity(num_buckets);
        let mut k: usize = 0;
        while k < num_buckets
            invariant
                k <= num_buckets,
                cursors.len() == k,
                keys.len() == k,
                payloads.len() == k,
                forall|j: int| 0 <= j < k ==> (#[trigger] keys@[j])@.len() == capacity,
                forall|j: int| 0 <= j < k ==> (#[trigger] payloads@[j])@.len() == capacity,
            decreases num_buckets - k,
        {
            cursors.push(AtomicUsize::new(0));
            keys.push(Self::zeroed_slots(capacity));
            payloads.push(Self::zeroed_slots(capacity));
            k = k + 1;
        }
        SharedBuckets { capacity, cursors, keys, payloads }
    }

    /// The number of buckets.
    pub fn num_buckets(&self) -> (r: usize)
        ensures
            r == self.num_buckets_view(),
    {
        self.cursors.len()
    }

    /// The number of slots in each bucket.
    pub fn capacity(&self) -> (r: usize)
        ensures
            r == self.capacity_view(),
    {
        self.capacity
    }

    /// Reserves the next slot of `bucket` and writes `t` into it, unless the
    /// reserved index is at or past the capacity: then nothing is written and
    /// an overflow error names the bucket and the index. Which index a call
    /// reserves depends on the other writers; `write_reserved` states what
    /// happens for each.
    pub fn claim_and_write(&self, bucket: usize, t: Tuple) -> (r: Result<usize, PartitionError>)
        requires
            self.wf(),
            bucket < self.num_buckets_view(),
        ensures
            r matches Ok(i) ==> i < self.capacity_view(),
            r is Err ==> (r matches Err(PartitionError::Overflow { bucket: b, index }) && b == bucket && index
                >= self.capacity_view()),
    {
        let index = self.cursors[bucket].fetch_add(1, Ordering::SeqCst);
        self.write_reserved(bucket, index, t)
    }

    /// Writes `t` into slot `index` of `bucket`, reserved beforehand, when
    /// that slot lies inside the bucket; a reservation at or past the
    /// capacity is refused with an overflow error before any access.
    pub fn write_reserved(&self, bucket: usize, index: usize, t: Tuple) -> (r: Result<usize, PartitionError>)
        requires
            self.wf(),
            bucket < self.num_buckets_view(),
        ensures
            index < self.capacity_view() ==> r == Ok::<usize, PartitionError>(index),
            index >= self.capacity_view() ==> r == Err::<usize, PartitionError>(
                PartitionError::Overflow { bucket, index },
            ),
    {
        if index >= self.capacity {
            return Err(PartitionError::Overflow { bucket, index });
        }
        self.keys[bucket][index].store(t.key, Ordering::Relaxed);
        self.payloads[bucket][index].store(t.payload, Ordering::Relaxed);
        Ok(index)
    }

    /// The number of written slots of `bucket`: its cursor, or the capacity
    /// where claims went past it (see `occupied_count`).
    pub fn occupied(&self, bucket: usize) -> (r: usize)
        requires
            self.wf(),
            bucket < self.num_buckets_view(),
        ensures
            r <= self.capacity_view(),
    {
        let claimed = self.cursors[bucket].load(Ordering::SeqCst);
        occupied_count(claimed, self.capacity)
    }

    /// The first `used` slots of `bucket`, for reading once all writers have
    /// finished.
    pub fn read_bucket(&self, bucket: usize, used: usize) -> (r: Vec<Tuple>)
        requires
            self.wf(),
            bucket < self.num_buckets_view(),
            used <= self.capacity_view(),
        ensures
            r@.len() == used,
    {
        let mut out: Vec<Tuple> = Vec::with_capacity(used);
        let mut i: usize = 0;
        while i < used
            invariant
                self.wf(),
                bucket < self.num_buckets_view(),
                used <= self.capacity_view(),
                i <= used,
                out.len() == i,
            decreases used - i,
        {
            let key = self.keys[bucket][i].load(Ordering::Relaxed);
            let payload = self.payloads[bucket][i].load(Ordering::Relaxed);
            out.push(Tuple { key, payload });
            i = i + 1;
        }
        out
    }

    /// The written slots of every bucket, for reading once all writers have
    /// finished: bucket `k` gets `occupied(k)` slots.
    pub fn snapshot(&self) -> (r: Vec<Vec<Tuple>>)
        requires
            self.wf(),
        ensures
            r@.len() == self.num_buckets_view(),
            forall|k: int| 0 <= k < r@.len() ==> (#[trigger] r@[k])@.len() <= self.capacity_view(),
    {
        let mut out: Vec<Vec<Tuple>> = Vec::with_capacity(self.cursors.len());
        let mut k: usize = 0;
        while k < self.cursors.len()
            invariant
                self.wf(),
                k <= self.cursors.len(),
                out.len() == k,
                forall|j: int| 0 <= j < k ==> (#[trigger] out@[j])@.len() <= self.capacity_view(),
            decreases self.cursors.len() - k,
        {
            let used = self.occupied(k);
            out.push(self.read_bucket(k, used));
            k = k + 1;
        }
        out
    }
}

/// The number of written slots of a bucket of `capacity` slots whose cursor
/// stands at `claimed`: every claim below the capacity wrote its slot, and
/// none past it did.
pub fn occupied_count(claimed: usize, capacity: usize) -> (r: usize)
    ensures
        r == if claimed < capacity { claimed } else { capacity },
{
    if claimed < capacity {
        claimed
    } else {
        capacity
    }
}

/// One worker of the concurrent strategy: routes each tuple of `chunk` to its
/// bucket and claims a slot for it there. Stops at the first overflow and
/// reports it; until then every write lands inside its bucket.
pub fn concurrent_output_thread(buckets: &SharedBuckets, data: &Vec<Tuple>, chunk: Chunk, hash_bits: u32) -> (r: Result<(), PartitionError>)
    requires
        buckets.wf(),
        valid_hash_bits(hash_bits as nat),
        buckets.num_buckets_view() == bucket_count_spec(hash_bits as nat),
        chunk.start <= chunk.end <= data.len(),
    ensures
        chunk.start == chunk.end ==> r == Ok::<(), PartitionError>(()),
        r is Err ==> (r matches Err(PartitionError::Overflow { bucket, index }) && bucket
            < buckets.num_buckets_view() && index >= buckets.capacity_view()),
{
    let mut i: usize = chunk.start;
    while i < chunk.end
        invariant
            buckets.wf(),
            valid_hash_bits(hash_bits as nat),
            buckets.num_buckets_view() == bucket_count_spec(hash_bits as nat),
            chunk.start <= i <= chunk.end <= data.len(),
        decreases chunk.end - i,
    {
        let t = data[i];
        let h = hash(t.key, hash_bits) as usize;
        if let Err(e) = buckets.claim_and_write(h, t) {
            return Err(e);
        }
        i = i + 1;
    }
    Ok(())
}

} // verus!
