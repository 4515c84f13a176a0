use vstd::prelude::*;
use vstd::multiset::Multiset;

use crate::dataset::Tuple;
use crate::hashing::{bucket_count_spec, lemma_bucket_count_bounds, route_spec, MAX_HASH_BITS};

verus! {

/// The tuples of `s` that route to `bucket`, in the order in which they occur.
pub open spec fn routed(s: Seq<Tuple>, hash_bits: nat, bucket: nat) -> Seq<Tuple>
    decreases s.len(),
{
    if s.len() == 0 {
        Seq::empty()
    } else {
        let rest = routed(s.drop_last(), hash_bits, bucket);
        if route_spec(s.last().key, hash_bits) == bucket {
            rest.push(s.last())
        } else {
            rest
        }
    }
}

/// The buckets that a full pass over `s` should produce: bucket `k` holds
/// exactly the tuples of `s` that route to `k`.
pub open spec fn routed_all(s: Seq<Tuple>, hash_bits: nat) -> Seq<Seq<Tuple>> {
    Seq::new(bucket_count_spec(hash_bits), |k: int| routed(s, hash_bits, k as nat))
}

/// The total number of tuples held by `buckets`.
pub open spec fn total_len(buckets: Seq<Seq<Tuple>>) -> nat
    decreases buckets.len(),
{
    if buckets.len() == 0 {
        0
    } else {
        total_len(buckets.drop_last()) + buckets.last().len()
    }
}

/// All the tuples held by `buckets`, counted with multiplicity.
pub open spec fn bucket_multiset(buckets: Seq<Seq<Tuple>>) -> Multiset<Tuple>
    decreases buckets.len(),
{
    if buckets.len() == 0 {
        Multiset::empty()
    } else {
        bucket_multiset(buckets.drop_last()).add(buckets.last().to_multiset())
    }
}

/// Appending one tuple extends the bucket it routes to and no other.
pub proof fn lemma_routed_push(s: Seq<Tuple>, t: Tuple, hash_bits: nat, bucket: nat)
    ensures
        routed(s.push(t), hash_bits, bucket) == if route_spec(t.key, hash_bits) == bucket {
            routed(s, hash_bits, bucket).push(t)
        } else {
            routed(s, hash_bits, bucket)
        },
{
    assert(s.push(t).drop_last() =~= s);
}

/// Routing a prefix yields a prefix of each bucket.
pub proof fn lemma_routed_prefix_len(s: Seq<Tuple>, i: int, hash_bits: nat, bucket: nat)
    requires
        0 <= i <= s.len(),
    ensures
        routed(s.take(i), hash_bits, bucket).len() <= routed(s, hash_bits, bucket).len(),
    decreases s.len() - i,
{
    if i < s.len() {
        lemma_routed_prefix_len(s, i + 1, hash_bits, bucket);
        assert(s.take(i + 1) =~= s.take(i).push(s[i]));
        lemma_routed_push(s.take(i), s[i], hash_bits, bucket);
    } else {
        assert(s.take(i) =~= s);
    }
}

/// When every tuple of `s` routes to `bucket`, that bucket receives all of them.
pub proof fn lemma_routed_all_same(s: Seq<Tuple>, hash_bits: nat, bucket: nat)
    requires
        forall|i: int| 0 <= i < s.len() ==> route_spec(#[trigger] s[i].key, hash_bits) == bucket,
    ensures
        routed(s, hash_bits, bucket) == s,
    decreases s.len(),
{
    if s.len() > 0 {
        let p = s.drop_last();
        assert forall|i: int| 0 <= i < p.len() implies route_spec(#[trigger] p[i].key, hash_bits) == bucket by {
            assert(p[i] == s[i]);
        }
        lemma_routed_all_same(p, hash_bits, bucket);
        assert(p.push(s.last()) =~= s);
    } else {
        assert(s =~= Seq::empty());
    }
}

spec fn sum_routed(s: Seq<Tuple>, hash_bits: nat, m: nat) -> nat
    decreases m,
{
    if m == 0 {
        0
    } else {
        sum_routed(s, hash_bits, (m - 1) as nat) + routed(s, hash_bits, (m - 1) as nat).len()
    }
}

proof fn lemma_sum_routed_push(s: Seq<Tuple>, t: Tuple, hash_bits: nat, m: nat)
    ensures
        sum_routed(s.push(t), hash_bits, m) == sum_routed(s, hash_bits, m) + if route_spec(t.key, hash_bits) < m {
            1nat
        } else {
            0nat
        },
    decreases m,
{
    if m > 0 {
        lemma_sum_routed_push(s, t, hash_bits, (m - 1) as nat);
        lemma_routed_push(s, t, hash_bits, (m - 1) as nat);
    }
}

proof fn lemma_sum_routed_all(s: Seq<Tuple>, hash_bits: nat)
    requires
        hash_bits <= MAX_HASH_BITS,
    ensures
        sum_routed(s, hash_bits, bucket_count_spec(hash_bits)) == s.len(),
    decreases s.len(),
{
    let m = bucket_count_spec(hash_bits);
    if s.len() == 0 {
        lemma_sum_routed_empty(s, hash_bits, m);
    } else {
        let p = s.drop_last();
        lemma_sum_routed_all(p, hash_bits);
        lemma_bucket_count_bounds(hash_bits);
        assert(p.push(s.last()) =~= s);
        lemma_sum_routed_push(p, s.last(), hash_bits, m);
    }
}

proof fn lemma_sum_routed_empty(s: Seq<Tuple>, hash_bits: nat, m: nat)
    requires
        s.len() == 0,
    ensures
        sum_routed(s, hash_bits, m) == 0,
    decreases m,
{
    if m > 0 {
        lemma_sum_routed_empty(s, hash_bits, (m - 1) as nat);
    }
}

proof fn lemma_total_is_sum(s: Seq<Tuple>, hash_bits: nat, m: nat)
    requires
        m <= bucket_count_spec(hash_bits),
    ensures
        total_len(routed_all(s, hash_bits).take(m as int)) == sum_routed(s, hash_bits, m),
    decreases m,
{
    let all = routed_all(s, hash_bits);
    if m > 0 {
        lemma_total_is_sum(s, hash_bits, (m - 1) as nat);
        assert(all.take(m as int).drop_last() =~= all.take(m - 1));
    }
}

spec fn msum_routed(s: Seq<Tuple>, hash_bits: nat, m: nat) -> Multiset<Tuple>
    decreases m,
{
    if m == 0 {
        Multiset::empty()
    } else {
        msum_routed(s, hash_bits, (m - 1) as nat).add(routed(s, hash_bits, (m - 1) as nat).to_multiset())
    }
}

proof fn lemma_msum_routed_push(s: Seq<Tuple>, t: Tuple, hash_bits: nat, m: nat)
    ensures
        msum_routed(s.push(t), hash_bits, m) == if route_spec(t.key, hash_bits) < m {
            msum_routed(s, hash_bits, m).insert(t)
        } else {
            msum_routed(s, hash_bits, m)
        },
    decreases m,
{
    broadcast use vstd::multiset::group_multiset_axioms;

    if m > 0 {
        let k = (m - 1) as nat;
        lemma_msum_routed_push(s, t, hash_bits, k);
        lemma_routed_push(s, t, hash_bits, k);
        vstd::seq_lib::to_multiset_build(routed(s, hash_bits, k), t);
        if route_spec(t.key, hash_bits) < m {
            assert(msum_routed(s.push(t), hash_bits, m) =~= msum_routed(s, hash_bits, m).insert(t));
        } else {
            assert(msum_routed(s.push(t), hash_bits, m) =~= msum_routed(s, hash_bits, m));
        }
    }
}

proof fn lemma_msum_routed_empty(s: Seq<Tuple>, hash_bits: nat, m: nat)
    requires
        s.len() == 0,
    ensures
        msum_routed(s, hash_bits, m) == Multiset::<Tuple>::empty(),
    decreases m,
{
    broadcast use vstd::multiset::group_multiset_axioms;

    if m > 0 {
        lemma_msum_routed_empty(s, hash_bits, (m - 1) as nat);
        let r = routed(s, hash_bits, (m - 1) as nat);
        vstd::seq_lib::to_multiset_len(r);
        vstd::multiset::lemma_multiset_empty_len(r.to_multiset());
        assert(msum_routed(s, hash_bits, m) =~= Multiset::<Tuple>::empty());
    }
}

proof fn lemma_msum_routed_all(s: Seq<Tuple>, hash_bits: nat)
    requires
        hash_bits <= MAX_HASH_BITS,
    ensures
        msum_routed(s, hash_bits, bucket_count_spec(hash_bits)) == s.to_multiset(),
    decreases s.len(),
{
    broadcast use vstd::multiset::group_multiset_axioms;

    let m = bucket_count_spec(hash_bits);
    if s.len() == 0 {
        lemma_msum_routed_empty(s, hash_bits, m);
        vstd::seq_lib::to_multiset_len(s);
        vstd::multiset::lemma_multiset_empty_len(s.to_multiset());
    } else {
        let p = s.drop_last();
        lemma_msum_routed_all(p, hash_bits);
        lemma_bucket_count_bounds(hash_bits);
        assert(p.push(s.last()) =~= s);
        lemma_msum_routed_push(p, s.last(), hash_bits, m);
        vstd::seq_lib::to_multiset_build(p, s.last());
    }
}

proof fn lemma_bucket_multiset_is_msum(s: Seq<Tuple>, hash_bits: nat, m: nat)
    requires
        m <= bucket_count_spec(hash_bits),
    ensures
        bucket_multiset(routed_all(s, hash_bits).take(m as int)) == msum_routed(s, hash_bits, m),
    decreases m,
{
    let all = routed_all(s, hash_bits);
    if m > 0 {
        lemma_bucket_multiset_is_msum(s, hash_bits, (m - 1) as nat);
        assert(all.take(m as int).drop_last() =~= all.take(m - 1));
    }
}

/// A full pass loses and duplicates nothing: the bucket sizes of
/// `routed_all(s)` add up to the number of tuples of `s`, and together the
/// buckets hold exactly the tuples of `s`, each as often as it occurs there.
pub proof fn lemma_routed_conserves(s: Seq<Tuple>, hash_bits: nat)
    requires
        hash_bits <= MAX_HASH_BITS,
    ensures
        total_len(routed_all(s, hash_bits)) == s.len(),
        bucket_multiset(routed_all(s, hash_bits)) == s.to_multiset(),
{
    let all = routed_all(s, hash_bits);
    lemma_total_is_sum(s, hash_bits, bucket_count_spec(hash_bits));
    assert(all.take(bucket_count_spec(hash_bits) as int) =~= all);
    lemma_sum_routed_all(s, hash_bits);
    lemma_bucket_multiset_is_msum(s, hash_bits, bucket_count_spec(hash_bits));
    lemma_msum_routed_all(s, hash_bits);
}

} // verus!
