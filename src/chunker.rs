use vstd::prelude::*;

use crate::error::PartitionError;

verus! {

/// A half-open index range `[start, end)` of the dataset, worked by one thread.
#[derive(Debug, Clone, Copy, PartialEq, Eq, Structural)]
pub struct Chunk {
    pub start: usize,
    pub end: usize,
}

impl Chunk {
    /// The number of tuples in the chunk.
    pub fn len(&self) -> (r: usize)
        requires
            self.start <= self.end,
        ensures
            r == self.end - self.start,
    {
        self.end - self.start
    }
}

pub open spec fn min_nat(a: nat, b: nat) -> nat {
    if a <= b { a } else { b }
}

/// `ceil(n / num_threads)`: the length of every chunk but the trailing ones.
pub open spec fn chunk_size_spec(n: nat, num_threads: nat) -> nat {
    if num_threads == 0 {
        0
    } else {
        n / num_threads + if n % num_threads == 0 { 0nat } else { 1nat }
    }
}

/// Where chunk `i` begins: `i` whole chunks in, but never past the end.
pub open spec fn chunk_start_spec(n: nat, num_threads: nat, i: nat) -> nat {
    min_nat(i * chunk_size_spec(n, num_threads), n)
}

/// Where chunk `i` ends: one chunk further on, but never past the end.
pub open spec fn chunk_end_spec(n: nat, num_threads: nat, i: nat) -> nat {
    min_nat((i + 1) * chunk_size_spec(n, num_threads), n)
}

/// Index `x` lies in chunk `c`.
pub open spec fn in_chunk(c: Chunk, x: nat) -> bool {
    c.start <= x < c.end
}

/// Some chunk of `chunks` holds index `x`.
pub open spec fn covered(chunks: Seq<Chunk>, x: nat) -> bool {
    exists|i: int| 0 <= i < chunks.len() && #[trigger] in_chunk(chunks[i], x)
}

/// `chunks` is the chunking of `[0, n)` among `num_threads` threads.
pub open spec fn is_chunking(chunks: Seq<Chunk>, n: nat, num_threads: nat) -> bool {
    &&& chunks.len() == num_threads
    &&& forall|i: int|
        0 <= i < chunks.len() ==> {
            &&& #[trigger] chunks[i].start == chunk_start_spec(n, num_threads, i as nat)
            &&& chunks[i].end == chunk_end_spec(n, num_threads, i as nat)
        }
}

/// The per-thread chunk length, `ceil(n / num_threads)`.
pub fn chunk_size(n: usize, num_threads: usize) -> (r: usize)
    requires
        num_threads >= 1,
    ensures
        r as nat == chunk_size_spec(n as nat, num_threads as nat),
{
    let whole = n / num_threads;
    if n % num_threads == 0 {
        whole
    } else {
        proof {
            assert(whole * num_threads <= n && n == whole * num_threads + n % num_threads) by (nonlinear_arith)
                requires whole == n / num_threads, num_threads >= 1;
            assert(whole < n) by (nonlinear_arith)
                requires whole * num_threads <= n, n % num_threads != 0, num_threads >= 1,
                    n == whole * num_threads + n % num_threads;
        }
        whole + 1
    }
}

proof fn lemma_next_end(n: nat, cs: nat, i: nat, start: nat)
    requires
        start == min_nat(i * cs, n),
        n > 0 ==> cs > 0,
    ensures
        (if n - start >= cs { start + cs } else { n }) == min_nat((i + 1) * cs, n),
{
    assert((i + 1) * cs == i * cs + cs) by (nonlinear_arith);
    if i * cs > n {
        assert(cs > 0) by (nonlinear_arith) requires i * cs > n;
    }
}

/// Splits `[0, n)` into `num_threads` contiguous chunks of `ceil(n / num_threads)`
/// tuples; the trailing chunks hold the remainder and may be empty.
pub fn chunk(n: usize, num_threads: usize) -> (r: Result<Vec<Chunk>, PartitionError>)
    ensures
        num_threads == 0 <==> r is Err,
        r is Err ==> r == Err::<Vec<Chunk>, PartitionError>(PartitionError::InvalidThreadCount),
        r matches Ok(chunks) ==> is_chunking(chunks@, n as nat, num_threads as nat),
{
    if num_threads == 0 {
        return Err(PartitionError::InvalidThreadCount);
    }
    let cs = chunk_size(n, num_threads);
    proof {
        if n > 0 {
            assert(cs > 0) by (nonlinear_arith)
                requires cs == n / num_threads + if n % num_threads == 0 { 0int } else { 1int },
                    n > 0, num_threads >= 1;
        }
    }
    let mut chunks: Vec<Chunk> = Vec::new();
    let mut start: usize = 0;
    let mut i: usize = 0;
    while i < num_threads
        invariant
            i <= num_threads,
            num_threads >= 1,
            cs as nat == chunk_size_spec(n as nat, num_threads as nat),
            n > 0 ==> cs > 0,
            start as nat == chunk_start_spec(n as nat, num_threads as nat, i as nat),
            chunks.len() == i,
            forall|j: int|
                0 <= j < i ==> {
                    &&& #[trigger] chunks@[j].start == chunk_start_spec(n as nat, num_threads as nat, j as nat)
                    &&& chunks@[j].end == chunk_end_spec(n as nat, num_threads as nat, j as nat)
                },
        decreases num_threads - i,
    {
        proof {
            lemma_next_end(n as nat, cs as nat, i as nat, start as nat);
        }
        let end = if n - start >= cs { start + cs } else { n };
        chunks.push(Chunk { start, end });
        start = end;
        i = i + 1;
    }
    Ok(chunks)
}

proof fn lemma_size_covers(n: nat, t: nat)
    requires
        t >= 1,
    ensures
        chunk_size_spec(n, t) * t >= n,
        n > 0 ==> chunk_size_spec(n, t) > 0,
{
    let cs = chunk_size_spec(n, t);
    let q = n / t;
    let rem = n % t;
    assert(n == q * t + rem && rem < t) by (nonlinear_arith) requires q == n / t, rem == n % t, t >= 1;
    assert(cs * t >= n) by (nonlinear_arith)
        requires cs == q + if rem == 0 { 0int } else { 1int }, n == q * t + rem, rem < t, t >= 1;
    if n > 0 {
        assert(cs > 0) by (nonlinear_arith) requires cs * t >= n, n > 0, t >= 1;
    }
}

proof fn lemma_start_monotone(n: nat, t: nat, i: nat, j: nat)
    requires
        i <= j,
    ensures
        chunk_start_spec(n, t, i) <= chunk_start_spec(n, t, j),
{
    let cs = chunk_size_spec(n, t);
    assert(i * cs <= j * cs) by (nonlinear_arith) requires i <= j;
}

/// The chunks of `[0, n)` among `num_threads` threads lie inside `[0, n)`,
/// are pairwise disjoint, and every index of `[0, n)` lies in exactly one of
/// them; when there are more threads than tuples the surplus chunks are empty.
pub proof fn lemma_chunks_partition(chunks: Seq<Chunk>, n: nat, num_threads: nat)
    requires
        num_threads >= 1,
        is_chunking(chunks, n, num_threads),
    ensures
        forall|i: int| 0 <= i < chunks.len() ==> #[trigger] chunks[i].start <= chunks[i].end <= n,
        forall|i: int, j: int|
            0 <= i < chunks.len() && 0 <= j < chunks.len() && i != j ==>
                #[trigger] chunks[i].end <= #[trigger] chunks[j].start || chunks[j].end <= chunks[i].start,
        forall|x: nat| x < n ==> #[trigger] covered(chunks, x),
        num_threads > n ==> (forall|i: int| n <= i < chunks.len() ==> #[trigger] chunks[i].start == chunks[i].end),
        chunks[0].start == 0,
        chunks[num_threads - 1].end == n,
        forall|i: int| 0 <= i < chunks.len() - 1 ==> #[trigger] chunks[i].end == chunks[i + 1].start,
{
    let t = num_threads;
    let cs = chunk_size_spec(n, t);
    lemma_size_covers(n, t);
    assert(0 * cs == 0);
    assert(chunks[t - 1].start == chunk_start_spec(n, t, (t - 1) as nat));
    assert(((t - 1) as nat + 1) == t);
    assert(chunks[0].start == chunk_start_spec(n, t, 0));
    assert forall|i: int| 0 <= i < chunks.len() - 1 implies #[trigger] chunks[i].end == chunks[i + 1].start by {
        assert(chunks[i].start == chunk_start_spec(n, t, i as nat));
        assert(chunks[i + 1].start == chunk_start_spec(n, t, (i + 1) as nat));
        assert((i + 1) as nat == i as nat + 1);
    }
    assert(t * cs >= n) by (nonlinear_arith) requires cs * t >= n;
    assert forall|i: int| 0 <= i < chunks.len() implies #[trigger] chunks[i].start <= chunks[i].end <= n by {
        lemma_start_monotone(n, t, i as nat, (i + 1) as nat);
    }
    assert forall|i: int, j: int|
        0 <= i < chunks.len() && 0 <= j < chunks.len() && i != j implies
            #[trigger] chunks[i].end <= #[trigger] chunks[j].start || chunks[j].end <= chunks[i].start by {
        if i < j {
            lemma_start_monotone(n, t, (i + 1) as nat, j as nat);
        } else {
            lemma_start_monotone(n, t, (j + 1) as nat, i as nat);
        }
    }
    assert forall|x: nat| x < n implies #[trigger] covered(chunks, x) by {
        let i = x / cs;
        assert(i * cs <= x && x < (i + 1) * cs) by (nonlinear_arith) requires i == x / cs, cs > 0;
        if i >= t {
            assert(i * cs >= t * cs) by (nonlinear_arith) requires i >= t;
        }
        assert(in_chunk(chunks[i as int], x));
    }
    if t > n {
        assert forall|i: int| n <= i < chunks.len() implies #[trigger] chunks[i].start == chunks[i].end by {
            assert(cs <= 1) by (nonlinear_arith)
                requires cs == n / t + if n % t == 0 { 0int } else { 1int }, t > n;
            assert(i * cs >= n) by (nonlinear_arith) requires i >= n, cs * t >= n, cs <= 1, t > n;
            assert((i + 1) * cs >= n) by (nonlinear_arith) requires i * cs >= n;
        }
    }
}

} // verus!
