//! Partitioning of a resource of known length into fixed-size chunks.
//!
//! A resource of `cl` bytes is cut into windows of `cs` bytes each; every
//! window but possibly the last is full, and the last is truncated to the
//! remaining length. The spec functions here are the mathematical model that
//! the engine's contracts are stated over; the lemmas establish that the
//! partition is disjoint, contiguous, and covers the resource exactly.

use vstd::prelude::*;
use vstd::arithmetic::div_mod::lemma_basic_div;
use vstd::arithmetic::div_mod::lemma_fundamental_div_mod;
use vstd::arithmetic::div_mod::lemma_fundamental_div_mod_converse;
use vstd::arithmetic::mul::lemma_mul_inequality;

verus! {

/// One contiguous byte range of the resource, assigned to a single fetch.
#[derive(Clone, Copy, PartialEq, Eq, Structural, Debug)]
pub struct Chunk {
    /// Offset of the first byte of the chunk within the resource.
    pub start: u64,
    /// Number of bytes in the chunk. A chunk always fits one range request,
    /// so its size is kept within 32 bits.
    pub size: u32,
}

/// Number of chunks that partitioning `cl` bytes into `cs`-byte windows
/// yields: the rounding-up quotient of `cl` by `cs`.
pub open spec fn num_chunks(cl: int, cs: int) -> int
    recommends
        cs >= 1,
        cl >= 0,
{
    (cl + cs - 1) / cs
}

/// Start offset of chunk number `i`.
pub open spec fn chunk_start(cs: int, i: int) -> int {
    i * cs
}

/// Size of chunk number `i`: a full window, or the remainder at the tail.
pub open spec fn chunk_len(cl: int, cs: int, i: int) -> int {
    if cl - i * cs < cs {
        cl - i * cs
    } else {
        cs
    }
}

/// Number of bytes covered by the first `k` chunks together.
pub open spec fn covered(cl: int, cs: int, k: int) -> int {
    if k * cs < cl {
        k * cs
    } else {
        cl
    }
}

/// `c` describes chunk number `i` of a resource of `cl` bytes cut into
/// `cs`-byte windows.
pub open spec fn is_chunk(cl: int, cs: int, i: int, c: Chunk) -> bool {
    &&& c.start == chunk_start(cs, i)
    &&& c.size == chunk_len(cl, cs, i)
}

/// Descriptor of the chunk that begins at byte `start` of a resource of `cl`
/// bytes, or `None` when `start` already lies at or past the end.
pub fn chunk_at(cl: u64, cs: u32, start: u64) -> (r: Option<Chunk>)
    requires
        1 <= cs,
    ensures
        match r {
            None => start >= cl,
            Some(c) => {
                &&& start < cl
                &&& c.start == start
                &&& c.size == (if cl - start < cs { cl - start } else { cs as int })
                &&& 1 <= c.size <= cs
            },
        },
{
    if start >= cl {
        None
    } else {
        let remaining: u64 = cl - start;
        let size: u32 = if remaining < cs as u64 {
            remaining as u32
        } else {
            cs
        };
        Some(Chunk { start, size })
    }
}

/// Sum of the sizes of the first `k` chunks.
pub open spec fn sum_chunk_lens(cl: int, cs: int, k: int) -> int
    decreases k,
{
    if k <= 0 {
        0
    } else {
        sum_chunk_lens(cl, cs, k - 1) + chunk_len(cl, cs, k - 1)
    }
}

/// The bytes of the source that chunk number `i` is responsible for.
pub open spec fn chunk_bytes(source: Seq<u8>, cs: int, i: int) -> Seq<u8> {
    source.subrange(
        chunk_start(cs, i),
        chunk_start(cs, i) + chunk_len(source.len() as int, cs, i),
    )
}

/// Concatenation of a sequence of byte buffers, in order.
pub open spec fn concat_bytes(bufs: Seq<Seq<u8>>) -> Seq<u8>
    decreases bufs.len(),
{
    if bufs.len() == 0 {
        Seq::empty()
    } else {
        concat_bytes(bufs.drop_last()) + bufs.last()
    }
}

/// Every chunk before the partition's end starts inside the resource, has a
/// size between one byte and a full window, and extends the covered prefix
/// by exactly its own size.
pub proof fn lemma_chunk_in_range(cl: int, cs: int, k: int)
    requires
        cs >= 1,
        cl >= 0,
        0 <= k < num_chunks(cl, cs),
    ensures
        chunk_start(cs, k) < cl,
        covered(cl, cs, k) == chunk_start(cs, k),
        1 <= chunk_len(cl, cs, k) <= cs,
        covered(cl, cs, k + 1) == covered(cl, cs, k) + chunk_len(cl, cs, k),
{
    let q = num_chunks(cl, cs);
    lemma_fundamental_div_mod(cl + cs - 1, cs);
    let r = (cl + cs - 1) % cs;
    assert(0 <= r < cs) by {
        vstd::arithmetic::div_mod::lemma_mod_bound(cl + cs - 1, cs);
    }
    assert(cl + cs - 1 == cs * q + r);
    lemma_mul_inequality(k, q - 1, cs);
    assert((q - 1) * cs == q * cs - cs) by (nonlinear_arith);
    assert(cs * q == q * cs) by (nonlinear_arith);
    assert(k * cs <= cl - 1 - r);
    assert(chunk_start(cs, k) < cl);
    assert((k + 1) * cs == k * cs + cs) by (nonlinear_arith);
}

/// The partition of `cl` bytes into `cs`-byte windows has the rounding-up
/// quotient of `cl` by `cs` as its number of chunks: no chunks exactly when
/// the resource is empty, and otherwise as many as needed so that the windows
/// reach the end without a full window to spare. The first `num_chunks`
/// chunks cover the resource exactly.
pub proof fn lemma_num_chunks(cl: int, cs: int)
    requires
        cs >= 1,
        cl >= 0,
    ensures
        num_chunks(cl, cs) >= 0,
        cl == 0 <==> num_chunks(cl, cs) == 0,
        cl <= num_chunks(cl, cs) * cs,
        cl > 0 ==> (num_chunks(cl, cs) - 1) * cs < cl,
        covered(cl, cs, num_chunks(cl, cs)) == cl,
{
    let q = num_chunks(cl, cs);
    if cl == 0 {
        lemma_basic_div(cs - 1, cs);
        assert(q == 0);
        assert(q * cs == 0) by (nonlinear_arith)
            requires q == 0;
    } else {
        lemma_fundamental_div_mod(cl + cs - 1, cs);
        let r = (cl + cs - 1) % cs;
        assert(0 <= r < cs) by {
            vstd::arithmetic::div_mod::lemma_mod_bound(cl + cs - 1, cs);
        }
        assert(cl + cs - 1 == cs * q + r);
        assert(cs * q == q * cs) by (nonlinear_arith);
        assert(q * cs == cl - 1 - r + cs);
        assert(cl <= q * cs);
        assert((q - 1) * cs == q * cs - cs) by (nonlinear_arith);
        assert((q - 1) * cs < cl);
        assert(q >= 1) by (nonlinear_arith)
            requires q * cs >= cl, cl >= 1, cs >= 1;
    }
}

/// The number of chunks is the unique count `k` whose windows reach `cl`
/// while the first `k - 1` fall short of it.
pub proof fn lemma_num_chunks_unique(cl: int, cs: int, k: int)
    requires
        cs >= 1,
        cl >= 0,
        0 <= k,
        cl <= k * cs,
        k > 0 ==> (k - 1) * cs < cl,
    ensures
        num_chunks(cl, cs) == k,
{
    if k == 0 {
        assert(k * cs == 0) by (nonlinear_arith)
            requires k == 0;
        lemma_basic_div(cs - 1, cs);
    } else {
        assert((k - 1) * cs == k * cs - cs) by (nonlinear_arith);
        let r = cl + cs - 1 - k * cs;
        assert(0 <= r < cs);
        assert(cl + cs - 1 == k * cs + r);
        lemma_fundamental_div_mod_converse(cl + cs - 1, cs, k, r);
    }
}

/// A window that starts inside the resource lies within the chunk count.
pub proof fn lemma_window_in_count(cl: int, cs: int, k: int)
    requires
        cs >= 1,
        0 <= k,
        k * cs < cl,
    ensures
        k + 1 <= num_chunks(cl, cs),
{
    assert(k * cs + cs == (k + 1) * cs) by (nonlinear_arith);
    lemma_fundamental_div_mod_converse(k * cs + cs, cs, k + 1, 0);
    vstd::arithmetic::div_mod::lemma_div_is_ordered(k * cs + cs, cl + cs - 1, cs);
}

/// As soon as `k` windows reach the resource's end, `k` is at least the
/// chunk count.
pub proof fn lemma_count_le_of_cover(cl: int, cs: int, k: int)
    requires
        cs >= 1,
        cl >= 0,
        0 <= k,
        cl <= k * cs,
    ensures
        num_chunks(cl, cs) <= k,
{
    lemma_fundamental_div_mod_converse(k * cs + cs - 1, cs, k, cs - 1);
    vstd::arithmetic::div_mod::lemma_div_is_ordered(cl + cs - 1, k * cs + cs - 1, cs);
}

/// Consecutive chunks are contiguous: each chunk before the last one ends
/// exactly where the next begins.
pub proof fn lemma_chunks_contiguous(cl: int, cs: int, i: int)
    requires
        cs >= 1,
        cl >= 0,
        0 <= i,
        i + 1 < num_chunks(cl, cs),
    ensures
        chunk_start(cs, i + 1) == chunk_start(cs, i) + chunk_len(cl, cs, i),
{
    lemma_chunk_in_range(cl, cs, i + 1);
    assert((i + 1) * cs == i * cs + cs) by (nonlinear_arith);
}

/// Distinct chunks are disjoint: an earlier chunk ends at or before the
/// point where any later chunk begins.
pub proof fn lemma_chunks_disjoint(cl: int, cs: int, i: int, j: int)
    requires
        cs >= 1,
        cl >= 0,
        0 <= i < j < num_chunks(cl, cs),
    ensures
        chunk_start(cs, i) + chunk_len(cl, cs, i) <= chunk_start(cs, j),
{
    lemma_chunks_contiguous(cl, cs, i);
    assert((i + 1) * cs == i * cs + cs) by (nonlinear_arith);
    lemma_mul_inequality(i + 1, j, cs);
}

/// The sizes of the first `k` chunks add up to the covered prefix.
proof fn lemma_sum_is_covered(cl: int, cs: int, k: int)
    requires
        cs >= 1,
        cl >= 0,
        0 <= k <= num_chunks(cl, cs),
    ensures
        sum_chunk_lens(cl, cs, k) == covered(cl, cs, k),
    decreases k,
{
    if k == 0 {
        assert(k * cs == 0) by (nonlinear_arith)
            requires k == 0;
    } else {
        lemma_sum_is_covered(cl, cs, k - 1);
        lemma_chunk_in_range(cl, cs, k - 1);
    }
}

/// The chunk sizes sum to exactly the resource length.
pub proof fn lemma_chunk_sizes_sum(cl: int, cs: int)
    requires
        cs >= 1,
        cl >= 0,
    ensures
        sum_chunk_lens(cl, cs, num_chunks(cl, cs)) == cl,
{
    lemma_num_chunks(cl, cs);
    lemma_sum_is_covered(cl, cs, num_chunks(cl, cs));
}

/// Reassembling the first `k` chunk buffers of a partitioned source, in
/// ascending chunk order, yields exactly the covered prefix of the source.
pub proof fn lemma_reassembly_prefix(source: Seq<u8>, cs: int, bufs: Seq<Seq<u8>>, k: int)
    requires
        cs >= 1,
        0 <= k <= bufs.len(),
        bufs.len() <= num_chunks(source.len() as int, cs),
        forall|i: int| 0 <= i < bufs.len() ==> bufs[i] == chunk_bytes(source, cs, i),
    ensures
        concat_bytes(bufs.take(k)) == source.take(covered(source.len() as int, cs, k)),
    decreases k,
{
    let cl = source.len() as int;
    if k == 0 {
        assert(0 * cs == 0) by (nonlinear_arith);
        assert(bufs.take(0) =~= Seq::<Seq<u8>>::empty());
        assert(source.take(0) =~= Seq::<u8>::empty());
    } else {
        lemma_reassembly_prefix(source, cs, bufs, k - 1);
        lemma_chunk_in_range(cl, cs, k - 1);
        assert(bufs.take(k).drop_last() =~= bufs.take(k - 1));
        assert(bufs.take(k).last() == bufs[k - 1]);
        assert(source.take(covered(cl, cs, k - 1)) + chunk_bytes(source, cs, k - 1) =~= source.take(
            covered(cl, cs, k),
        ));
    }
}

/// Reassembly law: if one buffer per chunk holds exactly that chunk's bytes
/// of the source, then concatenating the buffers in ascending chunk order
/// reproduces the source in full, whatever the window size. The concurrency
/// cap plays no part in the statement: the reassembled stream is independent
/// of it.
pub proof fn lemma_reassembly(source: Seq<u8>, cs: int, bufs: Seq<Seq<u8>>)
    requires
        cs >= 1,
        bufs.len() == num_chunks(source.len() as int, cs),
        forall|i: int| 0 <= i < bufs.len() ==> bufs[i] == chunk_bytes(source, cs, i),
    ensures
        concat_bytes(bufs) == source,
{
    let cl = source.len() as int;
    lemma_num_chunks(cl, cs);
    lemma_reassembly_prefix(source, cs, bufs, bufs.len() as int);
    assert(bufs.take(bufs.len() as int) =~= bufs);
    assert(source.take(cl) =~= source);
}

} // verus!
