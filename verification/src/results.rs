//! Framing search results into output rows.

use vstd::prelude::*;
use crate::codec::{global_row, to_global_row};

verus! {

/// The most rows that one call of a table function hands to DuckDB.
pub const MAX_ROWS_PER_CHUNK: usize = 2048;

/// How many rows an output step emits when `offset` rows of `total` are
/// already out: the rest, up to [`MAX_ROWS_PER_CHUNK`]; none once all are
/// out, which tells DuckDB that the function is done.
pub open spec fn chunk_len(offset: usize, total: usize) -> usize {
    if offset < total {
        if total - offset < MAX_ROWS_PER_CHUNK {
            (total - offset) as usize
        } else {
            MAX_ROWS_PER_CHUNK
        }
    } else {
        0
    }
}

/// One output step over `total` rows: the first row and the number of rows
/// to emit now, which are the next [`chunk_len`] rows after `offset`; the
/// offset moves past them.
pub fn take_chunk(offset: &mut usize, total: usize) -> (r: (usize, usize))
    ensures
        r.0 == *old(offset),
        r.1 == chunk_len(*old(offset), total),
        *final(offset) == r.0 + r.1,
        r.0 + r.1 <= total || r.1 == 0,
{
    let start = *offset;
    let count = if start < total {
        if total - start < MAX_ROWS_PER_CHUNK {
            total - start
        } else {
            MAX_ROWS_PER_CHUNK
        }
    } else {
        0
    };
    *offset = start + count;
    (start, count)
}

/// Where the output stands after `k` steps over `total` rows, from the
/// first row.
pub open spec fn offset_after(total: usize, k: nat) -> usize
    decreases k,
{
    if k == 0 {
        0
    } else {
        let o = offset_after(total, (k - 1) as nat);
        (o + chunk_len(o, total)) as usize
    }
}

/// The rows emitted by the first `k` steps over `rows`, chunk after chunk.
pub open spec fn emitted<T>(rows: Seq<T>, k: nat) -> Seq<T>
    decreases k,
{
    if k == 0 {
        Seq::empty()
    } else {
        let o = offset_after(rows.len() as usize, (k - 1) as nat);
        emitted(rows, (k - 1) as nat) + rows.subrange(
            o as int,
            o + chunk_len(o, rows.len() as usize),
        )
    }
}

proof fn lemma_steps_so_far<T>(rows: Seq<T>, k: nat)
    requires
        rows.len() <= usize::MAX,
    ensures
        offset_after(rows.len() as usize, k) == (if k * MAX_ROWS_PER_CHUNK < rows.len() {
            k * MAX_ROWS_PER_CHUNK
        } else {
            rows.len() as int
        }),
        emitted(rows, k) == rows.subrange(0, offset_after(rows.len() as usize, k) as int),
    decreases k,
{
    if k == 0 {
        assert(rows.subrange(0, 0) =~= Seq::<T>::empty());
    } else {
        let j = (k - 1) as nat;
        lemma_steps_so_far(rows, j);
        let o = offset_after(rows.len() as usize, j);
        assert(k * MAX_ROWS_PER_CHUNK == j * MAX_ROWS_PER_CHUNK + MAX_ROWS_PER_CHUNK) by (
        nonlinear_arith)
            requires
                k == j + 1,
        ;
        assert(rows.subrange(0, o as int) + rows.subrange(
            o as int,
            o + chunk_len(o, rows.len() as usize),
        ) =~= rows.subrange(0, o + chunk_len(o, rows.len() as usize)));
    }
}

/// Output steps, repeated from the first row, emit every row once and in
/// order: after `rows.len() / (MAX_ROWS_PER_CHUNK as nat) + 1` steps the emitted
/// chunks, joined, are all the rows, and the next step emits none.
pub proof fn lemma_chunks_emit_every_row<T>(rows: Seq<T>)
    requires
        rows.len() <= usize::MAX,
    ensures
        emitted(rows, (rows.len() / (MAX_ROWS_PER_CHUNK as nat) + 1) as nat) == rows,
        chunk_len(
            offset_after(rows.len() as usize, (rows.len() / (MAX_ROWS_PER_CHUNK as nat) + 1) as nat),
            rows.len() as usize,
        ) == 0,
{
    let k = (rows.len() / (MAX_ROWS_PER_CHUNK as nat) + 1) as nat;
    lemma_steps_so_far(rows, k);
    assert(k * MAX_ROWS_PER_CHUNK >= rows.len()) by (nonlinear_arith)
        requires
            k == rows.len() / (MAX_ROWS_PER_CHUNK as nat) + 1,
            MAX_ROWS_PER_CHUNK == 2048,
    ;
    assert(rows.subrange(0, rows.len() as int) =~= rows);
}

/// A hit as an output row: the row number narrowed to `i32`, and the score.
pub open spec fn hit_row<S>(index: i64, score: S) -> (i32, S) {
    (index as i32, score)
}

/// The first `nq * k` hits of a search, in order (query after query, best
/// first within a query), as output rows.
pub fn gather_hits<S: Copy>(indices: &Vec<i64>, scores: &Vec<S>, nq: usize, k: usize) -> (rows:
    Vec<(i32, S)>)
    requires
        nq * k <= indices@.len(),
        nq * k <= scores@.len(),
    ensures
        rows@ == Seq::new((nq * k) as nat, |p: int| hit_row(indices@[p], scores@[p])),
{
    proof {
        // A vector's length fits a usize, and so does the product below it.
        assert(indices.len() == indices@.len());
    }
    let total = nq * k;
    let mut rows: Vec<(i32, S)> = Vec::new();
    let mut p: usize = 0;
    while p < total
        invariant
            0 <= p <= total,
            total == nq * k,
            total <= indices@.len(),
            total <= scores@.len(),
            rows@ == Seq::new(p as nat, |q: int| hit_row(indices@[q], scores@[q])),
        decreases total - p,
    {
        let row = (#[verifier::truncate] (indices[p] as i32), scores[p]);
        rows.push(row);
        assert(rows@ =~= Seq::new((p + 1) as nat, |q: int| hit_row(indices@[q], scores@[q])));
        p = p + 1;
    }
    rows
}

/// A hit inside one cluster of an inverted-file index as an output row: the
/// local position is mapped to the global row number through the cluster's
/// id map.
pub open spec fn cluster_hit_row<S>(index: i64, score: S, idmap: Seq<i32>) -> (i32, S) {
    (global_row(index as usize, idmap), score)
}

/// The first `count` hits of a search inside one cluster, as output rows.
pub fn cluster_hits<S: Copy>(
    indices: &Vec<i64>,
    scores: &Vec<S>,
    count: usize,
    idmap: &Vec<i32>,
) -> (rows: Vec<(i32, S)>)
    requires
        count <= indices@.len(),
        count <= scores@.len(),
    ensures
        rows@ == Seq::new(count as nat, |p: int| cluster_hit_row(indices@[p], scores@[p], idmap@)),
{
    let mut rows: Vec<(i32, S)> = Vec::new();
    let mut p: usize = 0;
    while p < count
        invariant
            0 <= p <= count,
            count <= indices@.len(),
            count <= scores@.len(),
            rows@ == Seq::new(
                p as nat,
                |q: int| cluster_hit_row(indices@[q], scores@[q], idmap@),
            ),
        decreases count - p,
    {
        let local = #[verifier::truncate] (indices[p] as usize);
        let row = (to_global_row(local, idmap), scores[p]);
        rows.push(row);
        assert(rows@ =~= Seq::new(
            (p + 1) as nat,
            |q: int| cluster_hit_row(indices@[q], scores@[q], idmap@),
        ));
        p = p + 1;
    }
    rows
}

} // verus!
