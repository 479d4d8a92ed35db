//! Arithmetic of row-major grids: flat indices, and the split of a
//! coordinate into a chunk coordinate and an offset inside the chunk.

use vstd::prelude::*;

verus! {

/// The flat index of column `a`, row `b` in a row-major grid of `n` columns.
pub open spec fn flat_index(a: int, b: int, n: int) -> int {
    b * n + a
}

/// A cell of an `n` by `m` grid has a flat index below `n * m`.
pub proof fn lemma_flat_index_bound(a: int, b: int, n: int, m: int)
    requires
        0 <= a < n,
        0 <= b < m,
    ensures
        0 <= flat_index(a, b, n) < n * m,
        0 <= b * n <= flat_index(a, b, n),
{
    assert(0 <= b * n && b * n + n <= m * n && m * n == n * m) by (nonlinear_arith)
        requires
            0 <= b < m,
            0 < n,
    ;
}

/// Two cells of a grid with the same flat index are the same cell.
pub proof fn lemma_flat_index_injective(a1: int, b1: int, a2: int, b2: int, n: int)
    requires
        0 <= a1 < n,
        0 <= a2 < n,
        0 <= b1,
        0 <= b2,
        flat_index(a1, b1, n) == flat_index(a2, b2, n),
    ensures
        a1 == a2,
        b1 == b2,
{
    assert(b1 == b2) by (nonlinear_arith)
        requires
            0 <= a1 < n,
            0 <= a2 < n,
            0 <= b1,
            0 <= b2,
            b1 * n + a1 == b2 * n + a2,
    ;
    assert(b1 * n == b2 * n);
}

/// A flat index splits back into its column and row.
pub proof fn lemma_flat_index_split(i: int, n: int)
    requires
        0 <= i,
        0 < n,
    ensures
        0 <= i % n < n,
        0 <= i / n,
        flat_index(i % n, i / n, n) == i,
{
    assert(0 <= i % n < n && 0 <= i / n && (i / n) * n + i % n == i) by (nonlinear_arith)
        requires
            0 <= i,
            0 < n,
    ;
}

/// The column and row of a flat index made from a column and a row are that
/// column and row.
pub proof fn lemma_flat_index_parts(a: int, b: int, n: int)
    requires
        0 <= a < n,
        0 <= b,
    ensures
        flat_index(a, b, n) % n == a,
        flat_index(a, b, n) / n == b,
{
    let i = flat_index(a, b, n);
    assert(0 <= b * n) by (nonlinear_arith)
        requires
            0 <= b,
            0 < n,
    ;
    lemma_flat_index_split(i, n);
    lemma_flat_index_injective(a, b, i % n, i / n, n);
}

/// A coordinate below `count * size` lies in one of `count` chunks of `size`
/// cells, at an offset inside that chunk.
pub proof fn lemma_chunk_split(x: int, size: int, count: int)
    requires
        0 <= x < count * size,
        0 < size,
    ensures
        0 <= x / size < count,
        0 <= x % size < size,
        x == (x / size) * size + x % size,
        x - (x / size) * size == x % size,
{
    assert(0 <= x / size < count && 0 <= x % size < size && x == (x / size) * size + x % size)
        by (nonlinear_arith)
        requires
            0 <= x < count * size,
            0 < size,
    ;
}

/// Whether no value occurs twice in a sequence.
pub open spec fn distinct<T>(s: Seq<T>) -> bool {
    forall|i: int, j: int| 0 <= i < j < s.len() ==> s[i] != s[j]
}

} // verus!
