//! Algebraic laws of the matrix operations, stated over the same spec
//! functions that the operations' contracts use.

use crate::matrix::{dot_prefix, lemma_index_split, mult_value, Matrix};
use vstd::prelude::*;

verus! {

/// Adding a matrix and then subtracting it gives back the original: if `s`
/// holds the elementwise sums of `a` and `b`, and `d` the elementwise
/// differences of `s` and `b`, then `d` has `a`'s shape and entries.
pub proof fn lemma_add_sub_cancel(a: Matrix, b: Matrix, s: Matrix, d: Matrix)
    requires
        a.wf(),
        b.wf(),
        s.wf(),
        d.wf(),
        a.dims_eq(&b),
        s.spec_rows() == a.spec_rows(),
        s.spec_cols() == a.spec_cols(),
        s.entries().len() == a.entries().len(),
        forall|i: int|
            0 <= i < s.entries().len() ==> #[trigger] s.entries()[i] == a.entries()[i]
                + b.entries()[i],
        d.spec_rows() == s.spec_rows(),
        d.spec_cols() == s.spec_cols(),
        d.entries().len() == s.entries().len(),
        forall|i: int|
            0 <= i < d.entries().len() ==> #[trigger] d.entries()[i] == s.entries()[i]
                - b.entries()[i],
    ensures
        d.spec_rows() == a.spec_rows(),
        d.spec_cols() == a.spec_cols(),
        d.entries() == a.entries(),
{
    assert forall|i: int| 0 <= i < d.entries().len() implies d.entries()[i] == a.entries()[i] by {
        assert(s.entries()[i] == a.entries()[i] + b.entries()[i]);
    }
    assert(d.entries() =~= a.entries());
}

/// Transposing twice gives back a matrix with the original shape and
/// entries: if `t1` is the transpose of `m` and `t2` the transpose of `t1`,
/// then `t2` equals `m`.
pub proof fn lemma_transpose_involution(m: Matrix, t1: Matrix, t2: Matrix)
    requires
        m.wf(),
        t1.wf(),
        t2.wf(),
        t1.spec_rows() == m.spec_cols(),
        t1.spec_cols() == m.spec_rows(),
        forall|i: int, j: int|
            0 <= i < m.spec_rows() && 0 <= j < m.spec_cols() ==> #[trigger] t1.entry(j, i)
                == m.entry(i, j),
        t2.spec_rows() == t1.spec_cols(),
        t2.spec_cols() == t1.spec_rows(),
        forall|i: int, j: int|
            0 <= i < t1.spec_rows() && 0 <= j < t1.spec_cols() ==> #[trigger] t2.entry(j, i)
                == t1.entry(i, j),
    ensures
        t2.spec_rows() == m.spec_rows(),
        t2.spec_cols() == m.spec_cols(),
        t2.entries() == m.entries(),
{
    let rows = m.spec_rows() as int;
    let cols = m.spec_cols() as int;
    assert forall|k: int| 0 <= k < m.entries().len() implies t2.entries()[k] == m.entries()[k] by {
        lemma_index_split(k, rows, cols);
        let i = k / cols;
        let j = k % cols;
        assert(t2.entry(i, j) == t1.entry(j, i));
        assert(t1.entry(j, i) == m.entry(i, j));
        assert(i * cols + j == k);
    }
    assert(t2.entries() =~= m.entries());
}

/// One dot product against the identity matrix: the prefix of length `n` of
/// row `r` against column `c` of the identity is `a`'s entry `(r, c)` once
/// the prefix has passed column `c`, and zero before.
proof fn lemma_dot_prefix_identity(a: Matrix, id: Matrix, r: int, c: int, n: int)
    requires
        a.wf(),
        id.wf(),
        id.spec_rows() == a.spec_cols(),
        id.spec_cols() == a.spec_cols(),
        forall|i: int, j: int|
            0 <= i < id.spec_rows() && 0 <= j < id.spec_cols() ==> #[trigger] id.entry(i, j) == (
            if i == j {
                1i64
            } else {
                0i64
            }),
        0 <= r < a.spec_rows(),
        0 <= c < a.spec_cols(),
        0 <= n <= a.spec_cols(),
    ensures
        dot_prefix(a, id, r, c, n) == (if c < n {
            a.entry(r, c) as int
        } else {
            0
        }),
    decreases n,
{
    if n > 0 {
        lemma_dot_prefix_identity(a, id, r, c, n - 1);
        if n - 1 == c {
            assert(id.entry(n - 1, c) == 1i64);
        } else {
            assert(id.entry(n - 1, c) == 0i64);
        }
    }
}

/// Multiplying by the identity on the right leaves a matrix unchanged: for
/// an identity matrix `id` whose order is `a`'s column count, every cell of
/// the product `a * id` equals the matching cell of `a`.
pub proof fn lemma_mult_identity(a: Matrix, id: Matrix)
    requires
        a.wf(),
        id.wf(),
        id.spec_rows() == a.spec_cols(),
        id.spec_cols() == a.spec_cols(),
        forall|i: int, j: int|
            0 <= i < id.spec_rows() && 0 <= j < id.spec_cols() ==> #[trigger] id.entry(i, j) == (
            if i == j {
                1i64
            } else {
                0i64
            }),
    ensures
        forall|r: int, c: int|
            0 <= r < a.spec_rows() && 0 <= c < a.spec_cols() ==> #[trigger] mult_value(a, id, r, c)
                == a.entry(r, c),
{
    assert forall|r: int, c: int|
        0 <= r < a.spec_rows() && 0 <= c < a.spec_cols() implies #[trigger] mult_value(a, id, r, c)
        == a.entry(r, c) by {
        lemma_dot_prefix_identity(a, id, r, c, a.spec_cols() as int);
    }
}

} // verus!
