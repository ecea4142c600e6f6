//! The dense matrix type: a flat row-major buffer of `i64` entries together
//! with its dimensions, and the arithmetic defined on it.

use rand::Rng;
use vstd::prelude::*;

verus! {

/// The recoverable failures of matrix operations.
#[derive(Debug, Clone, Copy, PartialEq, Eq, Structural)]
pub enum MatrixError {
    /// An elementwise operation was invoked on matrices whose shapes disagree,
    /// or a matrix was constructed from a buffer whose length does not match
    /// the declared shape.
    DimensionMismatch,
    /// Multiplication was invoked although the inner dimensions disagree.
    IncompatibleDimensions,
    /// An access lay beyond the declared shape or buffer length.
    IndexOutOfBounds,
    /// A division by zero was requested.
    DivisionByZero,
    /// A file could not be opened or read.
    IoError,
    /// A file's content could not be understood as a matrix.
    ParseError,
}

/// A dense matrix: `rows * cols` entries stored row-major, so that the
/// element at row `r`, column `c` sits at flat index `r * cols + c`.
#[derive(Debug, Clone)]
pub struct Matrix {
    rows: usize,
    cols: usize,
    data: Vec<i64>,
}

impl Matrix {
    /// The number of rows.
    pub closed spec fn spec_rows(&self) -> nat {
        self.rows as nat
    }

    /// The number of columns.
    pub closed spec fn spec_cols(&self) -> nat {
        self.cols as nat
    }

    /// The flat row-major buffer.
    pub closed spec fn entries(&self) -> Seq<i64> {
        self.data@
    }

    /// The buffer holds exactly one entry per cell of the declared shape.
    pub open spec fn wf(&self) -> bool {
        self.entries().len() == self.spec_rows() * self.spec_cols()
    }

    /// The entry at row `r`, column `c`.
    pub open spec fn entry(&self, r: int, c: int) -> i64 {
        self.entries()[r * self.spec_cols() + c]
    }

    /// Whether both shapes agree, as elementwise operations require.
    pub fn same_dims(&self, other: &Matrix) -> (r: bool)
        ensures
            r == (self.spec_rows() == other.spec_rows() && self.spec_cols() == other.spec_cols()),
    {
        self.rows == other.rows && self.cols == other.cols
    }

    /// Constructs a matrix from explicit dimensions and a flat row-major
    /// buffer; the buffer must hold exactly `rows * cols` entries.
    pub fn new(rows: usize, cols: usize, data: Vec<i64>) -> (r: Result<Matrix, MatrixError>)
        ensures
            r is Ok <==> data@.len() == rows * cols,
            r matches Ok(m) ==> m.wf() && m.spec_rows() == rows && m.spec_cols() == cols
                && m.entries() == data@,
            r is Err ==> r == Err::<Matrix, MatrixError>(MatrixError::DimensionMismatch),
    {
        let len = data.len();
        match rows.checked_mul(cols) {
            Some(n) if n == len => Ok(Matrix { rows, cols, data }),
            _ => Err(MatrixError::DimensionMismatch),
        }
    }
}

/// The quotient rounded toward zero, as `/` computes it on `i64` values.
pub open spec fn trunc_div(a: int, b: int) -> int {
    if a >= 0 && b > 0 {
        a / b
    } else if a < 0 && b < 0 {
        (a * -1) / (b * -1)
    } else if a < 0 {
        ((a * -1) / b) * -1
    } else {
        (a / (b * -1)) * -1
    }
}

/// A row-major flat index stays below the buffer length.
pub proof fn lemma_index_in_range(r: int, c: int, rows: int, cols: int)
    requires
        0 <= r < rows,
        0 <= c < cols,
    ensures
        0 <= r * cols + c < rows * cols,
{
    assert(0 <= r * cols + c < rows * cols) by (nonlinear_arith)
        requires
            0 <= r < rows,
            0 <= c < cols,
    ;
}

/// Two cells share a row-major flat index only if they are the same cell.
pub proof fn lemma_index_injective(r1: int, c1: int, r2: int, c2: int, cols: int)
    requires
        0 <= r1,
        0 <= r2,
        0 <= c1 < cols,
        0 <= c2 < cols,
        r1 * cols + c1 == r2 * cols + c2,
    ensures
        r1 == r2,
        c1 == c2,
{
    assert(r1 == r2 && c1 == c2) by (nonlinear_arith)
        requires
            0 <= r1,
            0 <= r2,
            0 <= c1 < cols,
            0 <= c2 < cols,
            r1 * cols + c1 == r2 * cols + c2,
    ;
}

/// Every flat index below `rows * cols` splits into a unique row and column.
pub proof fn lemma_index_split(k: int, rows: int, cols: int)
    requires
        0 <= rows,
        0 <= cols,
        0 <= k < rows * cols,
    ensures
        0 < cols,
        0 <= k / cols < rows,
        0 <= k % cols < cols,
        k == (k / cols) * cols + k % cols,
{
    assert(0 < cols) by (nonlinear_arith)
        requires
            0 <= rows,
            0 <= cols,
            0 <= k < rows * cols,
    ;
    vstd::arithmetic::div_mod::lemma_fundamental_div_mod(k, cols);
    assert(0 <= k / cols && 0 <= k % cols < cols) by (nonlinear_arith)
        requires
            0 < cols,
            0 <= k,
    ;
    assert((k / cols) * cols == cols * (k / cols)) by (nonlinear_arith);
    assert(k / cols < rows) by (nonlinear_arith)
        requires
            0 < cols,
            0 <= k < rows * cols,
            k == cols * (k / cols) + k % cols,
            0 <= k % cols < cols,
    ;
}

/// A fresh buffer of `len` copies of `value`.
fn filled_vec(len: usize, value: i64) -> (r: Vec<i64>)
    ensures
        r@.len() == len,
        forall|i: int| 0 <= i < len ==> r@[i] == value,
{
    let mut data: Vec<i64> = Vec::new();
    let mut i: usize = 0;
    while i < len
        invariant
            i <= len,
            data@.len() == i,
            forall|j: int| 0 <= j < i ==> data@[j] == value,
        decreases len - i,
    {
        data.push(value);
        i = i + 1;
    }
    data
}

impl Matrix {
    /// The row-major flat index of row `row`, column `col`; no bounds check
    /// is made, so the caller keeps the index meaningful.
    pub fn idx(&self, row: usize, col: usize) -> (r: usize)
        requires
            self.spec_cols() * row + col <= usize::MAX,
        ensures
            r == self.spec_cols() * row + col,
    {
        self.cols * row + col
    }

    /// The entry at row `row`, column `col`, or `IndexOutOfBounds` when the
    /// position lies beyond the declared shape.
    pub fn at(&self, row: usize, col: usize) -> (r: Result<i64, MatrixError>)
        requires
            self.wf(),
        ensures
            r is Ok <==> (row < self.spec_rows() && col < self.spec_cols()),
            (row < self.spec_rows() && col < self.spec_cols()) ==> r == Ok::<i64, MatrixError>(
                self.entry(row as int, col as int),
            ),
            r is Err ==> r == Err::<i64, MatrixError>(MatrixError::IndexOutOfBounds),
    {
        if row < self.rows && col < self.cols {
            let _buf_len = self.data.len();
            proof {
                lemma_index_in_range(row as int, col as int, self.rows as int, self.cols as int);
                assert(self.cols * row == row * self.cols) by (nonlinear_arith);
            }
            let idx = self.cols * row + col;
            Ok(self.data[idx])
        } else {
            Err(MatrixError::IndexOutOfBounds)
        }
    }

    /// The entry at a flat row-major index, or `IndexOutOfBounds` when the
    /// index lies beyond the buffer.
    pub fn get(&self, idx: usize) -> (r: Result<i64, MatrixError>)
        requires
            self.wf(),
        ensures
            r is Ok <==> idx < self.spec_rows() * self.spec_cols(),
            idx < self.spec_rows() * self.spec_cols() ==> r == Ok::<i64, MatrixError>(
                self.entries()[idx as int],
            ),
            r is Err ==> r == Err::<i64, MatrixError>(MatrixError::IndexOutOfBounds),
    {
        if idx < self.data.len() {
            Ok(self.data[idx])
        } else {
            Err(MatrixError::IndexOutOfBounds)
        }
    }

    /// A `rows x cols` matrix of zeros.
    pub fn zeros(&self, rows: usize, cols: usize) -> (r: Matrix)
        requires
            rows * cols <= usize::MAX,
        ensures
            r.wf(),
            r.spec_rows() == rows,
            r.spec_cols() == cols,
            forall|i: int| 0 <= i < r.entries().len() ==> r.entries()[i] == 0,
    {
        self.ns(rows, cols, 0)
    }

    /// A `rows x cols` matrix of ones.
    pub fn ones(&self, rows: usize, cols: usize) -> (r: Matrix)
        requires
            rows * cols <= usize::MAX,
        ensures
            r.wf(),
            r.spec_rows() == rows,
            r.spec_cols() == cols,
            forall|i: int| 0 <= i < r.entries().len() ==> r.entries()[i] == 1,
    {
        self.ns(rows, cols, 1)
    }

    /// A `rows x cols` matrix whose every entry is `number`.
    pub fn ns(&self, rows: usize, cols: usize, number: i64) -> (r: Matrix)
        requires
            rows * cols <= usize::MAX,
        ensures
            r.wf(),
            r.spec_rows() == rows,
            r.spec_cols() == cols,
            forall|i: int| 0 <= i < r.entries().len() ==> r.entries()[i] == number,
    {
        let data = filled_vec(rows * cols, number);
        Matrix { rows, cols, data }
    }

    /// Replaces every entry with `number`, keeping the dimensions.
    pub fn fill(&mut self, number: i64)
        requires
            old(self).wf(),
        ensures
            final(self).wf(),
            final(self).spec_rows() == old(self).spec_rows(),
            final(self).spec_cols() == old(self).spec_cols(),
            forall|i: int| 0 <= i < final(self).entries().len() ==> final(self).entries()[i]
                == number,
    {
        let len = self.data.len();
        self.data = filled_vec(len, number);
    }

    /// A fresh `cols x rows` matrix holding this matrix's entries mirrored
    /// across the diagonal: entry `(c, r)` of the result is entry `(r, c)`
    /// of the source.
    pub fn transpose(&self) -> (r: Matrix)
        requires
            self.wf(),
        ensures
            r.wf(),
            r.spec_rows() == self.spec_cols(),
            r.spec_cols() == self.spec_rows(),
            forall|i: int, j: int|
                0 <= i < self.spec_rows() && 0 <= j < self.spec_cols() ==> r.entry(j, i)
                    == self.entry(i, j),
    {
        let rows = self.rows;
        let cols = self.cols;
        let mut data = filled_vec(self.data.len(), 0);
        let mut r: usize = 0;
        while r < rows
            invariant
                r <= rows,
                self.wf(),
                rows == self.spec_rows(),
                cols == self.spec_cols(),
                rows * cols <= usize::MAX,
                data@.len() == rows * cols,
                forall|i: int, j: int|
                    0 <= i < r && 0 <= j < cols ==> data@[j * rows + i] == self.entry(i, j),
            decreases rows - r,
        {
            let mut c: usize = 0;
            while c < cols
                invariant
                    r < rows,
                    c <= cols,
                    self.wf(),
                    rows == self.spec_rows(),
                    cols == self.spec_cols(),
                    rows * cols <= usize::MAX,
                    data@.len() == rows * cols,
                    forall|i: int, j: int|
                        0 <= i < r && 0 <= j < cols ==> data@[j * rows + i] == self.entry(i, j),
                    forall|j: int| 0 <= j < c ==> data@[j * rows + r] == self.entry(r as int, j),
                decreases cols - c,
            {
                proof {
                    lemma_index_in_range(c as int, r as int, cols as int, rows as int);
                    lemma_index_in_range(r as int, c as int, rows as int, cols as int);
                    assert(cols * rows == rows * cols) by (nonlinear_arith);
                }
                let idx_new = c * rows + r;
                let idx_old = self.cols * r + c;
                let v = self.data[idx_old];
                data.set(idx_new, v);
                proof {
                    assert forall|i: int, j: int|
                        0 <= i < r && 0 <= j < cols implies data@[j * rows + i] == self.entry(
                        i,
                        j,
                    ) by {
                        lemma_index_in_range(j, i, cols as int, rows as int);
                        if j * rows + i == c * rows + r {
                            lemma_index_injective(j, i, c as int, r as int, rows as int);
                        }
                    }
                    assert forall|j: int| 0 <= j < c + 1 implies data@[j * rows + r] == self.entry(
                        r as int,
                        j,
                    ) by {
                        lemma_index_in_range(j, r as int, cols as int, rows as int);
                        if j < c && j * rows + r == c * rows + r {
                            lemma_index_injective(j, r as int, c as int, r as int, rows as int);
                        }
                    }
                }
                c = c + 1;
            }
            r = r + 1;
        }
        proof {
            assert(cols * rows == rows * cols) by (nonlinear_arith);
        }
        let result = Matrix { rows: cols, cols: rows, data };
        proof {
            assert forall|i: int, j: int|
                0 <= i < self.spec_rows() && 0 <= j < self.spec_cols() implies result.entry(j, i)
                == self.entry(i, j) by {
                assert(result.entries()[j * rows + i] == self.entry(i, j));
            }
        }
        result
    }

    /// Whether both shapes agree, stated over the model.
    pub open spec fn dims_eq(&self, other: &Matrix) -> bool {
        self.spec_rows() == other.spec_rows() && self.spec_cols() == other.spec_cols()
    }

    /// The elementwise sum; the operands must share their shape.
    pub fn add(&self, other: &Matrix) -> (r: Result<Matrix, MatrixError>)
        requires
            self.wf(),
            other.wf(),
            self.dims_eq(other) ==> forall|i: int|
                0 <= i < self.entries().len() ==> i64::MIN <= #[trigger] self.entries()[i]
                    + other.entries()[i] <= i64::MAX,
        ensures
            r is Ok <==> self.dims_eq(other),
            r matches Ok(m) ==> m.wf() && m.spec_rows() == self.spec_rows() && m.spec_cols()
                == self.spec_cols() && m.entries().len() == self.entries().len() && forall|i: int|
                0 <= i < m.entries().len() ==> #[trigger] m.entries()[i] == self.entries()[i]
                    + other.entries()[i],
            r is Err ==> r == Err::<Matrix, MatrixError>(MatrixError::DimensionMismatch),
    {
        if !self.same_dims(other) {
            return Err(MatrixError::DimensionMismatch);
        }
        let n = self.data.len();
        let mut data: Vec<i64> = Vec::new();
        let mut i: usize = 0;
        while i < n
            invariant
                i <= n,
                n == self.entries().len(),
                n == other.entries().len(),
                forall|j: int|
                    0 <= j < n ==> i64::MIN <= #[trigger] self.entries()[j] + other.entries()[j]
                        <= i64::MAX,
                data@.len() == i,
                forall|j: int|
                    0 <= j < i ==> data@[j] == self.entries()[j] + other.entries()[j],
            decreases n - i,
        {
            let v = self.data[i] + other.data[i];
            data.push(v);
            i = i + 1;
        }
        Ok(Matrix { rows: self.rows, cols: self.cols, data })
    }

    /// The elementwise difference; the operands must share their shape.
    pub fn sub(&self, other: &Matrix) -> (r: Result<Matrix, MatrixError>)
        requires
            self.wf(),
            other.wf(),
            self.dims_eq(other) ==> forall|i: int|
                0 <= i < self.entries().len() ==> i64::MIN <= #[trigger] self.entries()[i]
                    - other.entries()[i] <= i64::MAX,
        ensures
            r is Ok <==> self.dims_eq(other),
            r matches Ok(m) ==> m.wf() && m.spec_rows() == self.spec_rows() && m.spec_cols()
                == self.spec_cols() && m.entries().len() == self.entries().len() && forall|i: int|
                0 <= i < m.entries().len() ==> #[trigger] m.entries()[i] == self.entries()[i]
                    - other.entries()[i],
            r is Err ==> r == Err::<Matrix, MatrixError>(MatrixError::DimensionMismatch),
    {
        if !self.same_dims(other) {
            return Err(MatrixError::DimensionMismatch);
        }
        let n = self.data.len();
        let mut data: Vec<i64> = Vec::new();
        let mut i: usize = 0;
        while i < n
            invariant
                i <= n,
                n == self.entries().len(),
                n == other.entries().len(),
                forall|j: int|
                    0 <= j < n ==> i64::MIN <= #[trigger] self.entries()[j] - other.entries()[j]
                        <= i64::MAX,
                data@.len() == i,
                forall|j: int|
                    0 <= j < i ==> data@[j] == self.entries()[j] - other.entries()[j],
            decreases n - i,
        {
            let v = self.data[i] - other.data[i];
            data.push(v);
            i = i + 1;
        }
        Ok(Matrix { rows: self.rows, cols: self.cols, data })
    }

    /// The elementwise quotient, rounded toward zero; the operands must share
    /// their shape, and a zero divisor entry is reported as `DivisionByZero`.
    pub fn div(&self, other: &Matrix) -> (r: Result<Matrix, MatrixError>)
        requires
            self.wf(),
            other.wf(),
            (self.dims_eq(other) && (forall|i: int|
                0 <= i < other.entries().len() ==> other.entries()[i] != 0)) ==> forall|i: int|
                0 <= i < self.entries().len() ==> !(#[trigger] self.entries()[i] == i64::MIN
                    && other.entries()[i] == -1),
        ensures
            r is Ok <==> (self.dims_eq(other) && forall|i: int|
                0 <= i < other.entries().len() ==> other.entries()[i] != 0),
            r matches Ok(m) ==> m.wf() && m.spec_rows() == self.spec_rows() && m.spec_cols()
                == self.spec_cols() && m.entries().len() == self.entries().len() && forall|i: int|
                0 <= i < m.entries().len() ==> m.entries()[i] == trunc_div(
                    self.entries()[i] as int,
                    other.entries()[i] as int,
                ),
            !self.dims_eq(other) ==> r == Err::<Matrix, MatrixError>(MatrixError::DimensionMismatch),
            (self.dims_eq(other) && exists|i: int|
                0 <= i < other.entries().len() && other.entries()[i] == 0) ==> r == Err::<
                Matrix,
                MatrixError,
            >(MatrixError::DivisionByZero),
    {
        if !self.same_dims(other) {
            return Err(MatrixError::DimensionMismatch);
        }
        let n = self.data.len();
        let mut i: usize = 0;
        while i < n
            invariant
                i <= n,
                self.dims_eq(other),
                n == other.entries().len(),
                forall|j: int| 0 <= j < i ==> other.entries()[j] != 0,
            decreases n - i,
        {
            if other.data[i] == 0 {
                return Err(MatrixError::DivisionByZero);
            }
            i = i + 1;
        }
        let mut data: Vec<i64> = Vec::new();
        let mut i: usize = 0;
        while i < n
            invariant
                i <= n,
                n == self.entries().len(),
                n == other.entries().len(),
                forall|j: int| 0 <= j < n ==> other.entries()[j] != 0,
                forall|j: int|
                    0 <= j < n ==> !(#[trigger] self.entries()[j] == i64::MIN && other.entries()[j] == -1),
                data@.len() == i,
                forall|j: int|
                    0 <= j < i ==> data@[j] == trunc_div(
                        self.entries()[j] as int,
                        other.entries()[j] as int,
                    ),
            decreases n - i,
        {
            let v = div_i64(self.data[i], other.data[i]);
            data.push(v);
            i = i + 1;
        }
        Ok(Matrix { rows: self.rows, cols: self.cols, data })
    }

    /// Short name for `transpose`.
    pub fn t(&self) -> (r: Matrix)
        requires
            self.wf(),
        ensures
            r.wf(),
            r.spec_rows() == self.spec_cols(),
            r.spec_cols() == self.spec_rows(),
            forall|i: int, j: int|
                0 <= i < self.spec_rows() && 0 <= j < self.spec_cols() ==> r.entry(j, i)
                    == self.entry(i, j),
    {
        self.transpose()
    }
}

/// `/` on two `i64` values, with the result stated as `trunc_div`.
fn div_i64(a: i64, b: i64) -> (q: i64)
    requires
        b != 0,
        !(a == i64::MIN && b == -1),
    ensures
        q == trunc_div(a as int, b as int),
{
    proof {
        let x = a as int;
        let d = b as int;
        if x == 0 {
            vstd::arithmetic::div_mod::lemma_div_of0(d);
            if d < 0 {
                vstd::arithmetic::div_mod::lemma_div_of0(d * -1);
            }
            assert(trunc_div(x, d) == 0);
        } else if x > 0 && d > 0 {
            vstd::arithmetic::div_mod::lemma_div_pos_is_pos(x, d);
            vstd::arithmetic::div_mod::lemma_div_nonincreasing(x, d);
            assert(0 <= trunc_div(x, d) <= x);
        } else if x < 0 && d < 0 {
            let p = x * -1;
            let n = d * -1;
            vstd::arithmetic::div_mod::lemma_div_pos_is_pos(p, n);
            vstd::arithmetic::div_mod::lemma_div_nonincreasing(p, n);
            if x == i64::MIN {
                vstd::arithmetic::div_mod::lemma_div_is_ordered_by_denominator(p, 2, n);
                assert(p / 2 <= i64::MAX) by (nonlinear_arith)
                    requires
                        p == 0x8000000000000000,
                ;
            }
            assert(0 <= trunc_div(x, d) <= i64::MAX);
        } else if x < 0 {
            let p = x * -1;
            vstd::arithmetic::div_mod::lemma_div_pos_is_pos(p, d);
            vstd::arithmetic::div_mod::lemma_div_nonincreasing(p, d);
            assert(i64::MIN <= trunc_div(x, d) <= 0);
        } else {
            let n = d * -1;
            vstd::arithmetic::div_mod::lemma_div_pos_is_pos(x, n);
            vstd::arithmetic::div_mod::lemma_div_nonincreasing(x, n);
            assert(i64::MIN <= trunc_div(x, d) <= 0);
        }
    }
    match a.checked_div(b) {
        Some(q) => q,
        None => vstd::pervasive::unreached(),
    }
}

/// The dot product of row `r` of `a` and column `c` of `b`, restricted to
/// the first `n` terms.
pub open spec fn dot_prefix(a: Matrix, b: Matrix, r: int, c: int, n: int) -> int
    decreases n,
{
    if n <= 0 {
        0
    } else {
        dot_prefix(a, b, r, c, n - 1) + a.entry(r, n - 1) * b.entry(n - 1, c)
    }
}

/// The value of cell `(r, c)` of the matrix product `a * b`.
pub open spec fn mult_value(a: Matrix, b: Matrix, r: int, c: int) -> int {
    dot_prefix(a, b, r, c, a.spec_cols() as int)
}

/// The machine limits under which the product `a * b` can be computed in
/// `i64` arithmetic: the result buffer fits in memory, every elementwise
/// product fits, and every partial dot product fits.
pub open spec fn mult_fits(a: Matrix, b: Matrix) -> bool {
    &&& a.spec_rows() * b.spec_cols() <= usize::MAX
    &&& forall|i: int, k: int, j: int|
        #![trigger a.entry(i, k), b.entry(k, j)]
        0 <= i < a.spec_rows() && 0 <= k < a.spec_cols() && 0 <= j < b.spec_cols()
            ==> i64::MIN <= a.entry(i, k) * b.entry(k, j) <= i64::MAX
    &&& forall|i: int, j: int, n: int|
        0 <= i < a.spec_rows() && 0 <= j < b.spec_cols() && 0 <= n <= a.spec_cols()
            ==> i64::MIN <= #[trigger] dot_prefix(a, b, i, j, n) <= i64::MAX
}

impl Matrix {
    /// The matrix product; the inner dimensions must agree, and each result
    /// cell is the dot product of a row of `self` and a column of `other`,
    /// accumulated from zero over `k` in increasing order.
    pub fn mult(&self, other: &Matrix) -> (r: Result<Matrix, MatrixError>)
        requires
            self.wf(),
            other.wf(),
            self.spec_cols() == other.spec_rows() ==> mult_fits(*self, *other),
        ensures
            r is Ok <==> self.spec_cols() == other.spec_rows(),
            r matches Ok(m) ==> m.wf() && m.spec_rows() == self.spec_rows() && m.spec_cols()
                == other.spec_cols() && forall|i: int, j: int|
                0 <= i < m.spec_rows() && 0 <= j < m.spec_cols() ==> m.entry(i, j) == mult_value(
                    *self,
                    *other,
                    i,
                    j,
                ),
            r is Err ==> r == Err::<Matrix, MatrixError>(MatrixError::IncompatibleDimensions),
    {
        if self.cols != other.rows {
            return Err(MatrixError::IncompatibleDimensions);
        }
        let rows = self.rows;
        let mid = self.cols;
        let cols = other.cols;
        let _n1 = self.data.len();
        let _n2 = other.data.len();
        let mut data = filled_vec(rows * cols, 0);
        let mut r: usize = 0;
        while r < rows
            invariant
                r <= rows,
                self.wf(),
                other.wf(),
                rows == self.spec_rows(),
                mid == self.spec_cols(),
                mid == other.spec_rows(),
                cols == other.spec_cols(),
                mult_fits(*self, *other),
                rows * mid <= usize::MAX,
                mid * cols <= usize::MAX,
                rows * cols <= usize::MAX,
                data@.len() == rows * cols,
                forall|i: int, j: int|
                    0 <= i < r && 0 <= j < cols ==> #[trigger] data@[i * cols + j] == mult_value(
                        *self,
                        *other,
                        i,
                        j,
                    ),
            decreases rows - r,
        {
            let mut c: usize = 0;
            while c < cols
                invariant
                    r < rows,
                    c <= cols,
                    self.wf(),
                    other.wf(),
                    rows == self.spec_rows(),
                    mid == self.spec_cols(),
                    mid == other.spec_rows(),
                    cols == other.spec_cols(),
                    mult_fits(*self, *other),
                    rows * mid <= usize::MAX,
                    mid * cols <= usize::MAX,
                    rows * cols <= usize::MAX,
                    data@.len() == rows * cols,
                    forall|i: int, j: int|
                        0 <= i < r && 0 <= j < cols ==> #[trigger] data@[i * cols + j]
                            == mult_value(*self, *other, i, j),
                    forall|j: int|
                        0 <= j < c ==> #[trigger] data@[r * cols + j] == mult_value(
                            *self,
                            *other,
                            r as int,
                            j,
                        ),
                decreases cols - c,
            {
                let mut acc: i64 = 0;
                let mut k: usize = 0;
                while k < mid
                    invariant
                        r < rows,
                        c < cols,
                        k <= mid,
                        self.wf(),
                        other.wf(),
                        rows == self.spec_rows(),
                        mid == self.spec_cols(),
                        mid == other.spec_rows(),
                        cols == other.spec_cols(),
                        mult_fits(*self, *other),
                        rows * mid <= usize::MAX,
                        mid * cols <= usize::MAX,
                        acc == dot_prefix(*self, *other, r as int, c as int, k as int),
                    decreases mid - k,
                {
                    proof {
                        lemma_index_in_range(r as int, k as int, rows as int, mid as int);
                        lemma_index_in_range(k as int, c as int, mid as int, cols as int);
                        assert(i64::MIN <= dot_prefix(
                            *self,
                            *other,
                            r as int,
                            c as int,
                            k + 1,
                        ) <= i64::MAX);
                    }
                    let av = self.data[r * mid + k];
                    let bv = other.data[k * cols + c];
                    let prod = av * bv;
                    acc = acc + prod;
                    k = k + 1;
                }
                proof {
                    lemma_index_in_range(r as int, c as int, rows as int, cols as int);
                }
                data.set(r * cols + c, acc);
                proof {
                    assert forall|i: int, j: int|
                        0 <= i < r && 0 <= j < cols implies #[trigger] data@[i * cols + j]
                        == mult_value(*self, *other, i, j) by {
                        lemma_index_in_range(i, j, rows as int, cols as int);
                        if i * cols + j == r * cols + c {
                            lemma_index_injective(i, j, r as int, c as int, cols as int);
                        }
                    }
                    assert forall|j: int|
                        0 <= j < c + 1 implies #[trigger] data@[r * cols + j] == mult_value(
                        *self,
                        *other,
                        r as int,
                        j,
                    ) by {
                        lemma_index_in_range(r as int, j, rows as int, cols as int);
                        if j < c && r * cols + j == r * cols + c {
                            lemma_index_injective(r as int, j, r as int, c as int, cols as int);
                        }
                    }
                }
                c = c + 1;
            }
            r = r + 1;
        }
        let result = Matrix { rows, cols, data };
        proof {
            assert forall|i: int, j: int|
                0 <= i < result.spec_rows() && 0 <= j < result.spec_cols() implies result.entry(
                i,
                j,
            ) == mult_value(*self, *other, i, j) by {
                assert(result.entries()[i * cols + j] == mult_value(*self, *other, i, j));
            }
        }
        Ok(result)
    }

    /// Adds `number` to every entry in place.
    pub fn add_by(&mut self, number: i64)
        requires
            old(self).wf(),
            forall|i: int|
                0 <= i < old(self).entries().len() ==> i64::MIN <= #[trigger] old(
                    self,
                ).entries()[i] + number <= i64::MAX,
        ensures
            final(self).wf(),
            final(self).spec_rows() == old(self).spec_rows(),
            final(self).spec_cols() == old(self).spec_cols(),
            final(self).entries().len() == old(self).entries().len(),
            forall|i: int|
                0 <= i < old(self).entries().len() ==> #[trigger] final(self).entries()[i] == old(
                    self,
                ).entries()[i] + number,
    {
        let ghost orig = *self;
        let n = self.data.len();
        let mut i: usize = 0;
        while i < n
            invariant
                i <= n,
                n == self.entries().len(),
                n == orig.entries().len(),
                self.spec_rows() == orig.spec_rows(),
                self.spec_cols() == orig.spec_cols(),
                forall|j: int|
                    0 <= j < n ==> i64::MIN <= #[trigger] orig.entries()[j] + number <= i64::MAX,
                forall|j: int|
                    0 <= j < i ==> #[trigger] self.entries()[j] == orig.entries()[j] + number,
                forall|j: int| i <= j < n ==> #[trigger] self.entries()[j] == orig.entries()[j],
            decreases n - i,
        {
            let v = self.data[i] + number;
            self.data.set(i, v);
            i = i + 1;
        }
    }

    /// Subtracts `number` from every entry in place.
    pub fn sub_by(&mut self, number: i64)
        requires
            old(self).wf(),
            forall|i: int|
                0 <= i < old(self).entries().len() ==> i64::MIN <= #[trigger] old(
                    self,
                ).entries()[i] - number <= i64::MAX,
        ensures
            final(self).wf(),
            final(self).spec_rows() == old(self).spec_rows(),
            final(self).spec_cols() == old(self).spec_cols(),
            final(self).entries().len() == old(self).entries().len(),
            forall|i: int|
                0 <= i < old(self).entries().len() ==> #[trigger] final(self).entries()[i] == old(
                    self,
                ).entries()[i] - number,
    {
        let ghost orig = *self;
        let n = self.data.len();
        let mut i: usize = 0;
        while i < n
            invariant
                i <= n,
                n == self.entries().len(),
                n == orig.entries().len(),
                self.spec_rows() == orig.spec_rows(),
                self.spec_cols() == orig.spec_cols(),
                forall|j: int|
                    0 <= j < n ==> i64::MIN <= #[trigger] orig.entries()[j] - number <= i64::MAX,
                forall|j: int|
                    0 <= j < i ==> #[trigger] self.entries()[j] == orig.entries()[j] - number,
                forall|j: int| i <= j < n ==> #[trigger] self.entries()[j] == orig.entries()[j],
            decreases n - i,
        {
            let v = self.data[i] - number;
            self.data.set(i, v);
            i = i + 1;
        }
    }

    /// Multiplies every entry by `number` in place.
    pub fn mult_by(&mut self, number: i64)
        requires
            old(self).wf(),
            forall|i: int|
                0 <= i < old(self).entries().len() ==> i64::MIN <= #[trigger] old(
                    self,
                ).entries()[i] * number <= i64::MAX,
        ensures
            final(self).wf(),
            final(self).spec_rows() == old(self).spec_rows(),
            final(self).spec_cols() == old(self).spec_cols(),
            final(self).entries().len() == old(self).entries().len(),
            forall|i: int|
                0 <= i < old(self).entries().len() ==> #[trigger] final(self).entries()[i] == old(
                    self,
                ).entries()[i] * number,
    {
        let ghost orig = *self;
        let n = self.data.len();
        let mut i: usize = 0;
        while i < n
            invariant
                i <= n,
                n == self.entries().len(),
                n == orig.entries().len(),
                self.spec_rows() == orig.spec_rows(),
                self.spec_cols() == orig.spec_cols(),
                forall|j: int|
                    0 <= j < n ==> i64::MIN <= #[trigger] orig.entries()[j] * number <= i64::MAX,
                forall|j: int|
                    0 <= j < i ==> #[trigger] self.entries()[j] == orig.entries()[j] * number,
                forall|j: int| i <= j < n ==> #[trigger] self.entries()[j] == orig.entries()[j],
            decreases n - i,
        {
            let v = self.data[i] * number;
            self.data.set(i, v);
            i = i + 1;
        }
    }

    /// Divides every entry by `number` in place, rounding toward zero; a
    /// zero `number` is refused with `DivisionByZero` and the matrix is
    /// left unchanged.
    pub fn div_by(&mut self, number: i64) -> (r: Result<(), MatrixError>)
        requires
            old(self).wf(),
            number == -1 ==> forall|i: int|
                0 <= i < old(self).entries().len() ==> #[trigger] old(self).entries()[i]
                    != i64::MIN,
        ensures
            r is Ok <==> number != 0,
            r is Err ==> r == Err::<(), MatrixError>(MatrixError::DivisionByZero),
            final(self).wf(),
            final(self).spec_rows() == old(self).spec_rows(),
            final(self).spec_cols() == old(self).spec_cols(),
            final(self).entries().len() == old(self).entries().len(),
            number == 0 ==> final(self).entries() == old(self).entries(),
            number != 0 ==> forall|i: int|
                0 <= i < old(self).entries().len() ==> #[trigger] final(self).entries()[i]
                    == trunc_div(old(self).entries()[i] as int, number as int),
    {
        if number == 0 {
            return Err(MatrixError::DivisionByZero);
        }
        let ghost orig = *self;
        let n = self.data.len();
        let mut i: usize = 0;
        while i < n
            invariant
                i <= n,
                number != 0,
                n == self.entries().len(),
                n == orig.entries().len(),
                self.spec_rows() == orig.spec_rows(),
                self.spec_cols() == orig.spec_cols(),
                number == -1 ==> forall|j: int|
                    0 <= j < n ==> #[trigger] orig.entries()[j] != i64::MIN,
                forall|j: int|
                    0 <= j < i ==> #[trigger] self.entries()[j] == trunc_div(
                        orig.entries()[j] as int,
                        number as int,
                    ),
                forall|j: int| i <= j < n ==> #[trigger] self.entries()[j] == orig.entries()[j],
            decreases n - i,
        {
            let v = div_i64(self.data[i], number);
            self.data.set(i, v);
            i = i + 1;
        }
        Ok(())
    }
}

/// The lower sampling bound: the given minimum, or zero.
pub open spec fn lower_default(min: Option<i64>) -> int {
    match min {
        Some(v) => v as int,
        None => 0,
    }
}

/// The upper sampling bound: the given maximum, or one thousand.
pub open spec fn upper_default(max: Option<i64>) -> int {
    match max {
        Some(v) => v as int,
        None => 1000,
    }
}

/// Relies on `rand::Rng::gen_range` over the thread-local generator: the
/// sample lies within the given inclusive range, which must be nonempty.
#[verifier::external_body]
fn rand_in_range(lo: i64, hi: i64) -> (r: i64)
    requires
        lo <= hi,
    ensures
        lo <= r <= hi,
{
    rand::thread_rng().gen_range(lo..=hi)
}

impl Matrix {
    /// A `rows x cols` matrix of samples drawn between the given bounds,
    /// inclusive; the bounds default to 0 and 1000.
    pub fn rand(rows: usize, cols: usize, min: Option<i64>, max: Option<i64>) -> (r: Matrix)
        requires
            rows * cols <= usize::MAX,
            lower_default(min) <= upper_default(max),
        ensures
            r.wf(),
            r.spec_rows() == rows,
            r.spec_cols() == cols,
            forall|i: int|
                0 <= i < r.entries().len() ==> lower_default(min) <= #[trigger] r.entries()[i]
                    <= upper_default(max),
    {
        let lo = match min {
            Some(v) => v,
            None => 0,
        };
        let hi = match max {
            Some(v) => v,
            None => 1000,
        };
        let n = rows * cols;
        let mut data: Vec<i64> = Vec::new();
        let mut i: usize = 0;
        while i < n
            invariant
                i <= n,
                lo <= hi,
                lo == lower_default(min),
                hi == upper_default(max),
                data@.len() == i,
                forall|j: int| 0 <= j < i ==> lo <= #[trigger] data@[j] <= hi,
            decreases n - i,
        {
            let v = rand_in_range(lo, hi);
            data.push(v);
            i = i + 1;
        }
        Matrix { rows, cols, data }
    }
}

} // verus!
