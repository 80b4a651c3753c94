//! Dense row-major matrices of scalars.
use crate::dimensions::{lemma_cell_of_index, lemma_index_in_bounds, lemma_row_in_bounds, Dimensions};
use crate::algebra::dot_spec;
use crate::error::{column, column_shape, ShapeError};
use crate::scalar::Scalar;
use crate::vector::{dot, elements_equal, Vector};
use vstd::prelude::*;

verus! {

/// A dense matrix: its elements in row-major order, with its shape.
#[derive(Debug, Clone)]
pub struct Matrix<S> {
    elements: Vec<S>,
    dimensions: Dimensions,
}

impl<S> View for Matrix<S> {
    type V = Seq<S>;

    /// The elements in row-major order.
    closed spec fn view(&self) -> Seq<S> {
        self.elements@
    }
}

impl<S> Matrix<S> {
    /// The shape of the matrix.
    pub closed spec fn dims(&self) -> Dimensions {
        self.dimensions
    }

    /// The storage holds exactly one element for each cell of the shape.
    pub open spec fn wf(&self) -> bool {
        self@.len() == self.dims().count()
    }

    /// The element in row `r` and column `c`.
    pub open spec fn at(&self, r: int, c: int) -> S {
        self@[self.dims().index_of(r, c)]
    }

    /// Row `r`, as a sequence of `cols` elements.
    pub open spec fn row_seq(&self, r: int) -> Seq<S> {
        Seq::new(self.dims().cols as nat, |c: int| self.at(r, c))
    }

    /// Column `c`, as a sequence of `rows` elements.
    pub open spec fn col_seq(&self, c: int) -> Seq<S> {
        Seq::new(self.dims().rows as nat, |r: int| self.at(r, c))
    }

    /// Two matrices are equal: the same shape and the same elements.
    pub open spec fn same(&self, other: &Matrix<S>) -> bool {
        self.dims() == other.dims() && self@ == other@
    }

    /// The shape of the matrix.
    pub fn dim(&self) -> (d: Dimensions)
        ensures
            d == self.dims(),
    {
        self.dimensions
    }

    /// The shape of the matrix.
    pub fn size(&self) -> (d: Dimensions)
        ensures
            d == self.dims(),
    {
        self.dimensions
    }

    /// The number of rows.
    pub fn rows_len(&self) -> (n: usize)
        ensures
            n == self.dims().rows,
    {
        self.dimensions.rows
    }

    /// The number of columns.
    pub fn cols_len(&self) -> (n: usize)
        ensures
            n == self.dims().cols,
    {
        self.dimensions.cols
    }

    /// Builds a matrix of shape `dims` whose cell `(r, c)` is `f(r, c)`,
    /// filled in row-major order.
    pub(crate) fn tabulate<F: Fn(usize, usize) -> S>(dims: Dimensions, f: F) -> (m: Matrix<S>)
        requires
            forall|r: usize, c: usize| r < dims.rows && c < dims.cols ==> f.requires((r, c)),
        ensures
            m.wf(),
            m.dims() == dims,
            forall|r: int, c: int|
                0 <= r < dims.rows && 0 <= c < dims.cols ==> f.ensures(
                    (r as usize, c as usize),
                    #[trigger] m.at(r, c),
                ),
    {
        let mut elements: Vec<S> = Vec::new();
        let mut r: usize = 0;
        while r < dims.rows
            invariant
                r <= dims.rows,
                forall|r: usize, c: usize| r < dims.rows && c < dims.cols ==> f.requires((r, c)),
                elements@.len() == r * dims.cols,
                forall|p: int, q: int|
                    0 <= p < r && 0 <= q < dims.cols ==> f.ensures(
                        (p as usize, q as usize),
                        #[trigger] elements@[dims.index_of(p, q)],
                    ),
            decreases dims.rows - r,
        {
            let mut c: usize = 0;
            while c < dims.cols
                invariant
                    r < dims.rows,
                    c <= dims.cols,
                    forall|r: usize, c: usize|
                        r < dims.rows && c < dims.cols ==> f.requires((r, c)),
                    elements@.len() == r * dims.cols + c,
                    forall|p: int, q: int|
                        0 <= p < r && 0 <= q < dims.cols ==> f.ensures(
                            (p as usize, q as usize),
                            #[trigger] elements@[dims.index_of(p, q)],
                        ),
                    forall|q: int|
                        0 <= q < c ==> f.ensures(
                            (r, q as usize),
                            #[trigger] elements@[dims.index_of(r as int, q)],
                        ),
                decreases dims.cols - c,
            {
                let x = f(r, c);
                let ghost before = elements@;
                elements.push(x);
                proof {
                    let shape = Dimensions { rows: r, cols: dims.cols };
                    assert forall|p: int, q: int|
                        0 <= p < r && 0 <= q < dims.cols implies f.ensures(
                        (p as usize, q as usize),
                        #[trigger] elements@[dims.index_of(p, q)],
                    ) by {
                        lemma_index_in_bounds(shape, p, q);
                        assert(before[dims.index_of(p, q)] == elements@[dims.index_of(p, q)]);
                    }
                    assert(elements@[dims.index_of(r as int, c as int)] == x);
                }
                c += 1;
            }
            proof {
                assert((r + 1) * dims.cols == r * dims.cols + dims.cols) by (nonlinear_arith);
            }
            r += 1;
        }
        Matrix { elements, dimensions: dims }
    }
}

/// Every row has the length of the first.
pub open spec fn rows_agree<S>(rows: Seq<Vec<S>>) -> bool {
    forall|i: int| 0 <= i < rows.len() ==> #[trigger] rows[i]@.len() == rows[0]@.len()
}

/// The element in row `r` and column `c` of a list of rows.
pub open spec fn cell_of<S>(rows: Seq<Vec<S>>, r: int, c: int) -> S {
    rows[r]@[c]
}

/// The element in row `r` and column `c` of a list of rows.
fn read_cell<S: Copy>(rows: &Vec<Vec<S>>, r: usize, c: usize) -> (x: S)
    requires
        r < rows@.len(),
        c < rows@[r as int]@.len(),
    ensures
        x == cell_of(rows@, r as int, c as int),
{
    rows[r][c]
}

/// The shape of a matrix built from `rows`: one row each, as long as the first.
pub open spec fn shape_of_rows<S>(rows: Seq<Vec<S>>) -> Dimensions {
    Dimensions {
        rows: rows.len() as usize,
        cols: if rows.len() == 0 {
            0
        } else {
            rows[0]@.len() as usize
        },
    }
}

impl<S: Copy> Matrix<S> {
    /// A matrix built from a list of rows of equal length; `ShapeConstruction`
    /// naming the first row whose length differs from the first row's.
    pub fn new(rows: Vec<Vec<S>>) -> (r: Result<Matrix<S>, ShapeError>)
        ensures
            match r {
                Ok(m) => {
                    &&& rows_agree(rows@)
                    &&& m.wf()
                    &&& m.dims() == shape_of_rows(rows@)
                    &&& forall|i: int, j: int|
                        0 <= i < m.dims().rows && 0 <= j < m.dims().cols ==> m.at(i, j)
                            == cell_of(rows@, i, j)
                },
                Err(e) => exists|k: int|
                    {
                        &&& 0 < k < rows@.len()
                        &&& #[trigger] rows@[k]@.len() != rows@[0]@.len()
                        &&& forall|i: int| 0 <= i < k ==> #[trigger] rows@[i]@.len() == rows@[0]@.len()
                        &&& e == ShapeError::ShapeConstruction {
                            dimensions: shape_of_rows(rows@),
                            found: rows@[k]@.len() as usize,
                        }
                    },
            },
    {
        let n = rows.len();
        let cols = if n == 0 {
            0
        } else {
            rows[0].len()
        };
        let mut k: usize = 0;
        while k < n
            invariant
                n == rows@.len(),
                k <= n,
                n > 0 ==> cols == rows@[0]@.len(),
                forall|i: int| 0 <= i < k ==> #[trigger] rows@[i]@.len() == cols,
            decreases n - k,
        {
            if rows[k].len() != cols {
                return Err(
                    ShapeError::ShapeConstruction {
                        dimensions: Dimensions { rows: n, cols },
                        found: rows[k].len(),
                    },
                );
            }
            k += 1;
        }
        let dims = Dimensions { rows: n, cols };
        let m = Self::tabulate(dims, |r: usize, c: usize| -> (x: S)
            requires
                r < n,
                c < cols,
                n == rows@.len(),
                rows_agree(rows@),
            ensures
                x == cell_of(rows@, r as int, c as int),
            { read_cell(&rows, r, c) });
        Ok(m)
    }

    /// A matrix of shape `dimensions` holding `elements` in row-major order;
    /// `ShapeConstruction` where their number is not `rows * cols`.
    pub fn from_row_major(dimensions: Dimensions, elements: Vec<S>) -> (r: Result<
        Matrix<S>,
        ShapeError,
    >)
        ensures
            match r {
                Ok(m) => elements@.len() == dimensions.count() && m.wf() && m.dims()
                    == dimensions && m@ == elements@,
                Err(e) => elements@.len() != dimensions.count() && e
                    == ShapeError::ShapeConstruction { dimensions, found: elements@.len() as usize },
            },
    {
        let len = elements.len();
        match dimensions.rows.checked_mul(dimensions.cols) {
            Some(count) => {
                if count == len {
                    return Ok(Matrix { elements, dimensions });
                }
            },
            None => {},
        }
        Err(ShapeError::ShapeConstruction { dimensions, found: len })
    }

    /// A matrix of shape `dimensions` with every element `value`.
    pub fn filled(value: S, dimensions: Dimensions) -> (m: Matrix<S>)
        ensures
            m.wf(),
            m.dims() == dimensions,
            forall|r: int, c: int|
                0 <= r < dimensions.rows && 0 <= c < dimensions.cols ==> m.at(r, c) == value,
    {
        Self::tabulate(dimensions, |r: usize, c: usize| -> (x: S)
            ensures
                x == value,
            { value })
    }

    /// Row `row`, as a slice of `cols` elements; `IndexOutOfRange` past the last row.
    pub fn row(&self, row: usize) -> (r: Result<&[S], ShapeError>)
        requires
            self.wf(),
        ensures
            match r {
                Ok(s) => row < self.dims().rows && s@ == self.row_seq(row as int),
                Err(e) => row >= self.dims().rows && e == ShapeError::IndexOutOfRange {
                    index: row,
                    bound: self.dims().rows,
                },
            },
    {
        if row >= self.dimensions.rows {
            return Err(ShapeError::IndexOutOfRange { index: row, bound: self.dimensions.rows });
        }
        Ok(self.row_slice(row))
    }

    /// The element in row `row` and column `col` of a well-formed matrix.
    fn cell(&self, row: usize, col: usize) -> (x: S)
        requires
            self.wf(),
            row < self.dims().rows,
            col < self.dims().cols,
        ensures
            x == self.at(row as int, col as int),
    {
        // the storage's length, a usize, bounds the number of cells
        let _total = self.elements.len();
        proof {
            lemma_index_in_bounds(self.dimensions, row as int, col as int);
        }
        self.elements[self.dimensions.row_major(row, col)]
    }

    /// Row `row`, as a mutable slice of `cols` elements; `IndexOutOfRange`
    /// past the last row. Writes through the slice change that row only.
    pub fn row_mut(&mut self, row: usize) -> (r: Result<&mut [S], ShapeError>)
        requires
            old(self).wf(),
        ensures
            final(self).dims() == old(self).dims(),
            match r {
                Ok(s) => {
                    &&& row < old(self).dims().rows
                    &&& s@ == old(self).row_seq(row as int)
                    &&& final(self)@ == old(self)@.subrange(0, row * old(self).dims().cols)
                        + final(s)@ + old(self)@.subrange(
                        (row + 1) * old(self).dims().cols,
                        old(self)@.len() as int,
                    )
                },
                Err(e) => {
                    &&& row >= old(self).dims().rows
                    &&& final(self)@ == old(self)@
                    &&& e == ShapeError::IndexOutOfRange { index: row, bound: old(self).dims().rows }
                },
            },
    {
        if row >= self.dimensions.rows {
            return Err(ShapeError::IndexOutOfRange { index: row, bound: self.dimensions.rows });
        }
        let d = self.dimensions;
        // the storage's length, a usize, bounds the number of cells
        let _total = self.elements.len();
        proof {
            lemma_row_in_bounds(d, row as int);
            assert((row + 1) * d.cols == row * d.cols + d.cols) by (nonlinear_arith);
        }
        let start = row * d.cols;
        let all = self.elements.as_mut_slice();
        let (_, rest) = all.split_at_mut(start);
        let (s, _) = rest.split_at_mut(d.cols);
        Ok(s)
    }

    /// Row `row` of a well-formed matrix, as a slice.
    fn row_slice(&self, row: usize) -> (s: &[S])
        requires
            self.wf(),
            row < self.dims().rows,
        ensures
            s@ == self.row_seq(row as int),
    {
        let d = self.dimensions;
        // the storage's length, a usize, bounds the number of cells
        let _total = self.elements.len();
        proof {
            lemma_row_in_bounds(d, row as int);
        }
        let start = row * d.cols;
        let s = vstd::slice::slice_subrange(self.elements.as_slice(), start, start + d.cols);
        assert(s@ =~= self.row_seq(row as int));
        s
    }

    /// The element in row `row` and column `col`; `IndexOutOfRange` naming the
    /// first coordinate that is out of its range.
    pub fn get(&self, row: usize, col: usize) -> (r: Result<S, ShapeError>)
        requires
            self.wf(),
        ensures
            match r {
                Ok(x) => row < self.dims().rows && col < self.dims().cols && x == self.at(
                    row as int,
                    col as int,
                ),
                Err(e) => if row >= self.dims().rows {
                    e == ShapeError::IndexOutOfRange { index: row, bound: self.dims().rows }
                } else {
                    col >= self.dims().cols && e == ShapeError::IndexOutOfRange {
                        index: col,
                        bound: self.dims().cols,
                    }
                },
            },
    {
        if row >= self.dimensions.rows {
            return Err(ShapeError::IndexOutOfRange { index: row, bound: self.dimensions.rows });
        }
        if col >= self.dimensions.cols {
            return Err(ShapeError::IndexOutOfRange { index: col, bound: self.dimensions.cols });
        }
        // the storage's length, a usize, bounds the number of cells
        let _total = self.elements.len();
        proof {
            lemma_index_in_bounds(self.dimensions, row as int, col as int);
        }
        Ok(self.elements[self.dimensions.row_major(row, col)])
    }

    /// Writes `value` in row `row` and column `col`; `IndexOutOfRange` naming
    /// the first coordinate that is out of its range, with the matrix unchanged.
    pub fn set(&mut self, row: usize, col: usize, value: S) -> (r: Result<(), ShapeError>)
        requires
            old(self).wf(),
        ensures
            final(self).wf(),
            final(self).dims() == old(self).dims(),
            match r {
                Ok(_) => row < old(self).dims().rows && col < old(self).dims().cols && final(self)@
                    == old(self)@.update(old(self).dims().index_of(row as int, col as int), value),
                Err(e) => final(self)@ == old(self)@ && if row >= old(self).dims().rows {
                    e == ShapeError::IndexOutOfRange { index: row, bound: old(self).dims().rows }
                } else {
                    col >= old(self).dims().cols && e == ShapeError::IndexOutOfRange {
                        index: col,
                        bound: old(self).dims().cols,
                    }
                },
            },
    {
        if row >= self.dimensions.rows {
            return Err(ShapeError::IndexOutOfRange { index: row, bound: self.dimensions.rows });
        }
        if col >= self.dimensions.cols {
            return Err(ShapeError::IndexOutOfRange { index: col, bound: self.dimensions.cols });
        }
        // the storage's length, a usize, bounds the number of cells
        let _total = self.elements.len();
        proof {
            lemma_index_in_bounds(self.dimensions, row as int, col as int);
        }
        let i = self.dimensions.row_major(row, col);
        self.elements.set(i, value);
        Ok(())
    }

    /// The transpose: a matrix of the swapped shape with `out[c][r] == self[r][c]`.
    pub fn transpose(&self) -> (m: Matrix<S>)
        requires
            self.wf(),
        ensures
            is_transpose(*self, m),
    {
        let d = self.dimensions;
        Self::tabulate(d.transpose(), |r: usize, c: usize| -> (x: S)
            requires
                r < d.cols,
                c < d.rows,
            ensures
                x == self.at(c as int, r as int),
            { self.cell(c, r) })
    }
}

impl<S: Scalar> Matrix<S> {
    /// A matrix of shape `dimensions` filled with zeros.
    pub fn zeros(dimensions: Dimensions) -> (m: Matrix<S>)
        ensures
            m.wf(),
            m.dims() == dimensions,
            forall|r: int, c: int|
                0 <= r < dimensions.rows && 0 <= c < dimensions.cols ==> m.at(r, c)
                    == S::zero_spec(),
    {
        Self::filled(S::zero(), dimensions)
    }

    /// A matrix of shape `dimensions` filled with ones.
    pub fn ones(dimensions: Dimensions) -> (m: Matrix<S>)
        ensures
            m.wf(),
            m.dims() == dimensions,
            forall|r: int, c: int|
                0 <= r < dimensions.rows && 0 <= c < dimensions.cols ==> m.at(r, c)
                    == S::one_spec(),
    {
        Self::filled(S::one(), dimensions)
    }

    /// A square matrix of side `size` with `value` on the diagonal and zeros elsewhere.
    pub fn diagonal(value: S, size: usize) -> (m: Matrix<S>)
        ensures
            is_diagonal(m, value, size),
    {
        let zero = S::zero();
        Self::tabulate(Dimensions::square(size), |r: usize, c: usize| -> (x: S)
            ensures
                x == diagonal_cell(value, r as int, c as int),
            {
                if r == c {
                    value
                } else {
                    zero
                }
            })
    }

    /// The identity matrix of side `size`.
    pub fn identity(size: usize) -> (m: Matrix<S>)
        ensures
            is_diagonal(m, S::one_spec(), size),
    {
        Self::diagonal(S::one(), size)
    }

    /// The matrix product; `DimensionMismatch` unless `self` has as many
    /// columns as `rhs` has rows.
    ///
    /// `rhs` is transposed first so that every cell is the dot product of two
    /// contiguous rows.
    pub fn mul(&self, rhs: &Matrix<S>) -> (r: Result<Matrix<S>, ShapeError>)
        requires
            self.wf(),
            rhs.wf(),
        ensures
            match r {
                Ok(m) => self.dims().cols == rhs.dims().rows && is_product(*self, *rhs, m),
                Err(e) => self.dims().cols != rhs.dims().rows && e
                    == ShapeError::DimensionMismatch { lhs: self.dims(), rhs: rhs.dims() },
            },
    {
        if self.dimensions.cols != rhs.dimensions.rows {
            return Err(
                ShapeError::DimensionMismatch { lhs: self.dimensions, rhs: rhs.dimensions },
            );
        }
        let rhs_t = rhs.transpose();
        let out = Dimensions { rows: self.dimensions.rows, cols: rhs.dimensions.cols };
        let m = Self::tabulate(out, |i: usize, j: usize| -> (x: S)
            requires
                i < self.dims().rows,
                j < rhs.dims().cols,
                self.wf(),
                rhs_t.wf(),
                self.dims().cols == rhs.dims().rows,
                rhs_t.dims() == rhs.dims().transpose_spec(),
                forall|p: int, q: int|
                    0 <= p < rhs_t.dims().rows && 0 <= q < rhs_t.dims().cols ==> rhs_t.at(p, q)
                        == rhs.at(q, p),
            ensures
                x == product_cell(*self, *rhs, i as int, j as int),
            {
                let a = self.row_slice(i);
                let b = rhs_t.row_slice(j);
                assert(b@ =~= rhs.col_seq(j as int));
                match dot(a, b) {
                    Ok(x) => x,
                    Err(_) => S::zero(),
                }
            });
        Ok(m)
    }

    /// The product with a column vector; `DimensionMismatch` unless the
    /// vector's length is the number of columns.
    pub fn mul_vector(&self, rhs: &Vector<S>) -> (r: Result<Vector<S>, ShapeError>)
        requires
            self.wf(),
        ensures
            match r {
                Ok(v) => self.dims().cols == rhs@.len() && is_vector_product(*self, rhs@, v@),
                Err(e) => self.dims().cols != rhs@.len() && e == ShapeError::DimensionMismatch {
                    lhs: self.dims(),
                    rhs: column_shape(rhs@.len()),
                },
            },
    {
        if self.dimensions.cols != rhs.len() {
            return Err(
                ShapeError::DimensionMismatch { lhs: self.dimensions, rhs: column(rhs.len()) },
            );
        }
        let n = self.dimensions.rows;
        let mut out: Vec<S> = Vec::with_capacity(n);
        let mut i: usize = 0;
        while i < n
            invariant
                n == self.dims().rows,
                self.wf(),
                self.dims().cols == rhs@.len(),
                i <= n,
                out@.len() == i,
                forall|k: int| 0 <= k < i ==> out@[k] == dot_spec(self.row_seq(k), rhs@),
            decreases n - i,
        {
            let x = match dot(self.row_slice(i), rhs.as_slice()) {
                Ok(x) => x,
                Err(_) => S::zero(),
            };
            out.push(x);
            i += 1;
        }
        Ok(Vector::new(out))
    }

    /// The elementwise sum with a matrix of the same shape; `DimensionMismatch`
    /// where the shapes differ.
    pub fn add(&self, rhs: &Matrix<S>) -> (r: Result<Matrix<S>, ShapeError>)
        requires
            self.wf(),
            rhs.wf(),
        ensures
            match r {
                Ok(m) => self.dims() == rhs.dims() && is_sum(*self, *rhs, m),
                Err(e) => self.dims() != rhs.dims() && e == ShapeError::DimensionMismatch {
                    lhs: self.dims(),
                    rhs: rhs.dims(),
                },
            },
    {
        let mut out = self.clone_matrix();
        match out.add_assign(rhs) {
            Ok(()) => Ok(out),
            Err(e) => Err(e),
        }
    }

    /// Replaces every element by its sum with the element of `rhs` in the same
    /// place; `DimensionMismatch`, with `self` unchanged, where the shapes differ.
    pub fn add_assign(&mut self, rhs: &Matrix<S>) -> (r: Result<(), ShapeError>)
        requires
            old(self).wf(),
            rhs.wf(),
        ensures
            final(self).wf(),
            final(self).dims() == old(self).dims(),
            match r {
                Ok(_) => {
                    &&& old(self).dims() == rhs.dims()
                    &&& forall|i: int, j: int|
                        0 <= i < rhs.dims().rows && 0 <= j < rhs.dims().cols ==> final(self).at(i, j)
                            == S::plus(old(self).at(i, j), rhs.at(i, j))
                },
                Err(e) => {
                    &&& old(self).dims() != rhs.dims()
                    &&& final(self)@ == old(self)@
                    &&& e == ShapeError::DimensionMismatch { lhs: old(self).dims(), rhs: rhs.dims() }
                },
            },
    {
        if self.dimensions != rhs.dimensions {
            return Err(
                ShapeError::DimensionMismatch { lhs: self.dimensions, rhs: rhs.dimensions },
            );
        }
        let ghost before = self@;
        let n = self.elements.len();
        let mut k: usize = 0;
        while k < n
            invariant
                n == before.len(),
                n == rhs@.len(),
                self.dimensions == rhs.dims(),
                self@.len() == n,
                k <= n,
                forall|p: int| 0 <= p < k ==> self@[p] == S::plus(before[p], rhs@[p]),
                forall|p: int| k <= p < n ==> self@[p] == before[p],
            decreases n - k,
        {
            let x = self.elements[k].add(rhs.elements[k]);
            self.elements.set(k, x);
            k += 1;
        }
        proof {
            assert forall|i: int, j: int|
                0 <= i < rhs.dims().rows && 0 <= j < rhs.dims().cols implies self.at(i, j)
                == S::plus(before[rhs.dims().index_of(i, j)], rhs.at(i, j)) by {
                lemma_index_in_bounds(rhs.dims(), i, j);
            }
        }
        Ok(())
    }

    /// The elementwise difference with a matrix of the same shape; `DimensionMismatch`
    /// where the shapes differ.
    pub fn sub(&self, rhs: &Matrix<S>) -> (r: Result<Matrix<S>, ShapeError>)
        requires
            self.wf(),
            rhs.wf(),
        ensures
            match r {
                Ok(m) => {
                    &&& self.dims() == rhs.dims()
                    &&& m.wf()
                    &&& m.dims() == self.dims()
                    &&& forall|i: int, j: int|
                        0 <= i < m.dims().rows && 0 <= j < m.dims().cols ==> m.at(i, j)
                            == S::minus(self.at(i, j), rhs.at(i, j))
                },
                Err(e) => self.dims() != rhs.dims() && e == ShapeError::DimensionMismatch {
                    lhs: self.dims(),
                    rhs: rhs.dims(),
                },
            },
    {
        let mut out = self.clone_matrix();
        match out.sub_assign(rhs) {
            Ok(()) => Ok(out),
            Err(e) => Err(e),
        }
    }

    /// Replaces every element by its difference with the element of `rhs` in the same
    /// place; `DimensionMismatch`, with `self` unchanged, where the shapes differ.
    pub fn sub_assign(&mut self, rhs: &Matrix<S>) -> (r: Result<(), ShapeError>)
        requires
            old(self).wf(),
            rhs.wf(),
        ensures
            final(self).wf(),
            final(self).dims() == old(self).dims(),
            match r {
                Ok(_) => {
                    &&& old(self).dims() == rhs.dims()
                    &&& forall|i: int, j: int|
                        0 <= i < rhs.dims().rows && 0 <= j < rhs.dims().cols ==> final(self).at(i, j)
                            == S::minus(old(self).at(i, j), rhs.at(i, j))
                },
                Err(e) => {
                    &&& old(self).dims() != rhs.dims()
                    &&& final(self)@ == old(self)@
                    &&& e == ShapeError::DimensionMismatch { lhs: old(self).dims(), rhs: rhs.dims() }
                },
            },
    {
        if self.dimensions != rhs.dimensions {
            return Err(
                ShapeError::DimensionMismatch { lhs: self.dimensions, rhs: rhs.dimensions },
            );
        }
        let ghost before = self@;
        let n = self.elements.len();
        let mut k: usize = 0;
        while k < n
            invariant
                n == before.len(),
                n == rhs@.len(),
                self.dimensions == rhs.dims(),
                self@.len() == n,
                k <= n,
                forall|p: int| 0 <= p < k ==> self@[p] == S::minus(before[p], rhs@[p]),
                forall|p: int| k <= p < n ==> self@[p] == before[p],
            decreases n - k,
        {
            let x = self.elements[k].sub(rhs.elements[k]);
            self.elements.set(k, x);
            k += 1;
        }
        proof {
            assert forall|i: int, j: int|
                0 <= i < rhs.dims().rows && 0 <= j < rhs.dims().cols implies self.at(i, j)
                == S::minus(before[rhs.dims().index_of(i, j)], rhs.at(i, j)) by {
                lemma_index_in_bounds(rhs.dims(), i, j);
            }
        }
        Ok(())
    }

    /// Every element combined with `rhs` by addition.
    pub fn add_scalar(&self, rhs: S) -> (m: Matrix<S>)
        requires
            self.wf(),
        ensures
            m.wf(),
            m.dims() == self.dims(),
            forall|i: int, j: int|
                0 <= i < m.dims().rows && 0 <= j < m.dims().cols ==> m.at(i, j) == S::plus(
                    self.at(i, j),
                    rhs,
                ),
    {
        let mut out = self.clone_matrix();
        let ghost before = self@;
        let n = out.elements.len();
        
        let mut k: usize = 0;
        while k < n
            invariant
                n == before.len(),
                out.dimensions == self.dims(),
                out@.len() == n,
                k <= n,
                forall|p: int| 0 <= p < k ==> out@[p] == S::plus(before[p], rhs),
                forall|p: int| k <= p < n ==> out@[p] == before[p],
            decreases n - k,
        {
            let x = out.elements[k].add(rhs);
            out.elements.set(k, x);
            k += 1;
        }
        proof {
            assert forall|i: int, j: int|
                0 <= i < self.dims().rows && 0 <= j < self.dims().cols implies out.at(i, j)
                == S::plus(self.at(i, j), rhs) by {
                lemma_index_in_bounds(self.dims(), i, j);
            }
        }
        out
    }

    /// Every element combined with `rhs` by subtraction.
    pub fn sub_scalar(&self, rhs: S) -> (m: Matrix<S>)
        requires
            self.wf(),
        ensures
            m.wf(),
            m.dims() == self.dims(),
            forall|i: int, j: int|
                0 <= i < m.dims().rows && 0 <= j < m.dims().cols ==> m.at(i, j) == S::minus(
                    self.at(i, j),
                    rhs,
                ),
    {
        let mut out = self.clone_matrix();
        let ghost before = self@;
        let n = out.elements.len();
        
        let mut k: usize = 0;
        while k < n
            invariant
                n == before.len(),
                out.dimensions == self.dims(),
                out@.len() == n,
                k <= n,
                forall|p: int| 0 <= p < k ==> out@[p] == S::minus(before[p], rhs),
                forall|p: int| k <= p < n ==> out@[p] == before[p],
            decreases n - k,
        {
            let x = out.elements[k].sub(rhs);
            out.elements.set(k, x);
            k += 1;
        }
        proof {
            assert forall|i: int, j: int|
                0 <= i < self.dims().rows && 0 <= j < self.dims().cols implies out.at(i, j)
                == S::minus(self.at(i, j), rhs) by {
                lemma_index_in_bounds(self.dims(), i, j);
            }
        }
        out
    }

    /// Every element combined with `rhs` by multiplication.
    pub fn mul_scalar(&self, rhs: S) -> (m: Matrix<S>)
        requires
            self.wf(),
        ensures
            m.wf(),
            m.dims() == self.dims(),
            forall|i: int, j: int|
                0 <= i < m.dims().rows && 0 <= j < m.dims().cols ==> m.at(i, j) == S::times(
                    self.at(i, j),
                    rhs,
                ),
    {
        let mut out = self.clone_matrix();
        let ghost before = self@;
        let n = out.elements.len();
        
        let mut k: usize = 0;
        while k < n
            invariant
                n == before.len(),
                out.dimensions == self.dims(),
                out@.len() == n,
                k <= n,
                forall|p: int| 0 <= p < k ==> out@[p] == S::times(before[p], rhs),
                forall|p: int| k <= p < n ==> out@[p] == before[p],
            decreases n - k,
        {
            let x = out.elements[k].mul(rhs);
            out.elements.set(k, x);
            k += 1;
        }
        proof {
            assert forall|i: int, j: int|
                0 <= i < self.dims().rows && 0 <= j < self.dims().cols implies out.at(i, j)
                == S::times(self.at(i, j), rhs) by {
                lemma_index_in_bounds(self.dims(), i, j);
            }
        }
        out
    }

    /// Every element combined with `rhs` by division.
    pub fn div_scalar(&self, rhs: S) -> (m: Matrix<S>)
        requires
            self.wf(),
            forall|i: int, j: int|
                0 <= i < self.dims().rows && 0 <= j < self.dims().cols ==> S::can_divide(
                    #[trigger] self.at(i, j),
                    rhs,
                ),
        ensures
            m.wf(),
            m.dims() == self.dims(),
            forall|i: int, j: int|
                0 <= i < m.dims().rows && 0 <= j < m.dims().cols ==> m.at(i, j) == S::quotient(
                    self.at(i, j),
                    rhs,
                ),
    {
        let mut out = self.clone_matrix();
        let ghost before = self@;
        let n = out.elements.len();
        proof {
            assert forall|p: int| 0 <= p < n implies S::can_divide(#[trigger] before[p], rhs) by {
                let d = self.dims();
                let i = p / (d.cols as int);
                let j = p % (d.cols as int);
                lemma_cell_of_index(d, p);
                assert(self.at(i, j) == before[p]);
            }
        }
        let mut k: usize = 0;
        while k < n
            invariant
                n == before.len(),
                out.dimensions == self.dims(),
                out@.len() == n,
                forall|p: int| 0 <= p < n ==> S::can_divide(#[trigger] before[p], rhs),
                k <= n,
                forall|p: int| 0 <= p < k ==> out@[p] == S::quotient(before[p], rhs),
                forall|p: int| k <= p < n ==> out@[p] == before[p],
            decreases n - k,
        {
            proof {
                assert(S::can_divide(before[k as int], rhs));
            }
            let x = out.elements[k].div(rhs);
            out.elements.set(k, x);
            k += 1;
        }
        proof {
            assert forall|i: int, j: int|
                0 <= i < self.dims().rows && 0 <= j < self.dims().cols implies out.at(i, j)
                == S::quotient(self.at(i, j), rhs) by {
                lemma_index_in_bounds(self.dims(), i, j);
            }
        }
        out
    }

    /// A copy of the matrix.
    fn clone_matrix(&self) -> (m: Matrix<S>)
        requires
            self.wf(),
        ensures
            m.wf(),
            m.dims() == self.dims(),
            m@ == self@,
    {
        let n = self.elements.len();
        let mut elements: Vec<S> = Vec::with_capacity(n);
        let mut k: usize = 0;
        while k < n
            invariant
                n == self@.len(),
                k <= n,
                elements@ == self@.subrange(0, k as int),
            decreases n - k,
        {
            elements.push(self.elements[k]);
            k += 1;
            assert(elements@ =~= self@.subrange(0, k as int));
        }
        assert(elements@ =~= self@);
        Matrix { elements, dimensions: self.dimensions }
    }
}

/// The cell `(r, c)` of a square matrix with `value` on its diagonal and zeros elsewhere.
pub open spec fn diagonal_cell<S: Scalar>(value: S, r: int, c: int) -> S {
    if r == c {
        value
    } else {
        S::zero_spec()
    }
}

/// `m` is the square matrix of side `size` with `value` on its diagonal and zeros elsewhere.
pub open spec fn is_diagonal<S: Scalar>(m: Matrix<S>, value: S, size: usize) -> bool {
    &&& m.wf()
    &&& m.dims() == Dimensions::square_spec(size)
    &&& forall|r: int, c: int|
        0 <= r < size && 0 <= c < size ==> m.at(r, c) == diagonal_cell(value, r, c)
}

/// `m` is the transpose of `a`: the swapped shape, with `m[r][c] == a[c][r]`.
pub open spec fn is_transpose<S>(a: Matrix<S>, m: Matrix<S>) -> bool {
    &&& m.wf()
    &&& m.dims() == a.dims().transpose_spec()
    &&& forall|r: int, c: int|
        0 <= r < m.dims().rows && 0 <= c < m.dims().cols ==> m.at(r, c) == a.at(c, r)
}

/// `m` is the product of `a` and `b`, where `a` has as many columns as `b` has rows.
pub open spec fn is_product<S: Scalar>(a: Matrix<S>, b: Matrix<S>, m: Matrix<S>) -> bool {
    &&& m.wf()
    &&& m.dims() == (Dimensions { rows: a.dims().rows, cols: b.dims().cols })
    &&& forall|i: int, j: int|
        0 <= i < m.dims().rows && 0 <= j < m.dims().cols ==> m.at(i, j) == product_cell(a, b, i, j)
}

/// `v` is the product of `a` and the column vector `x`.
pub open spec fn is_vector_product<S: Scalar>(a: Matrix<S>, x: Seq<S>, v: Seq<S>) -> bool {
    &&& v.len() == a.dims().rows
    &&& forall|i: int| 0 <= i < a.dims().rows ==> v[i] == dot_spec(a.row_seq(i), x)
}

/// `m` is the elementwise sum of `a` and `b`, two matrices of one shape.
pub open spec fn is_sum<S: Scalar>(a: Matrix<S>, b: Matrix<S>, m: Matrix<S>) -> bool {
    &&& m.wf()
    &&& m.dims() == a.dims()
    &&& forall|i: int, j: int|
        0 <= i < m.dims().rows && 0 <= j < m.dims().cols ==> m.at(i, j) == S::plus(a.at(i, j), b.at(i, j))
}

/// The cell `(i, j)` of the product of `a` and `b`: row `i` of `a` dotted with column `j` of `b`.
pub open spec fn product_cell<S: Scalar>(a: Matrix<S>, b: Matrix<S>, i: int, j: int) -> S {
    dot_spec(a.row_seq(i), b.col_seq(j))
}

/// Two matrices are equal when they have the same shape and the same
/// elements in row-major order.
impl<S: Scalar> PartialEq for Matrix<S> {
    fn eq(&self, other: &Self) -> (r: bool) {
        if self.dimensions != other.dimensions || self.elements.len() != other.elements.len() {
            return false;
        }
        elements_equal(self.elements.as_slice(), other.elements.as_slice())
    }
}

impl<S: Scalar> vstd::std_specs::cmp::PartialEqSpecImpl for Matrix<S> {
    open spec fn obeys_eq_spec() -> bool {
        true
    }

    open spec fn eq_spec(&self, other: &Self) -> bool {
        self.same(other)
    }
}

} // verus!
