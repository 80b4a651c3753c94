//! The shape of a matrix and its row-major index mapping.
use vstd::prelude::*;

verus! {

/// The shape of a matrix: a number of rows and a number of columns.
#[derive(Debug, Clone, Copy, PartialEq, Eq, Structural, Hash)]
pub struct Dimensions {
    pub rows: usize,
    pub cols: usize,
}

impl Dimensions {
    /// The number of elements of a matrix of this shape, as a mathematical integer.
    pub open spec fn count(self) -> int {
        self.rows * self.cols
    }

    /// The position of `(row, col)` in row-major storage.
    pub open spec fn index_of(self, row: int, col: int) -> int {
        row * self.cols + col
    }

    /// The shape with rows and columns swapped.
    pub open spec fn transpose_spec(self) -> Dimensions {
        Dimensions { rows: self.cols, cols: self.rows }
    }

    /// A square shape with `size` rows and `size` columns.
    pub open spec fn square_spec(size: usize) -> Dimensions {
        Dimensions { rows: size, cols: size }
    }

    /// A square shape with `size` rows and `size` columns.
    pub fn square(size: usize) -> (d: Dimensions)
        ensures
            d == Dimensions::square_spec(size),
    {
        Dimensions { rows: size, cols: size }
    }

    /// The number of elements of a matrix of this shape.
    pub fn elements(&self) -> (n: usize)
        requires
            self.count() <= usize::MAX,
        ensures
            n == self.count(),
    {
        self.rows * self.cols
    }

    /// The shape with rows and columns swapped.
    pub fn transpose(&self) -> (d: Dimensions)
        ensures
            d == self.transpose_spec(),
    {
        Dimensions { rows: self.cols, cols: self.rows }
    }

    /// Converts a coordinate to an index into row-major storage.
    pub fn row_major(&self, row: usize, col: usize) -> (i: usize)
        requires
            row < self.rows,
            col < self.cols,
            self.count() <= usize::MAX,
        ensures
            i == self.index_of(row as int, col as int),
            i < self.count(),
    {
        proof {
            lemma_index_in_bounds(*self, row as int, col as int);
        }
        row * self.cols + col
    }
}

/// A coordinate inside a shape maps to a position inside its storage.
pub proof fn lemma_index_in_bounds(d: Dimensions, row: int, col: int)
    requires
        0 <= row < d.rows,
        0 <= col < d.cols,
    ensures
        0 <= d.index_of(row, col) < d.count(),
        d.index_of(row, col) + (d.cols - col) <= d.count(),
{
    lemma_row_in_bounds(d, row);
}

/// Every position of a shape's storage is the position of one of its cells.
pub proof fn lemma_cell_of_index(d: Dimensions, p: int)
    requires
        0 <= p < d.count(),
    ensures
        d.cols > 0,
        0 <= p / (d.cols as int) < d.rows,
        0 <= p % (d.cols as int) < d.cols,
        d.index_of(p / (d.cols as int), p % (d.cols as int)) == p,
{
    let c = d.cols as int;
    if c == 0 {
        assert(d.rows * c == 0) by (nonlinear_arith)
            requires
                c == 0,
        ;
    }
    vstd::arithmetic::div_mod::lemma_fundamental_div_mod(p, c);
    vstd::arithmetic::div_mod::lemma_mod_bound(p, c);
    vstd::arithmetic::div_mod::lemma_div_pos_is_pos(p, c);
    vstd::arithmetic::div_mod::lemma_div_by_multiple_is_strongly_ordered(
        p,
        d.rows * c,
        d.rows as int,
        c,
    );
    vstd::arithmetic::div_mod::lemma_div_by_multiple(d.rows as int, c);
    assert(c * (p / c) == (p / c) * c) by (nonlinear_arith);
}

/// A row inside a shape starts and ends inside its storage.
pub proof fn lemma_row_in_bounds(d: Dimensions, row: int)
    requires
        0 <= row < d.rows,
    ensures
        0 <= row * d.cols,
        row * d.cols + d.cols <= d.count(),
{
    assert(0 <= row * d.cols) by (nonlinear_arith)
        requires
            0 <= row,
            0 <= d.cols,
    ;
    assert(row * d.cols + d.cols <= d.rows * d.cols) by (nonlinear_arith)
        requires
            row < d.rows,
            0 <= d.cols,
    ;
}

impl From<(usize, usize)> for Dimensions {
    fn from(shape: (usize, usize)) -> (d: Dimensions) {
        Dimensions { rows: shape.0, cols: shape.1 }
    }
}

impl vstd::std_specs::convert::FromSpecImpl<(usize, usize)> for Dimensions {
    open spec fn obeys_from_spec() -> bool {
        true
    }

    open spec fn from_spec(shape: (usize, usize)) -> Dimensions {
        Dimensions { rows: shape.0, cols: shape.1 }
    }
}

impl From<[usize; 2]> for Dimensions {
    fn from(shape: [usize; 2]) -> (d: Dimensions) {
        Dimensions { rows: shape[0], cols: shape[1] }
    }
}

impl vstd::std_specs::convert::FromSpecImpl<[usize; 2]> for Dimensions {
    open spec fn obeys_from_spec() -> bool {
        true
    }

    open spec fn from_spec(shape: [usize; 2]) -> Dimensions {
        Dimensions { rows: shape@[0], cols: shape@[1] }
    }
}

} // verus!
