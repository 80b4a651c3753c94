//! Algebraic laws of the operation engine, stated over the relations that
//! the operations' contracts establish.
use crate::algebra::{
    dot_spec, lemma_dot_prefix_commutative, lemma_dot_prefix_is_sum, lemma_sum_additive, lemma_sum_congruent, lemma_sum_single,
    lemma_sum_swap, lemma_sum_times_left, lemma_sum_times_right, sum_of,
};
use crate::dimensions::lemma_cell_of_index;
use crate::matrix::{is_diagonal, is_product, is_sum, is_transpose, product_cell, Matrix};
use crate::scalar::Scalar;
use vstd::prelude::*;

verus! {

/// Two well-formed matrices of one shape that agree in every cell are the same matrix.
pub proof fn lemma_same_from_cells<S>(a: Matrix<S>, b: Matrix<S>)
    requires
        a.wf(),
        b.wf(),
        a.dims() == b.dims(),
        forall|r: int, c: int|
            0 <= r < a.dims().rows && 0 <= c < a.dims().cols ==> #[trigger] a.at(r, c) == b.at(r, c),
    ensures
        a.same(&b),
{
    let d = a.dims();
    assert forall|p: int| 0 <= p < a@.len() implies a@[p] == b@[p] by {
        lemma_cell_of_index(d, p);
        assert(a.at(p / (d.cols as int), p % (d.cols as int)) == b.at(
            p / (d.cols as int),
            p % (d.cols as int),
        ));
    }
    assert(a@ =~= b@);
}

/// A cell of a product is the sum over the shared dimension of the products
/// of the cells it combines.
pub proof fn lemma_product_cell_sum<S: Scalar>(a: Matrix<S>, b: Matrix<S>, i: int, j: int)
    requires
        a.dims().cols == b.dims().rows,
    ensures
        product_cell(a, b, i, j) == sum_of(
            |l: int| S::times(a.at(i, l), b.at(l, j)),
            a.dims().cols as int,
        ),
{
    let row = a.row_seq(i);
    let col = b.col_seq(j);
    let n = a.dims().cols as int;
    lemma_dot_prefix_is_sum(row, col, n);
    lemma_sum_congruent(
        |l: int| S::times(row[l], col[l]),
        |l: int| S::times(a.at(i, l), b.at(l, j)),
        n,
    );
}

/// Transposing twice gives back the matrix: `transpose(transpose(m)) == m`.
pub proof fn lemma_transpose_involution<S>(m: Matrix<S>, t: Matrix<S>, tt: Matrix<S>)
    requires
        m.wf(),
        is_transpose(m, t),
        is_transpose(t, tt),
    ensures
        tt.same(&m),
{
    assert forall|r: int, c: int|
        0 <= r < tt.dims().rows && 0 <= c < tt.dims().cols implies #[trigger] tt.at(r, c)
        == m.at(r, c) by {
        assert(tt.at(r, c) == t.at(c, r));
    }
    lemma_same_from_cells(tt, m);
}

/// The identity is a left unit of the product: `identity(n) x m == m` where
/// `m` has `n` rows.
pub proof fn lemma_identity_left<S: Scalar>(m: Matrix<S>, id: Matrix<S>, p: Matrix<S>)
    requires
        m.wf(),
        is_diagonal(id, S::one_spec(), m.dims().rows),
        is_product(id, m, p),
    ensures
        p.same(&m),
{
    let n = m.dims().rows as int;
    assert forall|i: int, j: int|
        0 <= i < p.dims().rows && 0 <= j < p.dims().cols implies #[trigger] p.at(i, j) == m.at(
        i,
        j,
    ) by {
        lemma_product_cell_sum(id, m, i, j);
        let f = |l: int| S::times(id.at(i, l), m.at(l, j));
        assert forall|l: int| 0 <= l < n && l != i implies #[trigger] f(l) == S::zero_spec() by {
            S::lemma_times_commutative(S::zero_spec(), m.at(l, j));
            S::lemma_times_zero(m.at(l, j));
        }
        lemma_sum_single(f, i, n);
        S::lemma_times_commutative(S::one_spec(), m.at(i, j));
        S::lemma_times_one(m.at(i, j));
    }
    lemma_same_from_cells(p, m);
}

/// The identity is a right unit of the product: `m x identity(n) == m` where
/// `m` has `n` columns.
pub proof fn lemma_identity_right<S: Scalar>(m: Matrix<S>, id: Matrix<S>, p: Matrix<S>)
    requires
        m.wf(),
        is_diagonal(id, S::one_spec(), m.dims().cols),
        is_product(m, id, p),
    ensures
        p.same(&m),
{
    let n = m.dims().cols as int;
    assert forall|i: int, j: int|
        0 <= i < p.dims().rows && 0 <= j < p.dims().cols implies #[trigger] p.at(i, j) == m.at(
        i,
        j,
    ) by {
        lemma_product_cell_sum(m, id, i, j);
        let f = |l: int| S::times(m.at(i, l), id.at(l, j));
        assert forall|l: int| 0 <= l < n && l != j implies #[trigger] f(l) == S::zero_spec() by {
            S::lemma_times_zero(m.at(i, l));
        }
        lemma_sum_single(f, j, n);
        S::lemma_times_one(m.at(i, j));
    }
    lemma_same_from_cells(p, m);
}

/// The dot product is commutative: `dot(a, b) == dot(b, a)`.
pub proof fn lemma_dot_commutes<S: Scalar>(a: Seq<S>, b: Seq<S>)
    requires
        a.len() == b.len(),
    ensures
        dot_spec(a, b) == dot_spec(b, a),
{
    lemma_dot_prefix_commutative(a, b, a.len() as int);
}

/// The product is associative: `(a x b) x c == a x (b x c)`.
pub proof fn lemma_mul_associative<S: Scalar>(
    a: Matrix<S>,
    b: Matrix<S>,
    c: Matrix<S>,
    ab: Matrix<S>,
    bc: Matrix<S>,
    ab_c: Matrix<S>,
    a_bc: Matrix<S>,
)
    requires
        a.wf(),
        b.wf(),
        c.wf(),
        a.dims().cols == b.dims().rows,
        b.dims().cols == c.dims().rows,
        is_product(a, b, ab),
        is_product(ab, c, ab_c),
        is_product(b, c, bc),
        is_product(a, bc, a_bc),
    ensures
        ab_c.same(&a_bc),
{
    let n1 = a.dims().cols as int;
    let n2 = b.dims().cols as int;
    assert forall|i: int, j: int|
        0 <= i < ab_c.dims().rows && 0 <= j < ab_c.dims().cols implies #[trigger] ab_c.at(i, j)
        == a_bc.at(i, j) by {
        let g = |l: int, k: int| S::times(S::times(a.at(i, l), b.at(l, k)), c.at(k, j));
        lemma_product_cell_sum(ab, c, i, j);
        assert forall|k: int| 0 <= k < n2 implies #[trigger] S::times(ab.at(i, k), c.at(k, j))
            == sum_of(|l: int| g(l, k), n1) by {
            lemma_product_cell_sum(a, b, i, k);
            let f = |l: int| S::times(a.at(i, l), b.at(l, k));
            lemma_sum_times_right(f, c.at(k, j), n1);
            lemma_sum_congruent(|l: int| S::times(f(l), c.at(k, j)), |l: int| g(l, k), n1);
        }
        lemma_sum_congruent(
            |k: int| S::times(ab.at(i, k), c.at(k, j)),
            |k: int| sum_of(|l: int| g(l, k), n1),
            n2,
        );
        lemma_sum_swap(g, n1, n2);
        lemma_product_cell_sum(a, bc, i, j);
        assert forall|l: int| 0 <= l < n1 implies #[trigger] S::times(a.at(i, l), bc.at(l, j))
            == sum_of(|k: int| g(l, k), n2) by {
            lemma_product_cell_sum(b, c, l, j);
            let f = |k: int| S::times(b.at(l, k), c.at(k, j));
            lemma_sum_times_left(a.at(i, l), f, n2);
            assert forall|k: int| 0 <= k < n2 implies #[trigger] S::times(a.at(i, l), f(k)) == g(
                l,
                k,
            ) by {
                S::lemma_times_associative(a.at(i, l), b.at(l, k), c.at(k, j));
            }
            lemma_sum_congruent(|k: int| S::times(a.at(i, l), f(k)), |k: int| g(l, k), n2);
        }
        lemma_sum_congruent(
            |l: int| S::times(a.at(i, l), bc.at(l, j)),
            |l: int| sum_of(|k: int| g(l, k), n2),
            n1,
        );
    }
    lemma_same_from_cells(ab_c, a_bc);
}

/// The product distributes over the sum: `a x (b + c) == a x b + a x c`.
pub proof fn lemma_mul_distributes<S: Scalar>(
    a: Matrix<S>,
    b: Matrix<S>,
    c: Matrix<S>,
    bc: Matrix<S>,
    p: Matrix<S>,
    ab: Matrix<S>,
    ac: Matrix<S>,
    s: Matrix<S>,
)
    requires
        a.wf(),
        b.wf(),
        c.wf(),
        a.dims().cols == b.dims().rows,
        b.dims() == c.dims(),
        is_sum(b, c, bc),
        is_product(a, bc, p),
        is_product(a, b, ab),
        is_product(a, c, ac),
        is_sum(ab, ac, s),
    ensures
        p.same(&s),
{
    let n = a.dims().cols as int;
    assert forall|i: int, j: int|
        0 <= i < p.dims().rows && 0 <= j < p.dims().cols implies #[trigger] p.at(i, j) == s.at(
        i,
        j,
    ) by {
        let f = |k: int| S::times(a.at(i, k), b.at(k, j));
        let g = |k: int| S::times(a.at(i, k), c.at(k, j));
        lemma_product_cell_sum(a, bc, i, j);
        lemma_product_cell_sum(a, b, i, j);
        lemma_product_cell_sum(a, c, i, j);
        assert forall|k: int| 0 <= k < n implies #[trigger] S::times(a.at(i, k), bc.at(k, j))
            == S::plus(f(k), g(k)) by {
            S::lemma_distributive(a.at(i, k), b.at(k, j), c.at(k, j));
        }
        lemma_sum_congruent(
            |k: int| S::times(a.at(i, k), bc.at(k, j)),
            |k: int| S::plus(f(k), g(k)),
            n,
        );
        lemma_sum_additive(f, g, n);
    }
    lemma_same_from_cells(p, s);
}

} // verus!
