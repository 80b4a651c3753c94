//! Dense vectors of scalars.
use crate::algebra::{dot_prefix, dot_spec};
use crate::dimensions::Dimensions;
use crate::error::{column, column_shape, ShapeError};
use crate::matrix::Matrix;
use crate::scalar::Scalar;
use vstd::prelude::*;

verus! {

/// A dense vector: an owned sequence of elements of fixed length.
#[derive(Debug, Clone)]
pub struct Vector<S> {
    elements: Vec<S>,
}

impl<S> View for Vector<S> {
    type V = Seq<S>;

    closed spec fn view(&self) -> Seq<S> {
        self.elements@
    }
}

impl<S> Vector<S> {
    /// A vector holding `elements` in order.
    pub fn new(elements: Vec<S>) -> (v: Vector<S>)
        ensures
            v@ == elements@,
    {
        Vector { elements }
    }

    /// The number of elements.
    pub fn len(&self) -> (n: usize)
        ensures
            n == self@.len(),
    {
        self.elements.len()
    }

    /// The elements, in order, by reference.
    pub fn iter(&self) -> std::slice::Iter<'_, S> {
        self.elements.iter()
    }

    /// The elements, in order, by value.
    pub fn into_iter(self) -> std::vec::IntoIter<S> {
        self.elements.into_iter()
    }

    /// The elements as a mutable slice: writes through it change the
    /// elements, never the length.
    pub fn as_mut_slice(&mut self) -> (s: &mut [S])
        ensures
            s@ == old(self)@,
            final(self)@ == final(s)@,
    {
        self.elements.as_mut_slice()
    }

    /// The elements as a slice.
    pub fn as_slice(&self) -> (s: &[S])
        ensures
            s@ == self@,
    {
        self.elements.as_slice()
    }

    /// The elements as a `Vec`.
    pub fn to_vec(self) -> (v: Vec<S>)
        ensures
            v@ == self@,
    {
        self.elements
    }
}

impl<S: Copy> Vector<S> {
    /// A vector of `len` copies of `value`.
    pub fn filled(value: S, len: usize) -> (v: Vector<S>)
        ensures
            v@.len() == len,
            forall|i: int| 0 <= i < len ==> v@[i] == value,
    {
        let mut elements: Vec<S> = Vec::with_capacity(len);
        let mut i: usize = 0;
        while i < len
            invariant
                i <= len,
                elements@.len() == i,
                forall|k: int| 0 <= k < i ==> elements@[k] == value,
            decreases len - i,
        {
            elements.push(value);
            i += 1;
        }
        Vector { elements }
    }

    /// The element at `index`, or `IndexOutOfRange` past the end.
    pub fn get(&self, index: usize) -> (r: Result<S, ShapeError>)
        ensures
            match r {
                Ok(x) => index < self@.len() && x == self@[index as int],
                Err(e) => index >= self@.len() && e == (ShapeError::IndexOutOfRange {
                    index,
                    bound: self@.len() as usize,
                }),
            },
    {
        if index < self.elements.len() {
            Ok(self.elements[index])
        } else {
            Err(ShapeError::IndexOutOfRange { index, bound: self.elements.len() })
        }
    }

    /// Writes `value` at `index`, or leaves the vector as it is and returns
    /// `IndexOutOfRange` past the end.
    pub fn set(&mut self, index: usize, value: S) -> (r: Result<(), ShapeError>)
        ensures
            match r {
                Ok(_) => index < old(self)@.len() && final(self)@ == old(self)@.update(
                    index as int,
                    value,
                ),
                Err(e) => index >= old(self)@.len() && final(self)@ == old(self)@ && e == (
                ShapeError::IndexOutOfRange { index, bound: old(self)@.len() as usize }),
            },
    {
        if index < self.elements.len() {
            self.elements.set(index, value);
            Ok(())
        } else {
            Err(ShapeError::IndexOutOfRange { index, bound: self.elements.len() })
        }
    }

    /// Applies `f` to every element.
    pub fn map<F: Fn(S) -> S>(self, f: F) -> (v: Vector<S>)
        requires
            forall|i: int| 0 <= i < self@.len() ==> f.requires((self@[i],)),
        ensures
            v@.len() == self@.len(),
            forall|i: int| 0 <= i < self@.len() ==> f.ensures((self@[i],), v@[i]),
    {
        let ghost before = self@;
        let mut elements = self.elements;
        let mut i: usize = 0;
        while i < elements.len()
            invariant
                elements@.len() == before.len(),
                i <= elements@.len(),
                forall|k: int| 0 <= k < before.len() ==> f.requires((before[k],)),
                forall|k: int| 0 <= k < i ==> f.ensures((before[k],), elements@[k]),
                forall|k: int| i <= k < before.len() ==> elements@[k] == before[k],
            decreases before.len() - i,
        {
            proof {
                assert(f.requires((before[i as int],)));
            }
            let x = f(elements[i]);
            elements.set(i, x);
            i += 1;
        }
        Vector { elements }
    }
}

/// The dot product of two slices of equal length, accumulated left to right
/// from zero; `DimensionMismatch` where the lengths differ.
pub fn dot<S: Scalar>(lhs: &[S], rhs: &[S]) -> (r: Result<S, ShapeError>)
    ensures
        match r {
            Ok(x) => lhs@.len() == rhs@.len() && x == dot_spec(lhs@, rhs@),
            Err(e) => lhs@.len() != rhs@.len() && e == (ShapeError::DimensionMismatch {
                lhs: column_shape(lhs@.len()),
                rhs: column_shape(rhs@.len()),
            }),
        },
{
    if lhs.len() != rhs.len() {
        return Err(ShapeError::DimensionMismatch { lhs: column(lhs.len()), rhs: column(rhs.len()) });
    }
    let mut sum = S::zero();
    let mut i: usize = 0;
    while i < lhs.len()
        invariant
            lhs@.len() == rhs@.len(),
            i <= lhs@.len(),
            sum == dot_prefix(lhs@, rhs@, i as int),
        decreases lhs@.len() - i,
    {
        sum = sum.add(lhs[i].mul(rhs[i]));
        i += 1;
    }
    Ok(sum)
}

impl<S: Scalar> Vector<S> {
    /// A vector of `len` zeros.
    pub fn zeros(len: usize) -> (v: Vector<S>)
        ensures
            v@.len() == len,
            forall|i: int| 0 <= i < len ==> v@[i] == S::zero_spec(),
    {
        Self::filled(S::zero(), len)
    }

    /// A vector of `len` ones.
    pub fn ones(len: usize) -> (v: Vector<S>)
        ensures
            v@.len() == len,
            forall|i: int| 0 <= i < len ==> v@[i] == S::one_spec(),
    {
        Self::filled(S::one(), len)
    }

    /// The dot product with a vector of the same length; `DimensionMismatch`
    /// where the lengths differ.
    pub fn dot(&self, other: &Self) -> (r: Result<S, ShapeError>)
        ensures
            match r {
                Ok(x) => self@.len() == other@.len() && x == dot_spec(self@, other@),
                Err(e) => self@.len() != other@.len() && e == (ShapeError::DimensionMismatch {
                    lhs: column_shape(self@.len()),
                    rhs: column_shape(other@.len()),
                }),
            },
    {
        dot(self.elements.as_slice(), other.elements.as_slice())
    }

    /// The outer product: the matrix of shape `(self.len(), other.len())`
    /// whose cell `(i, j)` is `self[i] * other[j]`.
    pub fn mul_transpose(&self, other: &Vector<S>) -> (m: Matrix<S>)
        ensures
            m.wf(),
            m.dims() == (Dimensions { rows: self@.len() as usize, cols: other@.len() as usize }),
            forall|i: int, j: int|
                0 <= i < self@.len() && 0 <= j < other@.len() ==> m.at(i, j) == S::times(
                    self@[i],
                    other@[j],
                ),
    {
        let dims = Dimensions { rows: self.len(), cols: other.len() };
        Matrix::tabulate(dims, |i: usize, j: usize| -> (x: S)
            requires
                i < self@.len(),
                j < other@.len(),
            ensures
                x == S::times(self@[i as int], other@[j as int]),
            { self.elements[i].mul(other.elements[j]) })
    }

    /// The elementwise additive inverse.
    pub fn neg(&self) -> (v: Vector<S>)
        ensures
            v@.len() == self@.len(),
            forall|i: int| 0 <= i < self@.len() ==> v@[i] == S::negated(self@[i]),
    {
        let n = self.elements.len();
        let mut out: Vec<S> = Vec::with_capacity(n);
        let mut i: usize = 0;
        while i < n
            invariant
                n == self@.len(),
                i <= n,
                out@.len() == i,
                forall|k: int| 0 <= k < i ==> out@[k] == S::negated(self@[k]),
            decreases n - i,
        {
            out.push(self.elements[i].neg());
            i += 1;
        }
        Vector { elements: out }
    }

    /// The elementwise sum with a vector of the same length; `DimensionMismatch`
    /// where the lengths differ.
    pub fn add(&self, rhs: &Vector<S>) -> (r: Result<Vector<S>, ShapeError>)
        ensures
            match r {
                Ok(v) => self@.len() == rhs@.len() && v@.len() == self@.len() && forall|i: int|
                    0 <= i < self@.len() ==> v@[i] == S::plus(self@[i], rhs@[i]),
                Err(e) => self@.len() != rhs@.len() && e == (ShapeError::DimensionMismatch {
                    lhs: column_shape(self@.len()),
                    rhs: column_shape(rhs@.len()),
                }),
            },
    {
        let n = self.elements.len();
        if n != rhs.elements.len() {
            return Err(ShapeError::DimensionMismatch { lhs: column(n), rhs: column(rhs.elements.len()) });
        }
        let mut out: Vec<S> = Vec::with_capacity(n);
        let mut i: usize = 0;
        while i < n
            invariant
                n == self@.len(),
                n == rhs@.len(),
                i <= n,
                out@.len() == i,
                forall|k: int| 0 <= k < i ==> out@[k] == S::plus(self@[k], rhs@[k]),
            decreases n - i,
        {
            out.push(self.elements[i].add(rhs.elements[i]));
            i += 1;
        }
        Ok(Vector { elements: out })
    }

    /// The elementwise difference with a vector of the same length; `DimensionMismatch`
    /// where the lengths differ.
    pub fn sub(&self, rhs: &Vector<S>) -> (r: Result<Vector<S>, ShapeError>)
        ensures
            match r {
                Ok(v) => self@.len() == rhs@.len() && v@.len() == self@.len() && forall|i: int|
                    0 <= i < self@.len() ==> v@[i] == S::minus(self@[i], rhs@[i]),
                Err(e) => self@.len() != rhs@.len() && e == (ShapeError::DimensionMismatch {
                    lhs: column_shape(self@.len()),
                    rhs: column_shape(rhs@.len()),
                }),
            },
    {
        let n = self.elements.len();
        if n != rhs.elements.len() {
            return Err(ShapeError::DimensionMismatch { lhs: column(n), rhs: column(rhs.elements.len()) });
        }
        let mut out: Vec<S> = Vec::with_capacity(n);
        let mut i: usize = 0;
        while i < n
            invariant
                n == self@.len(),
                n == rhs@.len(),
                i <= n,
                out@.len() == i,
                forall|k: int| 0 <= k < i ==> out@[k] == S::minus(self@[k], rhs@[k]),
            decreases n - i,
        {
            out.push(self.elements[i].sub(rhs.elements[i]));
            i += 1;
        }
        Ok(Vector { elements: out })
    }

    /// The elementwise product with a vector of the same length; `DimensionMismatch`
    /// where the lengths differ.
    pub fn mul(&self, rhs: &Vector<S>) -> (r: Result<Vector<S>, ShapeError>)
        ensures
            match r {
                Ok(v) => self@.len() == rhs@.len() && v@.len() == self@.len() && forall|i: int|
                    0 <= i < self@.len() ==> v@[i] == S::times(self@[i], rhs@[i]),
                Err(e) => self@.len() != rhs@.len() && e == (ShapeError::DimensionMismatch {
                    lhs: column_shape(self@.len()),
                    rhs: column_shape(rhs@.len()),
                }),
            },
    {
        let n = self.elements.len();
        if n != rhs.elements.len() {
            return Err(ShapeError::DimensionMismatch { lhs: column(n), rhs: column(rhs.elements.len()) });
        }
        let mut out: Vec<S> = Vec::with_capacity(n);
        let mut i: usize = 0;
        while i < n
            invariant
                n == self@.len(),
                n == rhs@.len(),
                i <= n,
                out@.len() == i,
                forall|k: int| 0 <= k < i ==> out@[k] == S::times(self@[k], rhs@[k]),
            decreases n - i,
        {
            out.push(self.elements[i].mul(rhs.elements[i]));
            i += 1;
        }
        Ok(Vector { elements: out })
    }

    /// The elementwise quotient with a vector of the same length; `DimensionMismatch`
    /// where the lengths differ.
    pub fn div(&self, rhs: &Vector<S>) -> (r: Result<Vector<S>, ShapeError>)
        requires
            self@.len() == rhs@.len() ==> forall|i: int|
                0 <= i < self@.len() ==> S::can_divide(self@[i], #[trigger] rhs@[i]),
        ensures
            match r {
                Ok(v) => self@.len() == rhs@.len() && v@.len() == self@.len() && forall|i: int|
                    0 <= i < self@.len() ==> v@[i] == S::quotient(self@[i], rhs@[i]),
                Err(e) => self@.len() != rhs@.len() && e == (ShapeError::DimensionMismatch {
                    lhs: column_shape(self@.len()),
                    rhs: column_shape(rhs@.len()),
                }),
            },
    {
        let n = self.elements.len();
        if n != rhs.elements.len() {
            return Err(ShapeError::DimensionMismatch { lhs: column(n), rhs: column(rhs.elements.len()) });
        }
        let mut out: Vec<S> = Vec::with_capacity(n);
        let mut i: usize = 0;
        while i < n
            invariant
                n == self@.len(),
                n == rhs@.len(),
                forall|k: int| 0 <= k < n ==> S::can_divide(self@[k], #[trigger] rhs@[k]),
                i <= n,
                out@.len() == i,
                forall|k: int| 0 <= k < i ==> out@[k] == S::quotient(self@[k], rhs@[k]),
            decreases n - i,
        {
            out.push(self.elements[i].div(rhs.elements[i]));
            i += 1;
        }
        Ok(Vector { elements: out })
    }

    /// Every element combined with `rhs` by addition.
    pub fn add_scalar(&self, rhs: S) -> (v: Vector<S>)
        ensures
            v@.len() == self@.len(),
            forall|i: int| 0 <= i < self@.len() ==> v@[i] == S::plus(self@[i], rhs),
    {
        let n = self.elements.len();
        let mut out: Vec<S> = Vec::with_capacity(n);
        let mut i: usize = 0;
        while i < n
            invariant
                n == self@.len(),
                i <= n,
                out@.len() == i,
                forall|k: int| 0 <= k < i ==> out@[k] == S::plus(self@[k], rhs),
            decreases n - i,
        {
            out.push(self.elements[i].add(rhs));
            i += 1;
        }
        Vector { elements: out }
    }

    /// Every element combined with `rhs` by subtraction.
    pub fn sub_scalar(&self, rhs: S) -> (v: Vector<S>)
        ensures
            v@.len() == self@.len(),
            forall|i: int| 0 <= i < self@.len() ==> v@[i] == S::minus(self@[i], rhs),
    {
        let n = self.elements.len();
        let mut out: Vec<S> = Vec::with_capacity(n);
        let mut i: usize = 0;
        while i < n
            invariant
                n == self@.len(),
                i <= n,
                out@.len() == i,
                forall|k: int| 0 <= k < i ==> out@[k] == S::minus(self@[k], rhs),
            decreases n - i,
        {
            out.push(self.elements[i].sub(rhs));
            i += 1;
        }
        Vector { elements: out }
    }

    /// Every element combined with `rhs` by multiplication.
    pub fn mul_scalar(&self, rhs: S) -> (v: Vector<S>)
        ensures
            v@.len() == self@.len(),
            forall|i: int| 0 <= i < self@.len() ==> v@[i] == S::times(self@[i], rhs),
    {
        let n = self.elements.len();
        let mut out: Vec<S> = Vec::with_capacity(n);
        let mut i: usize = 0;
        while i < n
            invariant
                n == self@.len(),
                i <= n,
                out@.len() == i,
                forall|k: int| 0 <= k < i ==> out@[k] == S::times(self@[k], rhs),
            decreases n - i,
        {
            out.push(self.elements[i].mul(rhs));
            i += 1;
        }
        Vector { elements: out }
    }

    /// Every element combined with `rhs` by division.
    pub fn div_scalar(&self, rhs: S) -> (v: Vector<S>)
        requires
            forall|i: int| 0 <= i < self@.len() ==> S::can_divide(#[trigger] self@[i], rhs),
        ensures
            v@.len() == self@.len(),
            forall|i: int| 0 <= i < self@.len() ==> v@[i] == S::quotient(self@[i], rhs),
    {
        let n = self.elements.len();
        let mut out: Vec<S> = Vec::with_capacity(n);
        let mut i: usize = 0;
        while i < n
            invariant
                n == self@.len(),
                forall|k: int| 0 <= k < n ==> S::can_divide(#[trigger] self@[k], rhs),
                i <= n,
                out@.len() == i,
                forall|k: int| 0 <= k < i ==> out@[k] == S::quotient(self@[k], rhs),
            decreases n - i,
        {
            out.push(self.elements[i].div(rhs));
            i += 1;
        }
        Vector { elements: out }
    }
}

impl<S> From<Vec<S>> for Vector<S> {
    fn from(elements: Vec<S>) -> (v: Vector<S>) {
        Vector { elements }
    }
}

impl<S> vstd::std_specs::convert::FromSpecImpl<Vec<S>> for Vector<S> {
    open spec fn obeys_from_spec() -> bool {
        true
    }

    closed spec fn from_spec(elements: Vec<S>) -> Vector<S> {
        Vector { elements }
    }
}

/// Whether two sequences of one length agree at every position, compared
/// with the scalars' own equality.
pub(crate) fn elements_equal<S: Scalar>(a: &[S], b: &[S]) -> (r: bool)
    requires
        a@.len() == b@.len(),
    ensures
        r == (a@ == b@),
{
    let mut i: usize = 0;
    while i < a.len()
        invariant
            a@.len() == b@.len(),
            i <= a@.len(),
            forall|k: int| 0 <= k < i ==> a@[k] == b@[k],
        decreases a@.len() - i,
    {
        if !a[i].equals(&b[i]) {
            return false;
        }
        i += 1;
    }
    assert(a@ =~= b@);
    true
}

/// Two vectors are equal when they have the same elements in the same order.
impl<S: Scalar> PartialEq for Vector<S> {
    fn eq(&self, other: &Self) -> (r: bool) {
        if self.elements.len() != other.elements.len() {
            return false;
        }
        elements_equal(self.elements.as_slice(), other.elements.as_slice())
    }
}

impl<S: Scalar> vstd::std_specs::cmp::PartialEqSpecImpl for Vector<S> {
    open spec fn obeys_eq_spec() -> bool {
        true
    }

    open spec fn eq_spec(&self, other: &Self) -> bool {
        self@ == other@
    }
}

} // verus!
