//! Sums of products over sequences of scalars, and their laws.
use crate::scalar::Scalar;
use vstd::prelude::*;

verus! {

/// The sum of `a[i] * b[i]` over `i < n`, accumulated left to right from zero.
pub open spec fn dot_prefix<S: Scalar>(a: Seq<S>, b: Seq<S>, n: int) -> S
    decreases n,
{
    if n <= 0 {
        S::zero_spec()
    } else {
        S::plus(dot_prefix(a, b, n - 1), S::times(a[n - 1], b[n - 1]))
    }
}

/// The dot product of two sequences of equal length.
pub open spec fn dot_spec<S: Scalar>(a: Seq<S>, b: Seq<S>) -> S {
    dot_prefix(a, b, a.len() as int)
}

/// The sum of `f(i)` over `i < n`, accumulated left to right from zero.
pub open spec fn sum_of<S: Scalar>(f: spec_fn(int) -> S, n: int) -> S
    decreases n,
{
    if n <= 0 {
        S::zero_spec()
    } else {
        S::plus(sum_of(f, n - 1), f(n - 1))
    }
}

/// A dot product is the sum of the products of corresponding elements.
pub proof fn lemma_dot_prefix_is_sum<S: Scalar>(a: Seq<S>, b: Seq<S>, n: int)
    ensures
        dot_prefix(a, b, n) == sum_of(|i: int| S::times(a[i], b[i]), n),
    decreases n,
{
    if n > 0 {
        lemma_dot_prefix_is_sum(a, b, n - 1);
    }
}

/// Sums of functions that agree below `n` agree.
pub proof fn lemma_sum_congruent<S: Scalar>(f: spec_fn(int) -> S, g: spec_fn(int) -> S, n: int)
    requires
        forall|i: int| 0 <= i < n ==> #[trigger] f(i) == g(i),
    ensures
        sum_of(f, n) == sum_of(g, n),
    decreases n,
{
    if n > 0 {
        lemma_sum_congruent(f, g, n - 1);
    }
}

/// Zero is also a left identity of addition.
pub proof fn lemma_zero_plus<S: Scalar>(a: S)
    ensures
        S::plus(S::zero_spec(), a) == a,
{
    S::lemma_plus_commutative(S::zero_spec(), a);
    S::lemma_plus_zero(a);
}

/// Sums may be regrouped: `(a + b) + (c + d) == (a + c) + (b + d)`.
pub proof fn lemma_plus_interchange<S: Scalar>(a: S, b: S, c: S, d: S)
    ensures
        S::plus(S::plus(a, b), S::plus(c, d)) == S::plus(S::plus(a, c), S::plus(b, d)),
{
    S::lemma_plus_associative(a, b, S::plus(c, d));
    S::lemma_plus_associative(b, c, d);
    S::lemma_plus_commutative(b, c);
    S::lemma_plus_associative(c, b, d);
    S::lemma_plus_associative(a, c, S::plus(b, d));
}

/// A sum of sums is the sum of the two sums.
pub proof fn lemma_sum_additive<S: Scalar>(f: spec_fn(int) -> S, g: spec_fn(int) -> S, n: int)
    ensures
        sum_of(|i: int| S::plus(f(i), g(i)), n) == S::plus(sum_of(f, n), sum_of(g, n)),
    decreases n,
{
    if n <= 0 {
        S::lemma_plus_zero(S::zero_spec());
    } else {
        lemma_sum_additive(f, g, n - 1);
        lemma_plus_interchange(sum_of(f, n - 1), sum_of(g, n - 1), f(n - 1), g(n - 1));
    }
}

/// Multiplying a sum on the right multiplies each term.
pub proof fn lemma_sum_times_right<S: Scalar>(f: spec_fn(int) -> S, x: S, n: int)
    ensures
        S::times(sum_of(f, n), x) == sum_of(|i: int| S::times(f(i), x), n),
    decreases n,
{
    if n <= 0 {
        S::lemma_times_commutative(S::zero_spec(), x);
        S::lemma_times_zero(x);
    } else {
        lemma_sum_times_right(f, x, n - 1);
        S::lemma_times_commutative(S::plus(sum_of(f, n - 1), f(n - 1)), x);
        S::lemma_distributive(x, sum_of(f, n - 1), f(n - 1));
        S::lemma_times_commutative(x, sum_of(f, n - 1));
        S::lemma_times_commutative(x, f(n - 1));
    }
}

/// Multiplying a sum on the left multiplies each term.
pub proof fn lemma_sum_times_left<S: Scalar>(x: S, f: spec_fn(int) -> S, n: int)
    ensures
        S::times(x, sum_of(f, n)) == sum_of(|i: int| S::times(x, f(i)), n),
    decreases n,
{
    if n <= 0 {
        S::lemma_times_zero(x);
    } else {
        lemma_sum_times_left(x, f, n - 1);
        S::lemma_distributive(x, sum_of(f, n - 1), f(n - 1));
    }
}

/// The order of a double sum can be exchanged.
pub proof fn lemma_sum_swap<S: Scalar>(g: spec_fn(int, int) -> S, m: int, n: int)
    ensures
        sum_of(|k: int| sum_of(|l: int| g(l, k), m), n) == sum_of(
            |l: int| sum_of(|k: int| g(l, k), n),
            m,
        ),
    decreases n,
{
    if n <= 0 {
        lemma_sum_of_zeros::<S>(m);
        lemma_sum_congruent(
            |l: int| sum_of(|k: int| g(l, k), n),
            |l: int| S::zero_spec(),
            m,
        );
    } else {
        lemma_sum_swap(g, m, n - 1);
        let inner = |l: int| sum_of(|k: int| g(l, k), n - 1);
        let last = |l: int| g(l, n - 1);
        lemma_sum_additive(inner, last, m);
        lemma_sum_congruent(
            |l: int| S::plus(inner(l), last(l)),
            |l: int| sum_of(|k: int| g(l, k), n),
            m,
        );
        lemma_sum_congruent(
            |l: int| g(l, n - 1),
            last,
            m,
        );
    }
}

/// A sum of zeros is zero.
pub proof fn lemma_sum_of_zeros<S: Scalar>(n: int)
    ensures
        sum_of(|i: int| S::zero_spec(), n) == S::zero_spec(),
    decreases n,
{
    if n > 0 {
        lemma_sum_of_zeros::<S>(n - 1);
        S::lemma_plus_zero(S::zero_spec());
    }
}

/// A sum whose terms vanish but at `k` is the term at `k`.
pub proof fn lemma_sum_single<S: Scalar>(f: spec_fn(int) -> S, k: int, n: int)
    requires
        0 <= k < n,
        forall|i: int| 0 <= i < n && i != k ==> #[trigger] f(i) == S::zero_spec(),
    ensures
        sum_of(f, n) == f(k),
    decreases n,
{
    if n - 1 == k {
        lemma_sum_congruent(f, |i: int| S::zero_spec(), k);
        lemma_sum_of_zeros::<S>(k);
        lemma_zero_plus(f(k));
    } else {
        lemma_sum_single(f, k, n - 1);
        S::lemma_plus_zero(f(k));
    }
}

/// Swapping the two sequences leaves every prefix of their dot product unchanged.
pub proof fn lemma_dot_prefix_commutative<S: Scalar>(a: Seq<S>, b: Seq<S>, n: int)
    ensures
        dot_prefix(a, b, n) == dot_prefix(b, a, n),
    decreases n,
{
    if n > 0 {
        lemma_dot_prefix_commutative(a, b, n - 1);
        S::lemma_times_commutative(a[n - 1], b[n - 1]);
    }
}

} // verus!
