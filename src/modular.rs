//! Residues modulo a power of two, the arithmetic that fixed-width integers wrap with.
use vstd::arithmetic::div_mod::{
    lemma_add_mod_noop, lemma_mod_bound, lemma_mod_twice, lemma_mul_mod_noop_left, lemma_small_mod,
    lemma_mod_multiples_vanish, lemma_fundamental_div_mod_converse_mod,
    lemma_div_is_ordered_by_denominator, lemma_div_pos_is_pos, lemma_div_basics,
};
use vstd::prelude::*;

verus! {

/// The representative of `x` modulo `m` in `[-m/2, m/2)`: how a signed
/// integer of `m` distinct values holds an out-of-range result.
pub open spec fn signed_residue(x: int, m: int) -> int {
    if x % m >= m / 2 {
        x % m - m
    } else {
        x % m
    }
}

/// The representative of `x` modulo `m` in `[0, m)`: how an unsigned integer
/// of `m` distinct values holds an out-of-range result.
pub open spec fn unsigned_residue(x: int, m: int) -> int {
    x % m
}

proof fn lemma_signed_residue_congruent(x: int, m: int)
    requires
        m > 1,
    ensures
        signed_residue(x, m) % m == x % m,
        -(m - m / 2) <= signed_residue(x, m) < m / 2,
{
    lemma_mod_twice(x, m);
    lemma_mod_bound(x, m);
    if x % m >= m / 2 {
        lemma_mod_multiples_vanish(-1, x % m, m);
        assert(m * -1 + x % m == x % m - m) by (nonlinear_arith);
    }
}

/// Reducing an operand first does not change a residue of a sum or product.
proof fn lemma_signed_residue_absorbs(x: int, y: int, m: int)
    requires
        m > 1,
    ensures
        signed_residue(signed_residue(x, m) + y, m) == signed_residue(x + y, m),
        signed_residue(signed_residue(x, m) * y, m) == signed_residue(x * y, m),
        signed_residue(y + signed_residue(x, m), m) == signed_residue(y + x, m),
        signed_residue(y * signed_residue(x, m), m) == signed_residue(y * x, m),
{
    let r = signed_residue(x, m);
    lemma_signed_residue_congruent(x, m);
    lemma_add_mod_noop(r, y, m);
    lemma_add_mod_noop(x, y, m);
    lemma_mul_mod_noop_left(r, y, m);
    lemma_mul_mod_noop_left(x, y, m);
    assert(y + r == r + y);
    assert(y + x == x + y);
    assert(y * r == r * y) by (nonlinear_arith);
    assert(y * x == x * y) by (nonlinear_arith);
}

/// Division truncating toward zero, as Rust's `/` on integers.
pub open spec fn truncating_quotient(a: int, b: int) -> int {
    if (a >= 0) == (b > 0) || a == 0 {
        if a >= 0 {
            a / b
        } else {
            (-a) / (-b)
        }
    } else {
        if a >= 0 {
            -(a / (-b))
        } else {
            -((-a) / b)
        }
    }
}

/// A truncated quotient is no larger in magnitude than the dividend.
pub proof fn lemma_truncating_quotient_bound(a: int, b: int)
    requires
        b != 0,
    ensures
        -(if a >= 0 { a } else { -a }) <= truncating_quotient(a, b) <= (if a >= 0 { a } else { -a }),
{
    let n: int = if a >= 0 { a } else { -a };
    let d: int = if b >= 0 { b } else { -b };
    lemma_div_is_ordered_by_denominator(n, 1, d);
    lemma_div_pos_is_pos(n, d);
    lemma_div_basics(n);
}

/// The laws of a commutative ring for arithmetic modulo `m` on signed representatives.
pub proof fn lemma_signed_ring(a: int, b: int, c: int, m: int)
    requires
        m > 1,
        m % 2 == 0,
    ensures
        signed_residue(signed_residue(a + b, m) + c, m) == signed_residue(
            a + signed_residue(b + c, m),
            m,
        ),
        signed_residue(signed_residue(a * b, m) * c, m) == signed_residue(
            a * signed_residue(b * c, m),
            m,
        ),
        signed_residue(a * signed_residue(b + c, m), m) == signed_residue(
            signed_residue(a * b, m) + signed_residue(a * c, m),
            m,
        ),
        -(m / 2) <= a < m / 2 ==> signed_residue(a, m) == a,
        -(m / 2) <= a < m / 2 ==> signed_residue(a * 1, m) == a,
        signed_residue(a * 0, m) == 0,
{
    lemma_signed_residue_absorbs(a + b, c, m);
    lemma_signed_residue_absorbs(b + c, a, m);
    assert(a + b + c == a + (b + c));
    lemma_signed_residue_absorbs(a * b, c, m);
    lemma_signed_residue_absorbs(b * c, a, m);
    assert(a * b * c == a * (b * c)) by (nonlinear_arith);
    lemma_signed_residue_absorbs(b + c, a, m);
    lemma_signed_residue_absorbs(a * b, signed_residue(a * c, m), m);
    lemma_signed_residue_absorbs(a * c, a * b, m);
    assert(a * (b + c) == a * b + a * c) by (nonlinear_arith);
    if -(m / 2) <= a < m / 2 {
        lemma_signed_wrap(a, m);
        assert(a * 1 == a);
    }
    assert(a * 0 == 0);
    lemma_signed_wrap(0, m);
}

/// How the wrapping operations of a signed integer of `m` values relate to `signed_residue`.
pub proof fn lemma_signed_wrap(x: int, m: int)
    requires
        m > 1,
        m % 2 == 0,
        -m <= x < m,
    ensures
        signed_residue(x, m) == (if x > m / 2 - 1 {
            x - m
        } else if x < -(m / 2) {
            x + m
        } else {
            x
        }),
{
    if 0 <= x {
        lemma_small_mod(x as nat, m as nat);
    } else {
        lemma_fundamental_div_mod_converse_mod(x, m, -1, x + m);
    }
}

/// The laws of a commutative ring for arithmetic modulo `m` on unsigned representatives.
pub proof fn lemma_unsigned_ring(a: int, b: int, c: int, m: int)
    requires
        m > 1,
    ensures
        unsigned_residue(unsigned_residue(a + b, m) + c, m) == unsigned_residue(
            a + unsigned_residue(b + c, m),
            m,
        ),
        unsigned_residue(unsigned_residue(a * b, m) * c, m) == unsigned_residue(
            a * unsigned_residue(b * c, m),
            m,
        ),
        unsigned_residue(a * unsigned_residue(b + c, m), m) == unsigned_residue(
            unsigned_residue(a * b, m) + unsigned_residue(a * c, m),
            m,
        ),
        0 <= unsigned_residue(a, m) < m,
        0 <= a < m ==> unsigned_residue(a, m) == a,
        0 <= a < m ==> unsigned_residue(a * 1, m) == a,
        unsigned_residue(a * 0, m) == 0,
{
    lemma_add_mod_noop(a + b, c, m);
    lemma_add_mod_noop(a, b + c, m);
    lemma_add_mod_noop((a + b) % m, c, m);
    lemma_add_mod_noop(a, (b + c) % m, m);
    lemma_mod_twice(a + b, m);
    lemma_mod_twice(b + c, m);
    lemma_mod_twice(c, m);
    lemma_mod_twice(a, m);
    lemma_mod_bound(a, m);
    assert(a + b + c == a + (b + c));
    lemma_mul_mod_noop_left(a * b, c, m);
    lemma_mul_mod_noop_left(b * c, a, m);
    assert(a * b * c == a * (b * c)) by (nonlinear_arith);
    assert((b * c) % m * a == a * ((b * c) % m)) by (nonlinear_arith);
    assert(b * c * a == a * (b * c)) by (nonlinear_arith);
    lemma_mul_mod_noop_left(b + c, a, m);
    assert((b + c) % m * a == a * ((b + c) % m)) by (nonlinear_arith);
    assert((b + c) * a == a * b + a * c) by (nonlinear_arith);
    lemma_add_mod_noop(a * b, a * c, m);
    lemma_add_mod_noop((a * b) % m, (a * c) % m, m);
    lemma_mod_twice(a * b, m);
    lemma_mod_twice(a * c, m);
    if 0 <= a < m {
        lemma_small_mod(a as nat, m as nat);
        assert(a * 1 == a);
    }
    assert(a * 0 == 0);
    lemma_small_mod(0, m as nat);
}

/// How the wrapping addition of an unsigned integer of `m` values relates to `unsigned_residue`.
pub proof fn lemma_unsigned_wrap(x: int, m: int)
    requires
        m > 1,
        -m <= x < 2 * m,
    ensures
        unsigned_residue(x, m) == (if x >= m {
            x - m
        } else if x < 0 {
            x + m
        } else {
            x
        }),
{
    if x >= m {
        lemma_fundamental_div_mod_converse_mod(x, m, 1, x - m);
    } else if x < 0 {
        lemma_fundamental_div_mod_converse_mod(x, m, -1, x + m);
    } else {
        lemma_small_mod(x as nat, m as nat);
    }
}

} // verus!
