//! Elementary facts of real arithmetic.

use vstd::prelude::*;

verus! {

pub(crate) proof fn lemma_quotient(a: real, b: real)
    requires
        b != 0real,
    ensures
        (a / b) * b == a,
{
    assert((a / b) * b == a) by (nonlinear_arith)
        requires
            b != 0real,
    ;
}

pub(crate) proof fn lemma_commutes(a: real, b: real)
    ensures
        a * b == b * a,
{
    assert(a * b == b * a) by (nonlinear_arith);
}

pub(crate) proof fn lemma_associates(a: real, b: real, c: real)
    ensures
        (a * b) * c == a * (b * c),
{
    assert((a * b) * c == a * (b * c)) by (nonlinear_arith);
}

pub(crate) proof fn lemma_distributes(a: real, b: real, c: real)
    ensures
        (a + b) * c == a * c + b * c,
        (a - b) * c == a * c - b * c,
        c * (a + b) == c * a + c * b,
        c * (a - b) == c * a - c * b,
{
    assert((a + b) * c == a * c + b * c) by (nonlinear_arith);
    assert((a - b) * c == a * c - b * c) by (nonlinear_arith);
    assert(c * (a + b) == c * a + c * b) by (nonlinear_arith);
    assert(c * (a - b) == c * a - c * b) by (nonlinear_arith);
}

pub(crate) proof fn lemma_scales(a: real, b: real, c: real)
    requires
        a <= b,
        c >= 0real,
    ensures
        a * c <= b * c,
        c * a <= c * b,
{
    assert(a * c <= b * c) by (nonlinear_arith)
        requires
            a <= b,
            c >= 0real,
    ;
    lemma_commutes(a, c);
    lemma_commutes(b, c);
}

pub(crate) proof fn lemma_cancels(a: real, b: real, c: real)
    requires
        c > 0real,
    ensures
        a * c <= b * c ==> a <= b,
        a * c == b * c ==> a == b,
{
    if a * c <= b * c {
        assert(a <= b) by (nonlinear_arith)
            requires
                a * c <= b * c,
                c > 0real,
        ;
    }
    if a * c == b * c {
        assert(a == b) by (nonlinear_arith)
            requires
                a * c == b * c,
                c > 0real,
        ;
    }
}

pub(crate) proof fn lemma_cancels_any(a: real, b: real, c: real)
    requires
        c != 0real,
        a * c == b * c,
    ensures
        a == b,
{
    assert(a == b) by (nonlinear_arith)
        requires
            a * c == b * c,
            c != 0real,
    ;
}

pub(crate) proof fn lemma_product_sign(a: real, b: real)
    requires
        a >= 0real,
        b >= 0real,
    ensures
        a * b >= 0real,
{
    assert(a * b >= 0real) by (nonlinear_arith)
        requires
            a >= 0real,
            b >= 0real,
    ;
}

pub(crate) proof fn lemma_inverse(s: real)
    requires
        s > 0real,
    ensures
        1real / s > 0real,
        (1real / s) * s == 1real,
{
    lemma_quotient(1real, s);
    if 1real / s <= 0real {
        lemma_scales(1real / s, 0real, s);
        lemma_zero(s);
    }
}

pub(crate) proof fn lemma_zero(a: real)
    ensures
        0real * a == 0real,
        a * 0real == 0real,
        1real * a == a,
        a * 1real == a,
{
    assert(0real * a == 0real && a * 0real == 0real && 1real * a == a && a * 1real == a)
        by (nonlinear_arith);
}

/// A quotient is a product with the inverse.
pub(crate) proof fn lemma_over_is_times(a: real, s: real)
    requires
        s > 0real,
    ensures
        a / s == a * (1real / s),
{
    lemma_quotient(a, s);
    lemma_quotient(1real, s);
    lemma_associates(a, 1real / s, s);
    lemma_zero(a);
    lemma_cancels(a / s, a * (1real / s), s);
}

/// A factor comes out of a quotient.
pub(crate) proof fn lemma_factor_out(a: real, b: real, c: real)
    requires
        c != 0real,
    ensures
        (a * b) / c == a * (b / c),
{
    lemma_quotient(b, c);
    lemma_quotient(a * b, c);
    lemma_associates(a, b / c, c);
    lemma_cancels_any((a * b) / c, a * (b / c), c);
}

/// A sum over one denominator.
pub(crate) proof fn lemma_sum_over(a: real, b: real, c: real)
    requires
        c != 0real,
    ensures
        (a + b) / c == a / c + b / c,
        (a - b) / c == a / c - b / c,
{
    lemma_quotient(a, c);
    lemma_quotient(b, c);
    lemma_quotient(a + b, c);
    lemma_quotient(a - b, c);
    lemma_distributes(a / c, b / c, c);
    lemma_cancels_any((a + b) / c, a / c + b / c, c);
    lemma_cancels_any((a - b) / c, a / c - b / c, c);
}

} // verus!
