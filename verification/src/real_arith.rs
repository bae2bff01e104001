use vstd::prelude::*;

verus! {

/// A product spreads over a sum and over a difference.
pub proof fn lemma_mul_distributes(x: real, y: real, m: real)
    ensures
        (x + y) * m == x * m + y * m,
        (x - y) * m == x * m - y * m,
        m * (x + y) == m * x + m * y,
        m * (x - y) == m * x - m * y,
{
    assert((x + y) * m == x * m + y * m) by (nonlinear_arith);
    assert((x - y) * m == x * m - y * m) by (nonlinear_arith);
    assert(m * (x + y) == m * x + m * y) by (nonlinear_arith);
    assert(m * (x - y) == m * x - m * y) by (nonlinear_arith);
}

/// Products of three factors can be grouped and ordered at will.
pub proof fn lemma_mul_regroups(x: real, y: real, z: real)
    ensures
        (x * y) * z == x * (y * z),
        x * (y * z) == y * (x * z),
        (x * y) * z == (x * z) * y,
{
    assert((x * y) * z == x * (y * z)) by (nonlinear_arith);
    assert(x * (y * z) == y * (x * z)) by (nonlinear_arith);
    assert((x * y) * z == (x * z) * y) by (nonlinear_arith);
}

/// A product with a factor other than zero is zero where the other factor
/// is.
pub proof fn lemma_zero_product(p: real, d: real)
    requires
        p != 0real,
    ensures
        p * d == 0real <==> d == 0real,
{
    assert(p * d == 0real <==> d == 0real) by (nonlinear_arith)
        requires
            p != 0real,
    ;
}

/// Division by a number other than zero undoes multiplication by it.
pub proof fn lemma_division(x: real, p: real)
    requires
        p != 0real,
    ensures
        p * (x / p) == x,
        p / p == 1real,
        0real / p == 0real,
{
    assert(p * (x / p) == x) by (nonlinear_arith)
        requires
            p != 0real,
    ;
    assert(p / p == 1real) by (nonlinear_arith)
        requires
            p != 0real,
    ;
    assert(0real / p == 0real) by (nonlinear_arith)
        requires
            p != 0real,
    ;
}

} // verus!
