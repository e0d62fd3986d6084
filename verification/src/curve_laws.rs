//! Why sums and multiples of points of the curve are points of the curve.

use crate::curve::{
    doubled, generator_point, identity_point, lemma_generator_on_curve, lemma_identity_on_curve,
    multiple_low, on_curve, point_sum, scalar_multiple, Coords,
};
use crate::modfield::{
    congruent, edwards_d, lemma_congruent_add, lemma_congruent_mul, lemma_congruent_rem,
    lemma_congruent_sub, lemma_prime_shape, prime,
};
use vstd::prelude::*;

verus! {
/// Gathers the terms of the equation of the sum.
proof fn lemma_gather(
    s: int,
    w: int,
    dc: int,
    mm: int,
    q: int,
    vv: int,
    d: int,
    eh2: int,
    a: int,
    b: int,
)
    by (nonlinear_arith)
    requires
        eh2 == a + b - 8 * (q * q) + 2 * (q * mm),
    ensures
        s * w + 2 * (dc * (mm - 4 * q)) - vv - d * eh2 == (s * w - vv - d * a - d * b) + (2 * mm
            - 8 * q) * (dc - d * q),
{
}


} // verus!
