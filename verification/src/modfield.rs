//! Arithmetic modulo the Goldilocks prime, and the constants of the curve.

use crate::bignum::{
    be_nat, be_prefix, big_add, big_from_u32, big_gt, big_is_one, big_is_zero, big_modpow, big_mul, big_rem,
    big_shr, big_sub, Natural,
};
use vstd::arithmetic::div_mod::{
    lemma_add_mod_noop, lemma_fundamental_div_mod, lemma_fundamental_div_mod_converse,
    lemma_mod_bound, lemma_mod_twice, lemma_mul_mod_noop_general, lemma_sub_mod_noop,
};
use vstd::arithmetic::power::pow;
use vstd::arithmetic::power2::{lemma2_to64, pow2};
use vstd::prelude::*;

verus! {

/// The Goldilocks prime, two to the 448 less two to the 224 less one.
pub open spec fn prime() -> nat {
    0xFFFFFFFFFFFFFFFFFFFFFFFFFFFFFFFFFFFFFFFFFFFFFFFFFFFFFFFEFFFFFFFFFFFFFFFFFFFFFFFFFFFFFFFFFFFFFFFFFFFFFFFFFFFFFFFFnat
}

/// The order of the curve's prime-order subgroup.
pub open spec fn curve_order() -> nat {
    0x3FFFFFFFFFFFFFFFFFFFFFFFFFFFFFFFFFFFFFFFFFFFFFFFFFFFFFFF7CCA23E9C44EDB49AED63690216CC2728DC58F552378C292AB5844F3nat
}

/// The curve's parameter `d`: the residue of -39081.
pub open spec fn edwards_d() -> nat {
    (prime() - 39081) as nat
}

/// The first coordinate of the generator.
pub open spec fn generator_x() -> nat {
    0x297EA0EA2692FF1B4FAFF46098453A6A26ADF733245F065C3C59D0709CECFA96147EAAF3932D94C63D96C170033F4BA0C7F0DE840AED939Fnat
}

/// The second coordinate of the generator.
pub open spec fn generator_y() -> nat {
    19
}

/// Half of the prime less one: the largest residue that counts as
/// non-negative.
pub open spec fn half_prime() -> nat {
    ((prime() - 1) / 2) as nat
}

/// The bytes of the curve order, highest first.
pub const ORDER_BYTES: [u8; 56] = [
    0x3f, 0xff, 0xff, 0xff, 0xff, 0xff, 0xff, 0xff,
    0xff, 0xff, 0xff, 0xff, 0xff, 0xff, 0xff, 0xff,
    0xff, 0xff, 0xff, 0xff, 0xff, 0xff, 0xff, 0xff,
    0xff, 0xff, 0xff, 0xff, 0x7c, 0xca, 0x23, 0xe9,
    0xc4, 0x4e, 0xdb, 0x49, 0xae, 0xd6, 0x36, 0x90,
    0x21, 0x6c, 0xc2, 0x72, 0x8d, 0xc5, 0x8f, 0x55,
    0x23, 0x78, 0xc2, 0x92, 0xab, 0x58, 0x44, 0xf3,
];

/// The bytes of the generator's first coordinate, highest first.
pub const GENERATOR_X_BYTES: [u8; 56] = [
    0x29, 0x7e, 0xa0, 0xea, 0x26, 0x92, 0xff, 0x1b,
    0x4f, 0xaf, 0xf4, 0x60, 0x98, 0x45, 0x3a, 0x6a,
    0x26, 0xad, 0xf7, 0x33, 0x24, 0x5f, 0x06, 0x5c,
    0x3c, 0x59, 0xd0, 0x70, 0x9c, 0xec, 0xfa, 0x96,
    0x14, 0x7e, 0xaa, 0xf3, 0x93, 0x2d, 0x94, 0xc6,
    0x3d, 0x96, 0xc1, 0x70, 0x03, 0x3f, 0x4b, 0xa0,
    0xc7, 0xf0, 0xde, 0x84, 0x0a, 0xed, 0x93, 0x9f,
];

/// The curve order is what its bytes hold.
pub proof fn lemma_order_bytes()
    ensures
        be_nat(ORDER_BYTES@) == curve_order(),
{
    let s = ORDER_BYTES@;
    assert(be_prefix(s, 8) == 0x3FFFFFFFFFFFFFFFnat) by {
        reveal_with_fuel(be_prefix, 9);
    }
    assert(be_prefix(s, 16) == 0x3FFFFFFFFFFFFFFFFFFFFFFFFFFFFFFFnat) by {
        reveal_with_fuel(be_prefix, 9);
    }
    assert(be_prefix(s, 24) == 0x3FFFFFFFFFFFFFFFFFFFFFFFFFFFFFFFFFFFFFFFFFFFFFFFnat) by {
        reveal_with_fuel(be_prefix, 9);
    }
    assert(be_prefix(s, 32) == 0x3FFFFFFFFFFFFFFFFFFFFFFFFFFFFFFFFFFFFFFFFFFFFFFFFFFFFFFF7CCA23E9nat) by {
        reveal_with_fuel(be_prefix, 9);
    }
    assert(be_prefix(s, 40) == 0x3FFFFFFFFFFFFFFFFFFFFFFFFFFFFFFFFFFFFFFFFFFFFFFFFFFFFFFF7CCA23E9C44EDB49AED63690nat) by {
        reveal_with_fuel(be_prefix, 9);
    }
    assert(be_prefix(s, 48) == 0x3FFFFFFFFFFFFFFFFFFFFFFFFFFFFFFFFFFFFFFFFFFFFFFFFFFFFFFF7CCA23E9C44EDB49AED63690216CC2728DC58F55nat) by {
        reveal_with_fuel(be_prefix, 9);
    }
    assert(be_prefix(s, 56) == 0x3FFFFFFFFFFFFFFFFFFFFFFFFFFFFFFFFFFFFFFFFFFFFFFFFFFFFFFF7CCA23E9C44EDB49AED63690216CC2728DC58F552378C292AB5844F3nat) by {
        reveal_with_fuel(be_prefix, 9);
    }
}

/// The generator's first coordinate is what its bytes hold.
pub proof fn lemma_generator_x_bytes()
    ensures
        be_nat(GENERATOR_X_BYTES@) == generator_x(),
{
    let s = GENERATOR_X_BYTES@;
    assert(be_prefix(s, 8) == 0x297EA0EA2692FF1Bnat) by {
        reveal_with_fuel(be_prefix, 9);
    }
    assert(be_prefix(s, 16) == 0x297EA0EA2692FF1B4FAFF46098453A6Anat) by {
        reveal_with_fuel(be_prefix, 9);
    }
    assert(be_prefix(s, 24) == 0x297EA0EA2692FF1B4FAFF46098453A6A26ADF733245F065Cnat) by {
        reveal_with_fuel(be_prefix, 9);
    }
    assert(be_prefix(s, 32) == 0x297EA0EA2692FF1B4FAFF46098453A6A26ADF733245F065C3C59D0709CECFA96nat) by {
        reveal_with_fuel(be_prefix, 9);
    }
    assert(be_prefix(s, 40) == 0x297EA0EA2692FF1B4FAFF46098453A6A26ADF733245F065C3C59D0709CECFA96147EAAF3932D94C6nat) by {
        reveal_with_fuel(be_prefix, 9);
    }
    assert(be_prefix(s, 48) == 0x297EA0EA2692FF1B4FAFF46098453A6A26ADF733245F065C3C59D0709CECFA96147EAAF3932D94C63D96C170033F4BA0nat) by {
        reveal_with_fuel(be_prefix, 9);
    }
    assert(be_prefix(s, 56) == 0x297EA0EA2692FF1B4FAFF46098453A6A26ADF733245F065C3C59D0709CECFA96147EAAF3932D94C63D96C170033F4BA0C7F0DE840AED939Fnat) by {
        reveal_with_fuel(be_prefix, 9);
    }
}

/// The prime leaves 3 when divided by 4, so that square roots are plain
/// powers, and it is odd and larger than every constant used with it.
pub proof fn lemma_prime_shape()
    ensures
        prime() % 4 == 3,
        prime() % 2 == 1,
        prime() > 39081,
        2 * half_prime() + 1 == prime(),
        generator_x() < prime(),
        curve_order() < prime(),
        0 < curve_order(),
{
}

/// The Goldilocks prime as a number.
pub fn prime_number() -> (p: Natural)
    ensures
        p@ == prime(),
{
    let b16 = big_from_u32(0x10000);
    let b32 = big_mul(&b16, &b16);
    assert(b32@ == 0x1_0000_0000nat);
    let b64 = big_mul(&b32, &b32);
    assert(b64@ == 0x1_0000_0000_0000_0000nat);
    let b128 = big_mul(&b64, &b64);
    assert(b128@ == 0x1_0000_0000_0000_0000_0000_0000_0000_0000nat);
    let b192 = big_mul(&b128, &b64);
    assert(b192@ == 0x1_0000_0000_0000_0000_0000_0000_0000_0000_0000_0000_0000_0000nat);
    let b224 = big_mul(&b192, &b32);
    assert(b224@ == 0x1_0000_0000_0000_0000_0000_0000_0000_0000_0000_0000_0000_0000_0000_0000nat);
    let b448 = big_mul(&b224, &b224);
    let one = big_from_u32(1);
    big_sub(&big_sub(&b448, &b224), &one)
}

/// The order of the curve's prime-order subgroup as a number.
pub fn curve_order_number() -> (q: Natural)
    ensures
        q@ == curve_order(),
{
    proof {
        lemma_order_bytes();
    }
    Natural::from_bytes_be(&ORDER_BYTES)
}

/// The curve's parameter `d` as a number.
pub fn edwards_d_number() -> (d: Natural)
    ensures
        d@ == edwards_d(),
{
    big_sub(&prime_number(), &big_from_u32(39081))
}

/// The generator's first coordinate as a number.
pub fn generator_x_number() -> (x: Natural)
    ensures
        x@ == generator_x(),
{
    proof {
        lemma_generator_x_bytes();
    }
    Natural::from_bytes_be(&GENERATOR_X_BYTES)
}

/// The generator's second coordinate as a number.
pub fn generator_y_number() -> (y: Natural)
    ensures
        y@ == generator_y(),
{
    big_from_u32(19)
}

/// Half of the prime less one, as a number.
pub fn half_prime_number() -> (h: Natural)
    ensures
        h@ == half_prime(),
{
    proof {
        lemma2_to64();
    }
    big_shr(&big_sub(&prime_number(), &big_from_u32(1)), 1)
}

/// The curve's parameter `a`, which is one.
pub fn a() -> (r: Natural)
    ensures
        r@ == 1,
{
    big_from_u32(1)
}

/// The residue of `a - b` modulo `m`.
pub open spec fn sub_mod(a: int, b: int, m: int) -> int {
    (a - b) % m
}

/// The power of `a` that tells residues from non-residues modulo a prime
/// `p`: `a` to the `(p - 1) / 2`, reduced.
pub open spec fn euler(a: nat, p: nat) -> int {
    pow(a as int, ((p - 1) / 2) as nat) % (p as int)
}

/// The Legendre symbol as read off that power: 0, 1, or else -1.
pub open spec fn legendre(a: nat, p: nat) -> int {
    if euler(a, p) == 0 {
        0
    } else if euler(a, p) == 1 {
        1
    } else {
        -1
    }
}

/// The inverse of `a` modulo a prime `p`, as the power `p - 2` of `a`.
pub open spec fn inverse(a: nat, p: nat) -> nat {
    (pow(a as int, (p - 2) as nat) % (p as int)) as nat
}

/// The power of `a` that is a square root of `a` modulo the prime where
/// `a` has one.
pub open spec fn sqrt_power(a: nat) -> nat {
    (pow(a as int, ((prime() + 1) / 4) as nat) % (prime() as int)) as nat
}

/// The power of `a` that is the inverse of a square root of `a` modulo the
/// prime where `a` has one.
pub open spec fn inv_sqrt_power(a: nat) -> nat {
    (pow(a as int, ((prime() - 3) / 4) as nat) % (prime() as int)) as nat
}

/// The square root that the library takes of `a` modulo the prime: zero
/// for zero, none where the Legendre symbol is not 1, else the power.
pub open spec fn sqrt_of(a: nat) -> Option<nat> {
    if a == 0 {
        Some(0nat)
    } else if legendre(a, prime()) != 1 {
        None
    } else {
        Some(sqrt_power(a))
    }
}

/// `(a - b) mod p`, for any `a` and `b`.
pub fn mod_sub(a: &Natural, b: &Natural, p: &Natural) -> (r: Natural)
    requires
        p@ > 0,
    ensures
        r@ == sub_mod(a@ as int, b@ as int, p@ as int),
        r@ < p@,
{
    if !big_gt(b, a) {
        let r = big_rem(&big_sub(a, b), p);
        proof {
            lemma_mod_bound(a@ - b@, p@ as int);
        }
        r
    } else {
        let k = big_rem(&big_sub(b, a), p);
        proof {
            lemma_mod_bound(b@ - a@, p@ as int);
        }
        let r = big_rem(&big_sub(p, &k), p);
        proof {
            let m = p@ as int;
            let d = b@ - a@;
            lemma_fundamental_div_mod(d, m);
            lemma_mod_bound(m - k@, m);
            if k@ == 0 {
                assert(a@ - b@ == (-(d / m)) * m + 0) by (nonlinear_arith)
                    requires
                        d == m * (d / m) + 0,
                        d == b@ - a@,
                ;
                lemma_fundamental_div_mod_converse(a@ - b@, m, -(d / m), 0);
                lemma_fundamental_div_mod_converse(m - 0, m, 1, 0);
            } else {
                assert(a@ - b@ == (-(d / m) - 1) * m + (m - k@)) by (nonlinear_arith)
                    requires
                        d == m * (d / m) + k@,
                        d == b@ - a@,
                ;
                lemma_fundamental_div_mod_converse(a@ - b@, m, -(d / m) - 1, m - k@);
                lemma_fundamental_div_mod_converse(m - k@, m, 0, m - k@);
            }
        }
        r
    }
}

/// The inverse of `a` modulo a prime `p`, by Fermat's little theorem.
pub fn mod_inv(a: &Natural, p: &Natural) -> (r: Natural)
    requires
        p@ >= 2,
    ensures
        r@ == inverse(a@, p@),
        r@ < p@,
{
    let r = big_modpow(a, &big_sub(p, &big_from_u32(2)), p);
    proof {
        lemma_mod_bound(pow(a@ as int, (p@ - 2) as nat), p@ as int);
    }
    r
}

/// The Legendre symbol of `a` modulo a prime `p`.
pub fn legendre_symbol(a: &Natural, p: &Natural) -> (r: i32)
    requires
        p@ >= 2,
    ensures
        r == legendre(a@, p@),
{
    proof {
        lemma2_to64();
    }
    let exp = big_shr(&big_sub(p, &big_from_u32(1)), 1);
    let r = big_modpow(a, &exp, p);
    if big_is_zero(&r) {
        0
    } else if big_is_one(&r) {
        1
    } else {
        -1
    }
}

/// A square root of `a` modulo the prime, where the Legendre symbol says
/// that there is one.
pub fn mod_sqrt(a: &Natural) -> (r: Option<Natural>)
    ensures
        match r {
            Some(root) => sqrt_of(a@) == Some(root@) && root@ < prime(),
            None => sqrt_of(a@) is None,
        },
{
    if big_is_zero(a) {
        return Some(big_from_u32(0));
    }
    let p = prime_number();
    if legendre_symbol(a, &p) != 1 {
        return None;
    }
    proof {
        lemma2_to64();
        lemma_mod_bound(pow(a@ as int, ((prime() + 1) / 4) as nat), prime() as int);
    }
    let exp = big_shr(&big_add(&p, &big_from_u32(1)), 2);
    Some(big_modpow(a, &exp, &p))
}

/// The inverse of a square root of `a` modulo the prime, where `a` has a
/// square root.
pub fn mod_inv_sqrt(a: &Natural) -> (r: Natural)
    ensures
        r@ == inv_sqrt_power(a@),
        r@ < prime(),
{
    let p = prime_number();
    proof {
        lemma2_to64();
        lemma_mod_bound(pow(a@ as int, ((prime() - 3) / 4) as nat), prime() as int);
    }
    let exp = big_shr(&big_sub(&p, &big_from_u32(3)), 2);
    big_modpow(a, &exp, &p)
}

/// `x` and `y` leave the same remainder modulo `m`.
pub open spec fn congruent(x: int, y: int, m: int) -> bool {
    x % m == y % m
}

/// A number is congruent to its remainder.
pub proof fn lemma_congruent_rem(x: int, m: int)
    requires
        m > 0,
    ensures
        congruent(x % m, x, m),
{
    lemma_mod_twice(x, m);
}

/// Sums of congruent numbers are congruent.
pub proof fn lemma_congruent_add(x1: int, y1: int, x2: int, y2: int, m: int)
    requires
        m > 0,
        congruent(x1, y1, m),
        congruent(x2, y2, m),
    ensures
        congruent(x1 + x2, y1 + y2, m),
{
    lemma_add_mod_noop(x1, x2, m);
    lemma_add_mod_noop(y1, y2, m);
}

/// Differences of congruent numbers are congruent.
pub proof fn lemma_congruent_sub(x1: int, y1: int, x2: int, y2: int, m: int)
    requires
        m > 0,
        congruent(x1, y1, m),
        congruent(x2, y2, m),
    ensures
        congruent(x1 - x2, y1 - y2, m),
{
    lemma_sub_mod_noop(x1, x2, m);
    lemma_sub_mod_noop(y1, y2, m);
}

/// Products of congruent numbers are congruent.
pub proof fn lemma_congruent_mul(x1: int, y1: int, x2: int, y2: int, m: int)
    requires
        m > 0,
        congruent(x1, y1, m),
        congruent(x2, y2, m),
    ensures
        congruent(x1 * x2, y1 * y2, m),
{
    lemma_mul_mod_noop_general(x1, x2, m);
    lemma_mul_mod_noop_general(y1, y2, m);
}

/// `(a · b) mod p`.
pub fn mul_mod(a: &Natural, b: &Natural, p: &Natural) -> (r: Natural)
    requires
        p@ > 0,
    ensures
        r@ == (a@ * b@) % p@,
        r@ < p@,
{
    proof {
        lemma_mod_bound((a@ * b@) as int, p@ as int);
    }
    big_rem(&big_mul(a, b), p)
}

/// `(a + b) mod p`.
pub fn add_mod(a: &Natural, b: &Natural, p: &Natural) -> (r: Natural)
    requires
        p@ > 0,
    ensures
        r@ == (a@ + b@) % p@,
        r@ < p@,
{
    proof {
        lemma_mod_bound((a@ + b@) as int, p@ as int);
    }
    big_rem(&big_add(a, b), p)
}

} // verus!
