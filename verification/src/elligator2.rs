//! Elligator2: a map from 56 bytes of hash output to a point of the curve.

use crate::bignum::{be_nat, big_add, big_from_u32, big_is_zero, big_mul, big_rem, big_sub, Natural};
use crate::curve::{Coords, ExtendedPoint};
use crate::modfield::{
    a, add_mod, congruent, edwards_d, edwards_d_number, inv_sqrt_power, inverse, legendre,
    legendre_symbol, lemma_congruent_add, lemma_congruent_mul, lemma_congruent_rem,
    lemma_congruent_sub, lemma_prime_shape, mod_inv, mod_inv_sqrt, mod_sqrt, mod_sub, mul_mod,
    prime, prime_number, sqrt_of,
};
use vstd::prelude::*;

verus! {

/// The first number from `from` on, below `limit`, whose Legendre symbol
/// modulo the prime is -1; `limit` where there is none.
pub open spec fn least_non_residue(from: nat, limit: nat) -> nat
    decreases limit - from,
{
    if from >= limit || legendre(from, prime()) == -1 {
        from
    } else {
        least_non_residue(from + 1, limit)
    }
}

/// The non-residue that the map works with: the smallest from 2 on. The
/// search ends below two to the 32 whatever the prime.
pub open spec fn non_residue() -> nat {
    least_non_residue(2, 0xffff_ffff)
}

/// `r = n·r0²`, reduced.
pub open spec fn stage_r(r0: nat) -> nat {
    (non_residue() * r0 * r0) % prime()
}

/// `D = (d·r + a - d)·(d·r - a·r - d)` with `a = 1`, reduced.
pub open spec fn stage_d(r: nat) -> nat {
    let d = edwards_d() as int;
    (((d * r + 1 - d) * (d * r - r - d)) % (prime() as int)) as nat
}

/// `N = (r + 1)·(a - 2·d)` with `a = 1`, reduced.
pub open spec fn stage_n(r: nat) -> nat {
    (((r + 1) * (1 - 2 * edwards_d())) % (prime() as int)) as nat
}

/// The pair `(c, e)`, chosen by what `N·D` is: zero, a square, or neither.
pub open spec fn stage_ce(r0: nat, nd: nat) -> (nat, nat) {
    if nd == 0 {
        (1, 0)
    } else {
        match sqrt_of(nd) {
            Some(root) => (1, inverse(root, prime())),
            None => (
                (prime() - 1) as nat,
                (non_residue() * r0 * inv_sqrt_power((non_residue() * nd) % prime())) % prime(),
            ),
        }
    }
}

/// `s = c·N·e`, reduced.
pub open spec fn stage_s(c: nat, n: nat, e: nat) -> nat {
    (c * n * e) % prime()
}

/// `t = -c·N·(r - 1)·((a - 2·d)·e)² - 1` with `a = 1`, reduced.
pub open spec fn stage_t(c: nat, n: nat, r: nat, e: nat) -> nat {
    let k = (1 - 2 * edwards_d()) * e;
    (((-(c as int)) * n * (r - 1) * (k * k) - 1) % (prime() as int)) as nat
}

/// The point that `(s, t)` stands for:
/// `(2·s·t, (1 - s²)·(1 + s²), (1 + s²)·t, 2·s·(1 - s²))`, reduced.
pub open spec fn lifted(s: nat, t: nat) -> Coords {
    let m = prime() as int;
    Coords {
        x: (2 * s * t) % prime(),
        y: (((1 - s * s) * (1 + s * s)) % m) as nat,
        z: ((1 + s * s) * t) % prime(),
        t: ((2 * s * (1 - s * s)) % m) as nat,
    }
}

/// The point that the map makes of the number `r0`.
pub open spec fn elligator2_of(r0: nat) -> Coords {
    let r = stage_r(r0);
    let n = stage_n(r);
    let nd = (n * stage_d(r)) % prime();
    let (c, e) = stage_ce(r0, nd);
    lifted(stage_s(c, n, e), stage_t(c, n, r, e))
}

/// The point that the map makes of a hash: of the number that its bytes
/// hold, highest first, reduced modulo the prime.
pub open spec fn elligator2_point(hash: Seq<u8>) -> Coords {
    elligator2_of(be_nat(hash) % prime())
}

/// Searches for the smallest non-residue from 2 on.
pub fn smallest_non_residue() -> (n: u32)
    ensures
        n == non_residue(),
{
    proof {
        lemma_prime_shape();
    }
    let p = prime_number();
    let mut n: u32 = 2;
    while n < 0xffff_ffff
        invariant
            2 <= n <= 0xffff_ffff,
            p@ == prime(),
            p@ >= 2,
            least_non_residue(n as nat, 0xffff_ffff) == non_residue(),
        decreases 0xffff_ffff - n,
    {
        if legendre_symbol(&big_from_u32(n), &p) == -1 {
            return n;
        }
        n += 1;
    }
    n
}

fn compute_d(r: &Natural, p: &Natural, d: &Natural) -> (d_val: Natural)
    requires
        p@ == prime(),
        d@ == edwards_d(),
    ensures
        d_val@ == stage_d(r@),
{
    proof {
        lemma_prime_shape();
    }
    let ghost m = prime() as int;
    let ghost dv = edwards_d() as int;
    let ghost rv = r@ as int;
    let dr = mul_mod(d, r, p);
    let a_minus_d = mod_sub(&a(), d, p);
    let term1 = add_mod(&dr, &a_minus_d, p);
    let ar = mul_mod(&a(), r, p);
    let dr_ar = mod_sub(&dr, &ar, p);
    let term2 = mod_sub(&dr_ar, d, p);
    proof {
        lemma_congruent_rem(dv * rv, m);
        lemma_congruent_rem(1 - dv, m);
        lemma_congruent_add(dr@ as int, dv * rv, a_minus_d@ as int, 1 - dv, m);
        lemma_congruent_rem((dr@ + a_minus_d@) as int, m);
        assert(congruent(term1@ as int, dv * rv + 1 - dv, m));
        assert(1 * rv == rv);
        lemma_congruent_rem(rv, m);
        lemma_congruent_sub(dr@ as int, dv * rv, ar@ as int, rv, m);
        lemma_congruent_rem(dr@ - ar@, m);
        assert(congruent(dr_ar@ as int, dv * rv - rv, m));
        lemma_congruent_sub(dr_ar@ as int, dv * rv - rv, dv, dv, m);
        lemma_congruent_rem(dr_ar@ - dv, m);
        assert(congruent(term2@ as int, dv * rv - rv - dv, m));
        lemma_congruent_mul(
            term1@ as int,
            dv * rv + 1 - dv,
            term2@ as int,
            dv * rv - rv - dv,
            m,
        );
    }
    mul_mod(&term1, &term2, p)
}

/// `(a - 2·d) mod p` with `a = 1`.
fn one_less_two_d(p: &Natural, d: &Natural) -> (k: Natural)
    requires
        p@ == prime(),
        d@ == edwards_d(),
    ensures
        congruent(k@ as int, 1 - 2 * edwards_d(), prime() as int),
        k@ < prime(),
{
    proof {
        lemma_prime_shape();
    }
    let ghost m = prime() as int;
    let two_d = mul_mod(&big_from_u32(2), d, p);
    let k = mod_sub(&a(), &two_d, p);
    proof {
        lemma_congruent_rem(2 * edwards_d() as int, m);
        lemma_congruent_sub(1, 1, two_d@ as int, 2 * edwards_d() as int, m);
        lemma_congruent_rem(1 - two_d@, m);
    }
    k
}

fn compute_n(r: &Natural, a_2d: &Natural, p: &Natural) -> (n_val: Natural)
    requires
        p@ == prime(),
        congruent(a_2d@ as int, 1 - 2 * edwards_d(), prime() as int),
    ensures
        n_val@ == stage_n(r@),
{
    proof {
        lemma_prime_shape();
        lemma_congruent_mul(
            (r@ + 1) as int,
            (r@ + 1) as int,
            a_2d@ as int,
            1 - 2 * edwards_d(),
            prime() as int,
        );
    }
    mul_mod(&big_add(r, &big_from_u32(1)), a_2d, p)
}

fn compute_ce(r0: &Natural, n: &Natural, nd: &Natural, p: &Natural) -> (ce: (Natural, Natural))
    requires
        p@ == prime(),
        n@ == non_residue(),
    ensures
        (ce.0@, ce.1@) == stage_ce(r0@, nd@),
{
    proof {
        lemma_prime_shape();
    }
    if big_is_zero(nd) {
        (big_from_u32(1), big_from_u32(0))
    } else {
        match mod_sqrt(nd) {
            Some(root) => (big_from_u32(1), mod_inv(&root, p)),
            None => {
                let n_nd = mul_mod(n, nd, p);
                let c = big_sub(p, &big_from_u32(1));
                let e = big_rem(&big_mul(&big_mul(n, r0), &mod_inv_sqrt(&n_nd)), p);
                (c, e)
            },
        }
    }
}

fn compute_t(
    c: &Natural,
    n_val: &Natural,
    r: &Natural,
    e: &Natural,
    a_2d: &Natural,
    p: &Natural,
) -> (t: Natural)
    requires
        p@ == prime(),
        congruent(a_2d@ as int, 1 - 2 * edwards_d(), prime() as int),
    ensures
        t@ == stage_t(c@, n_val@, r@, e@),
{
    proof {
        lemma_prime_shape();
    }
    let ghost m = prime() as int;
    let ghost k = (1 - 2 * edwards_d()) * e@;
    let r_minus_1 = mod_sub(r, &big_from_u32(1), p);
    let a2d_e = mul_mod(a_2d, e, p);
    let a2d_e2 = mul_mod(&a2d_e, &a2d_e, p);
    let neg_c = mod_sub(p, c, p);
    let prod = big_rem(&big_mul(&big_mul(&big_mul(&neg_c, n_val), &r_minus_1), &a2d_e2), p);
    let t = mod_sub(&prod, &big_from_u32(1), p);
    proof {
        lemma_congruent_rem(r@ - 1, m);
        lemma_congruent_mul(a_2d@ as int, 1 - 2 * edwards_d(), e@ as int, e@ as int, m);
        lemma_congruent_rem((a_2d@ * e@) as int, m);
        assert(congruent(a2d_e@ as int, k, m));
        lemma_congruent_mul(a2d_e@ as int, k, a2d_e@ as int, k, m);
        lemma_congruent_rem((a2d_e@ * a2d_e@) as int, m);
        assert(congruent(a2d_e2@ as int, k * k, m));
        lemma_congruent_rem(m - c@, m);
        assert(congruent(m - c@, -(c@ as int), m)) by {
            vstd::arithmetic::div_mod::lemma_mod_add_multiples_vanish(-(c@ as int), m);
        }
        assert(congruent(neg_c@ as int, -(c@ as int), m));
        lemma_congruent_mul(neg_c@ as int, -(c@ as int), n_val@ as int, n_val@ as int, m);
        lemma_congruent_mul(
            (neg_c@ * n_val@) as int,
            (-(c@ as int)) * n_val@,
            r_minus_1@ as int,
            r@ - 1,
            m,
        );
        lemma_congruent_mul(
            (neg_c@ * n_val@ * r_minus_1@) as int,
            (-(c@ as int)) * n_val@ * (r@ - 1),
            a2d_e2@ as int,
            k * k,
            m,
        );
        lemma_congruent_rem((neg_c@ * n_val@ * r_minus_1@ * a2d_e2@) as int, m);
        lemma_congruent_sub(
            prod@ as int,
            (-(c@ as int)) * n_val@ * (r@ - 1) * (k * k),
            1,
            1,
            m,
        );
        lemma_congruent_rem(prod@ - 1, m);
    }
    t
}

fn lift(s: &Natural, t: &Natural, p: &Natural) -> (r: ExtendedPoint)
    requires
        p@ == prime(),
    ensures
        r@ == lifted(s@, t@),
{
    proof {
        lemma_prime_shape();
    }
    let ghost m = prime() as int;
    let ghost ss = (s@ * s@) as int;
    let two = big_from_u32(2);
    let ass = big_rem(&big_mul(&big_mul(&a(), s), s), p);
    let one_minus_ass = mod_sub(&big_from_u32(1), &ass, p);
    let one_plus_ass = add_mod(&big_from_u32(1), &ass, p);
    proof {
        assert(1 * s@ * s@ == ss) by (nonlinear_arith)
            requires
                ss == s@ * s@,
        ;
        lemma_congruent_rem(ss, m);
        lemma_congruent_sub(1, 1, ass@ as int, ss, m);
        lemma_congruent_rem(1 - ass@, m);
        assert(congruent(one_minus_ass@ as int, 1 - ss, m));
        lemma_congruent_add(1, 1, ass@ as int, ss, m);
        lemma_congruent_rem((1 + ass@) as int, m);
        assert(congruent(one_plus_ass@ as int, 1 + ss, m));
        lemma_congruent_mul(one_minus_ass@ as int, 1 - ss, one_plus_ass@ as int, 1 + ss, m);
        lemma_congruent_mul(one_plus_ass@ as int, 1 + ss, t@ as int, t@ as int, m);
        lemma_congruent_mul((2 * s@) as int, (2 * s@) as int, one_minus_ass@ as int, 1 - ss, m);
    }
    ExtendedPoint {
        x: big_rem(&big_mul(&big_mul(&two, s), t), p),
        y: mul_mod(&one_minus_ass, &one_plus_ass, p),
        z: mul_mod(&one_plus_ass, t, p),
        t: big_rem(&big_mul(&big_mul(&two, s), &one_minus_ass), p),
    }
}

/// Maps a hash to a point of the curve.
pub fn elligator2_hash_to_point(hash: &[u8]) -> (point: ExtendedPoint)
    ensures
        point@ == elligator2_point(hash@),
{
    proof {
        lemma_prime_shape();
    }
    let p = prime_number();
    let d = edwards_d_number();
    let r0 = big_rem(&Natural::from_bytes_be(hash), &p);
    let n = big_from_u32(smallest_non_residue());
    let r = big_rem(&big_mul(&big_mul(&n, &r0), &r0), &p);
    let d_val = compute_d(&r, &p, &d);
    let a_2d = one_less_two_d(&p, &d);
    let n_val = compute_n(&r, &a_2d, &p);
    let nd = mul_mod(&n_val, &d_val, &p);
    let (c, e) = compute_ce(&r0, &n, &nd, &p);
    let s = big_rem(&big_mul(&big_mul(&c, &n_val), &e), &p);
    let t = compute_t(&c, &n_val, &r, &e, &a_2d, &p);
    lift(&s, &t, &p)
}

} // verus!
