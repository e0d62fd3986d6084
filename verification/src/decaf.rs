//! Decaf: a point's class as 56 bytes, and back.

use crate::bignum::{
    be_bytes, be_nat, big_add, big_from_u32, big_gt, big_is_zero, big_mul, big_rem, Natural,
};
use crate::curve::{pad_and_copy, Coords, ExtendedPoint};
use crate::modfield::{
    a, add_mod, congruent, edwards_d, edwards_d_number, half_prime, half_prime_number,
    inv_sqrt_power, inverse, lemma_congruent_add, lemma_congruent_mul, lemma_congruent_rem,
    lemma_congruent_sub, lemma_prime_shape, mod_inv, mod_inv_sqrt, mod_sqrt, mod_sub, mul_mod,
    prime, prime_number, sqrt_of, sub_mod,
};
use vstd::prelude::*;

verus! {

/// The residue of `-x`.
pub open spec fn negated(x: nat) -> nat {
    sub_mod(prime() as int, x as int, prime() as int) as nat
}

/// `(a - d)·(Z + Y)·(Z - Y)` with `a = 1`, reduced: zero exactly where the
/// encoding is all zeros.
pub open spec fn decaf_val(c: Coords) -> nat {
    (((1 - edwards_d()) * (c.z + c.y) * (c.z - c.y)) % (prime() as int)) as nat
}

/// The number `s` that encodes a point with a non-zero `decaf_val`. With
/// `r` the inverse square root of that value and `u = (a - d)·r`: `r` is
/// negated where `-2·u·Z` is above half the prime, then
/// `s = u·(r·(a·Z·X - d·Y·T) + Y) / a`, negated where it is above half the
/// prime.
pub open spec fn decaf_s(c: Coords) -> nat {
    let m = prime() as int;
    let d = edwards_d() as int;
    let r0 = inv_sqrt_power(decaf_val(c));
    let u = (((1 - d) * r0) % m) as nat;
    let r = if negated((2 * u * c.z) % prime()) > half_prime() {
        negated(r0)
    } else {
        r0
    };
    let s0 = ((u * (r * (c.z * c.x - d * c.y * c.t) + c.y) * inverse(1, prime())) % m) as nat;
    if s0 > half_prime() {
        negated(s0)
    } else {
        s0
    }
}

/// The 56 bytes that encode a point.
pub open spec fn decaf_encoding(c: Coords) -> Seq<u8> {
    if decaf_val(c) == 0 {
        Seq::new(56, |i: int| 0u8)
    } else {
        be_bytes(decaf_s(c), 56)
    }
}

/// The point that decoding makes of the number `s`, at most half the
/// prime; none where the square root that it needs does not exist.
pub open spec fn decaf_point(s: nat) -> Option<Coords> {
    let m = prime() as int;
    let ss = (s * s) % prime();
    let z = (1 + ss) % prime();
    let u = ((z * z - 4 * edwards_d() * ss) % m) as nat;
    let v0 = (u * ss) % prime();
    if v0 != 0 && sqrt_of(v0) is None {
        None
    } else {
        let v1 = if v0 == 0 {
            0
        } else {
            inverse(sqrt_of(v0).unwrap(), prime())
        };
        let v = if (u * v1) % prime() > half_prime() {
            negated(v1)
        } else {
            v1
        };
        let w0 = ((v * s * (2 - z)) % m) as nat;
        let w = if s == 0 {
            (w0 + 1) % prime()
        } else {
            w0
        };
        let x = (2 * s) % prime();
        Some(Coords { x, y: (w * z) % prime(), z, t: (w * x) % prime() })
    }
}

/// The point that 56 bytes decode to; none for another length, for a
/// number above half the prime, and where `decaf_point` has none.
pub open spec fn decaf_decoding(data: Seq<u8>) -> Option<Coords> {
    if data.len() != 56 || be_nat(data) > half_prime() {
        None
    } else {
        decaf_point(be_nat(data))
    }
}

fn compute_val(point: &ExtendedPoint, a_minus_d: &Natural, p: &Natural) -> (val: Natural)
    requires
        p@ == prime(),
        congruent(a_minus_d@ as int, 1 - edwards_d(), prime() as int),
    ensures
        val@ == decaf_val(point@),
{
    proof {
        lemma_prime_shape();
    }
    let ghost m = prime() as int;
    let ghost c = point@;
    let z_plus_y = add_mod(&point.z, &point.y, p);
    let z_minus_y = mod_sub(&point.z, &point.y, p);
    proof {
        lemma_congruent_rem((c.z + c.y) as int, m);
        lemma_congruent_rem(c.z - c.y, m);
        lemma_congruent_mul(
            a_minus_d@ as int,
            1 - edwards_d(),
            z_plus_y@ as int,
            (c.z + c.y) as int,
            m,
        );
        lemma_congruent_mul(
            (a_minus_d@ * z_plus_y@) as int,
            (1 - edwards_d()) * (c.z + c.y),
            z_minus_y@ as int,
            c.z - c.y,
            m,
        );
    }
    big_rem(&big_mul(&big_mul(a_minus_d, &z_plus_y), &z_minus_y), p)
}

fn compute_s(
    point: &ExtendedPoint,
    val: &Natural,
    a_minus_d: &Natural,
    p: &Natural,
    d: &Natural,
) -> (s: Natural)
    requires
        p@ == prime(),
        d@ == edwards_d(),
        congruent(a_minus_d@ as int, 1 - edwards_d(), prime() as int),
        val@ == decaf_val(point@),
    ensures
        s@ == decaf_s(point@),
        s@ < prime(),
{
    proof {
        lemma_prime_shape();
    }
    let ghost m = prime() as int;
    let ghost dv = edwards_d() as int;
    let ghost c = point@;
    let half = half_prime_number();
    let r0 = mod_inv_sqrt(val);
    let u = mul_mod(a_minus_d, &r0, p);
    proof {
        lemma_congruent_mul(a_minus_d@ as int, 1 - dv, r0@ as int, r0@ as int, m);
        assert(u@ == (((1 - dv) * r0@) % m) as nat);
    }
    let two_uz = big_rem(&big_mul(&big_mul(&big_from_u32(2), &u), &point.z), p);
    let neg_2uz = mod_sub(p, &two_uz, p);
    let r = if big_gt(&neg_2uz, &half) {
        mod_sub(p, &r0, p)
    } else {
        r0
    };
    let azx = big_rem(&big_mul(&big_mul(&a(), &point.z), &point.x), p);
    let dyt = big_rem(&big_mul(&big_mul(d, &point.y), &point.t), p);
    let diff = mod_sub(&azx, &dyt, p);
    let inner = big_rem(&big_add(&big_mul(&r, &diff), &point.y), p);
    let a_inv = mod_inv(&a(), p);
    let s0 = big_rem(&big_mul(&big_mul(&u, &inner), &a_inv), p);
    proof {
        let zx = (c.z * c.x) as int;
        let dyt_v = dv * c.y * c.t;
        assert(1 * c.z * c.x == zx) by (nonlinear_arith)
            requires
                zx == c.z * c.x,
        ;
        lemma_congruent_rem(zx, m);
        lemma_congruent_rem(dyt_v, m);
        lemma_congruent_sub(azx@ as int, zx, dyt@ as int, dyt_v, m);
        lemma_congruent_rem(azx@ - dyt@, m);
        assert(congruent(diff@ as int, zx - dyt_v, m));
        lemma_congruent_mul(r@ as int, r@ as int, diff@ as int, zx - dyt_v, m);
        lemma_congruent_add((r@ * diff@) as int, r@ * (zx - dyt_v), c.y as int, c.y as int, m);
        lemma_congruent_rem((r@ * diff@ + c.y) as int, m);
        assert(congruent(inner@ as int, r@ * (zx - dyt_v) + c.y, m));
        lemma_congruent_mul(u@ as int, u@ as int, inner@ as int, r@ * (zx - dyt_v) + c.y, m);
        lemma_congruent_mul(
            (u@ * inner@) as int,
            u@ * (r@ * (zx - dyt_v) + c.y),
            a_inv@ as int,
            a_inv@ as int,
            m,
        );
        vstd::arithmetic::div_mod::lemma_mod_bound((u@ * inner@ * a_inv@) as int, m);
    }
    if big_gt(&s0, &half) {
        mod_sub(p, &s0, p)
    } else {
        s0
    }
}

/// Encodes a point as 56 bytes.
pub fn decaf_encode(point: &ExtendedPoint) -> (bytes: [u8; 56])
    ensures
        bytes@ == decaf_encoding(point@),
{
    proof {
        lemma_prime_shape();
    }
    let p = prime_number();
    let d = edwards_d_number();
    let a_minus_d = mod_sub(&a(), &d, &p);
    let val = compute_val(point, &a_minus_d, &p);
    let mut result: [u8; 56] = [0u8; 56];
    if big_is_zero(&val) {
        assert(result@ =~= decaf_encoding(point@));
        return result;
    }
    let s = compute_s(point, &val, &a_minus_d, &p, &d);
    let s_bytes = s.to_bytes_be();
    pad_and_copy(s_bytes.as_slice(), &mut result);
    result
}

fn decode_number(s: &Natural, p: &Natural) -> (r: Option<ExtendedPoint>)
    requires
        p@ == prime(),
    ensures
        match r {
            Some(point) => decaf_point(s@) == Some(point@),
            None => decaf_point(s@) is None,
        },
{
    proof {
        lemma_prime_shape();
    }
    let ghost m = prime() as int;
    let d = edwards_d_number();
    let half = half_prime_number();
    let ss = mul_mod(s, s, p);
    let z = big_rem(&big_add(&big_from_u32(1), &big_mul(&a(), &ss)), p);
    assert(z@ == (1 + ss@) % prime());
    let zz = mul_mod(&z, &z, p);
    let four_d_ss = big_rem(&big_mul(&big_mul(&big_from_u32(4), &d), &ss), p);
    let u = mod_sub(&zz, &four_d_ss, p);
    proof {
        lemma_congruent_rem((z@ * z@) as int, m);
        lemma_congruent_rem((4 * edwards_d() * ss@) as int, m);
        lemma_congruent_sub(
            zz@ as int,
            (z@ * z@) as int,
            four_d_ss@ as int,
            (4 * edwards_d() * ss@) as int,
            m,
        );
        lemma_congruent_rem(zz@ - four_d_ss@, m);
        assert(u@ == ((z@ * z@ - 4 * edwards_d() * ss@) % m) as nat);
    }
    let v0 = mul_mod(&u, &ss, p);
    let v1 = if big_is_zero(&v0) {
        v0
    } else {
        match mod_sqrt(&v0) {
            Some(root) => mod_inv(&root, p),
            None => {
                return None;
            },
        }
    };
    let uv = mul_mod(&u, &v1, p);
    let v = if big_gt(&uv, &half) {
        mod_sub(p, &v1, p)
    } else {
        v1
    };
    let two_minus_z = mod_sub(&big_from_u32(2), &z, p);
    let w0 = big_rem(&big_mul(&big_mul(&v, s), &two_minus_z), p);
    proof {
        lemma_congruent_rem(2 - z@, m);
        lemma_congruent_mul((v@ * s@) as int, (v@ * s@) as int, two_minus_z@ as int, 2 - z@, m);
        assert(w0@ == ((v@ * s@ * (2 - z@)) % m) as nat);
    }
    let w = if big_is_zero(s) {
        add_mod(&w0, &big_from_u32(1), p)
    } else {
        w0
    };
    let x = mul_mod(&big_from_u32(2), s, p);
    let y = mul_mod(&w, &z, p);
    let t = mul_mod(&w, &x, p);
    Some(ExtendedPoint { x, y, z, t })
}

/// Decodes 56 bytes to a point; none where they encode no point.
pub fn decaf_decode(data: &[u8]) -> (r: Option<ExtendedPoint>)
    ensures
        match r {
            Some(point) => decaf_decoding(data@) == Some(point@),
            None => decaf_decoding(data@) is None,
        },
{
    if data.len() != 56 {
        return None;
    }
    let s = Natural::from_bytes_be(data);
    if big_gt(&s, &half_prime_number()) {
        return None;
    }
    decode_number(&s, &prime_number())
}

} // verus!
