//! The Goldilocks curve in extended coordinates: `x² + y² = 1 + d·x²·y²`,
//! a point being `(X, Y, Z, T)` with `x = X/Z`, `y = Y/Z` and `X·Y = T·Z`.

use crate::bignum::{
    be_bytes, be_nat, big_add, big_bit, big_bits, big_from_u32, big_mul, big_rem, bit_length,
    bit_of, lemma_be_bytes_of_be_nat, right_aligned, Natural,
};
use crate::p9sk1::put;
use crate::modfield::{
    a, congruent, edwards_d, edwards_d_number, generator_x, generator_y, lemma_congruent_add,
    lemma_congruent_mul, lemma_congruent_rem, lemma_congruent_sub, lemma_prime_shape, mod_sub,
    prime, prime_number, sub_mod,
};
use vstd::arithmetic::div_mod::lemma_fundamental_div_mod_converse;
use vstd::prelude::*;

verus! {

/// The four coordinates of a point, as numbers.
pub struct Coords {
    pub x: nat,
    pub y: nat,
    pub z: nat,
    pub t: nat,
}

/// A point in extended coordinates.
#[derive(Debug)]
pub struct ExtendedPoint {
    pub x: Natural,
    pub y: Natural,
    pub z: Natural,
    pub t: Natural,
}

impl View for ExtendedPoint {
    type V = Coords;

    open spec fn view(&self) -> Coords {
        Coords { x: self.x@, y: self.y@, z: self.z@, t: self.t@ }
    }
}

impl Clone for ExtendedPoint {
    fn clone(&self) -> (r: Self)
        ensures
            r@ == self@,
    {
        ExtendedPoint {
            x: self.x.clone(),
            y: self.y.clone(),
            z: self.z.clone(),
            t: self.t.clone(),
        }
    }
}

/// The neutral point `(0, 1, 1, 0)`.
pub open spec fn identity_point() -> Coords {
    Coords { x: 0, y: 1, z: 1, t: 0 }
}

/// The point with affine coordinates `(x, y)`: `(x, y, 1, x·y mod p)`.
pub open spec fn affine_point(x: nat, y: nat) -> Coords {
    Coords { x, y, z: 1, t: (x * y) % prime() }
}

/// The sum of two points by the unified addition formula, every
/// coordinate reduced modulo the prime.
pub open spec fn point_sum(p1: Coords, p2: Coords) -> Coords {
    let m = prime() as int;
    let a = p1.x * p2.x;
    let b = p1.y * p2.y;
    let c = edwards_d() * p1.t * p2.t;
    let d = p1.z * p2.z;
    let e = (p1.x + p1.y) * (p2.x + p2.y) - a - b;
    let f = d - c;
    let g = d + c;
    let h = b - a;
    Coords {
        x: ((e * f) % m) as nat,
        y: ((g * h) % m) as nat,
        z: ((f * g) % m) as nat,
        t: ((e * h) % m) as nat,
    }
}

/// The negative of a point: `(-X, Y, Z, -T)`, the two negated coordinates
/// reduced modulo the prime.
pub open spec fn point_neg(p: Coords) -> Coords {
    Coords {
        x: sub_mod(prime() as int, p.x as int, prime() as int) as nat,
        y: p.y,
        z: p.z,
        t: sub_mod(prime() as int, p.t as int, prime() as int) as nat,
    }
}

/// The difference of two points: the first plus the negative of the second.
pub open spec fn point_difference(p1: Coords, p2: Coords) -> Coords {
    point_sum(p1, point_neg(p2))
}

impl ExtendedPoint {
    /// The neutral point.
    pub fn identity() -> (r: Self)
        ensures
            r@ == identity_point(),
    {
        ExtendedPoint {
            x: big_from_u32(0),
            y: big_from_u32(1),
            z: big_from_u32(1),
            t: big_from_u32(0),
        }
    }

    /// The point with the affine coordinates `(x, y)`.
    pub fn from_affine(x: &Natural, y: &Natural) -> (r: Self)
        ensures
            r@ == affine_point(x@, y@),
    {
        proof {
            lemma_prime_shape();
        }
        ExtendedPoint {
            x: x.clone(),
            y: y.clone(),
            z: big_from_u32(1),
            t: big_rem(&big_mul(x, y), &prime_number()),
        }
    }
}

/// Adds two points by the unified addition formula.
pub fn add_points(p1: &ExtendedPoint, p2: &ExtendedPoint) -> (r: ExtendedPoint)
    ensures
        r@ == point_sum(p1@, p2@),
{
    proof {
        lemma_prime_shape();
    }
    let p = prime_number();
    let d = edwards_d_number();
    let ghost m = prime() as int;
    let ghost sa: int = (p1@.x * p2@.x) as int;
    let ghost sb: int = (p1@.y * p2@.y) as int;
    let ghost sc: int = (edwards_d() * p1@.t * p2@.t) as int;
    let ghost sd: int = (p1@.z * p2@.z) as int;
    let ghost su: int = ((p1@.x + p1@.y) * (p2@.x + p2@.y)) as int;
    let aa = big_rem(&big_mul(&p1.x, &p2.x), &p);
    let bb = big_rem(&big_mul(&p1.y, &p2.y), &p);
    let cc = big_rem(&big_mul(&big_mul(&d, &p1.t), &p2.t), &p);
    let dd = big_rem(&big_mul(&p1.z, &p2.z), &p);
    let u = big_rem(&big_mul(&big_add(&p1.x, &p1.y), &big_add(&p2.x, &p2.y)), &p);
    let ab = big_rem(&big_add(&aa, &bb), &p);
    let e = mod_sub(&u, &ab, &p);
    let f = mod_sub(&dd, &cc, &p);
    let g = big_rem(&big_add(&dd, &cc), &p);
    let a_aa = big_rem(&big_mul(&a(), &aa), &p);
    let h = mod_sub(&bb, &a_aa, &p);
    proof {
        lemma_congruent_rem(sa, m);
        lemma_congruent_rem(sb, m);
        lemma_congruent_rem(sc, m);
        lemma_congruent_rem(sd, m);
        lemma_congruent_rem(su, m);
        lemma_congruent_add(aa@ as int, sa, bb@ as int, sb, m);
        lemma_congruent_rem((aa@ + bb@) as int, m);
        lemma_congruent_sub(u@ as int, su, ab@ as int, sa + sb, m);
        lemma_congruent_rem(u@ - ab@, m);
        assert(congruent(e@ as int, su - sa - sb, m));
        lemma_congruent_sub(dd@ as int, sd, cc@ as int, sc, m);
        lemma_congruent_rem(dd@ - cc@, m);
        assert(congruent(f@ as int, sd - sc, m));
        lemma_congruent_add(dd@ as int, sd, cc@ as int, sc, m);
        lemma_congruent_rem((dd@ + cc@) as int, m);
        assert(congruent(g@ as int, sd + sc, m));
        assert(1 * aa@ == aa@);
        lemma_congruent_rem(aa@ as int, m);
        lemma_congruent_sub(bb@ as int, sb, a_aa@ as int, sa, m);
        lemma_congruent_rem(bb@ - a_aa@, m);
        assert(congruent(h@ as int, sb - sa, m));
        lemma_congruent_mul(e@ as int, su - sa - sb, f@ as int, sd - sc, m);
        lemma_congruent_mul(g@ as int, sd + sc, h@ as int, sb - sa, m);
        lemma_congruent_mul(f@ as int, sd - sc, g@ as int, sd + sc, m);
        lemma_congruent_mul(e@ as int, su - sa - sb, h@ as int, sb - sa, m);
    }
    ExtendedPoint {
        x: big_rem(&big_mul(&e, &f), &p),
        y: big_rem(&big_mul(&g, &h), &p),
        z: big_rem(&big_mul(&f, &g), &p),
        t: big_rem(&big_mul(&e, &h), &p),
    }
}

/// Subtracts the second point from the first.
pub fn subtract_points(p1: &ExtendedPoint, p2: &ExtendedPoint) -> (r: ExtendedPoint)
    ensures
        r@ == point_difference(p1@, p2@),
{
    proof {
        lemma_prime_shape();
    }
    let p = prime_number();
    let neg_p2 = ExtendedPoint {
        x: mod_sub(&p, &p2.x, &p),
        y: p2.y.clone(),
        z: p2.z.clone(),
        t: mod_sub(&p, &p2.t, &p),
    };
    add_points(p1, &neg_p2)
}

/// A point doubled `i` times.
pub open spec fn doubled(p: Coords, i: nat) -> Coords
    decreases i,
{
    if i == 0 {
        p
    } else {
        let q = doubled(p, (i - 1) as nat);
        point_sum(q, q)
    }
}

/// What double-and-add has gathered after the lowest `n` bits of `k`:
/// starting from the neutral point, bit `i` adds the point doubled `i` times
/// where it is set.
pub open spec fn multiple_low(p: Coords, k: nat, n: nat) -> Coords
    decreases n,
{
    if n == 0 {
        identity_point()
    } else {
        let prev = multiple_low(p, k, (n - 1) as nat);
        if bit_of(k, (n - 1) as nat) {
            point_sum(prev, doubled(p, (n - 1) as nat))
        } else {
            prev
        }
    }
}

/// The multiple `k·p` as double-and-add computes it over all bits of `k`.
pub open spec fn scalar_multiple(p: Coords, k: nat) -> Coords {
    multiple_low(p, k, bit_length(k))
}

/// Multiplies a point by a scalar with double-and-add, from the lowest bit
/// of the scalar to its highest.
pub fn scalar_mult(point: &ExtendedPoint, scalar: &Natural) -> (r: ExtendedPoint)
    ensures
        r@ == scalar_multiple(point@, scalar@),
{
    let mut result = ExtendedPoint::identity();
    let mut temp = point.clone();
    let bits: u64 = big_bits(scalar);
    let mut i: u64 = 0;
    while i < bits
        invariant
            i <= bits,
            bits == bit_length(scalar@),
            result@ == multiple_low(point@, scalar@, i as nat),
            temp@ == doubled(point@, i as nat),
        decreases bits - i,
    {
        if big_bit(scalar, i) {
            result = add_points(&result, &temp);
        }
        temp = add_points(&temp, &temp);
        i += 1;
    }
    result
}

/// Fits `src` into `dest` from the right: zeros in front where `src` is
/// shorter, the last bytes of `src` where it is longer. As numbers, highest
/// byte first, `dest` then holds the lowest bytes of what `src` holds.
pub fn pad_and_copy(src: &[u8], dest: &mut [u8])
    ensures
        final(dest)@ == be_bytes(be_nat(src@), old(dest).len() as nat),
{
    let width: usize = dest.len();
    let len: usize = src.len();
    let start: usize = if width > len {
        width - len
    } else {
        0
    };
    let src_start: usize = if len > width {
        len - width
    } else {
        0
    };
    let mut i: usize = 0;
    while i < width
        invariant
            i <= width,
            dest@.len() == width,
            src@.len() == len,
            start == if width > len {
                width - len
            } else {
                0
            },
            src_start == if len > width {
                len - width
            } else {
                0
            },
            forall|j: int| 0 <= j < i ==> dest@[j] == right_aligned(src@, width as nat)[j],
        decreases width - i,
    {
        dest[i] = if i < start {
            0u8
        } else {
            src[src_start + (i - start)]
        };
        i += 1;
    }
    proof {
        lemma_be_bytes_of_be_nat(src@, width as nat);
        assert(dest@ =~= right_aligned(src@, width as nat));
    }
}

/// The 224 bytes of a point: its four coordinates in turn, each as 56
/// bytes, highest first.
pub open spec fn point_bytes(c: Coords) -> Seq<u8> {
    be_bytes(c.x, 56) + be_bytes(c.y, 56) + be_bytes(c.z, 56) + be_bytes(c.t, 56)
}

/// The point that 224 bytes hold: four coordinates of 56 bytes each.
pub open spec fn point_of_bytes(data: Seq<u8>) -> Coords {
    Coords {
        x: be_nat(data.subrange(0, 56)),
        y: be_nat(data.subrange(56, 112)),
        z: be_nat(data.subrange(112, 168)),
        t: be_nat(data.subrange(168, 224)),
    }
}

pub(crate) fn limb_of(n: &Natural) -> (limb: [u8; 56])
    ensures
        limb@ == be_bytes(n@, 56),
{
    let bytes = n.to_bytes_be();
    let mut limb: [u8; 56] = [0u8; 56];
    pad_and_copy(bytes.as_slice(), &mut limb);
    limb
}

/// Writes the four coordinates of a point to the first 224 bytes of
/// `output`, each as 56 bytes; what follows them stays as it was.
pub fn encode_extended_point(p: &ExtendedPoint, output: &mut [u8])
    requires
        old(output).len() >= 224,
    ensures
        final(output)@ == point_bytes(p@) + old(output)@.subrange(224, old(output).len() as int),
{
    let ghost before = output@;
    let x = limb_of(&p.x);
    let y = limb_of(&p.y);
    let z = limb_of(&p.z);
    let t = limb_of(&p.t);
    put(output, 0, &x);
    put(output, 56, &y);
    put(output, 112, &z);
    put(output, 168, &t);
    assert(output@ =~= point_bytes(p@) + before.subrange(224, before.len() as int));
}

/// Reads a point from the first 224 bytes of `data`.
pub fn decode_extended_point(data: &[u8]) -> (r: ExtendedPoint)
    requires
        data.len() >= 224,
    ensures
        r@ == point_of_bytes(data@),
{
    ExtendedPoint {
        x: Natural::from_bytes_be(&data[0..56]),
        y: Natural::from_bytes_be(&data[56..112]),
        z: Natural::from_bytes_be(&data[112..168]),
        t: Natural::from_bytes_be(&data[168..224]),
    }
}

/// The curve's generator.
pub open spec fn generator_point() -> Coords {
    affine_point(generator_x(), generator_y())
}

/// The coordinates satisfy the curve equation in its extended form,
/// `X² + Y² = Z² + d·T²` and `X·Y = Z·T`, both modulo the prime. For
/// `Z = 1` this is `x² + y² = 1 + d·x²·y²`.
pub open spec fn on_curve(c: Coords) -> bool {
    let m = prime() as int;
    &&& congruent(
        (c.x * c.x + c.y * c.y) as int,
        (c.z * c.z + edwards_d() * c.t * c.t) as int,
        m,
    )
    &&& congruent((c.x * c.y) as int, (c.z * c.t) as int, m)
}

/// The generator satisfies the curve equation.
pub proof fn lemma_generator_on_curve()
    ensures
        on_curve(generator_point()),
        (generator_x() * generator_x() + generator_y() * generator_y()) % prime() == (1
            + edwards_d() * (generator_x() * generator_x()) * (generator_y() * generator_y()))
            % prime(),
{
    let p = prime() as int;
    let d = edwards_d() as int;
    let gx = generator_x() as int;
    let gx2: int = 0x6b9ce2dcbfe94cc27d5472934061cb2449b90a1b3e2d336daef849a3a3fc3fb996b1761ffbc72243dfce6096d409d3616e2f95f74e5d63a80514be60448d156fb7f6000382584faf14df0356fbc5324d2dd38e602db14af9f9b39b00077aca0d5a9bb8c81b4d0c54d9f6bfb1585fcc1int;
    assert(gx * gx == gx2) by (nonlinear_arith)
        requires
            gx == 0x297ea0ea2692ff1b4faff46098453a6a26adf733245f065c3c59d0709cecfa96147eaaf3932d94c63d96c170033f4ba0c7f0de840aed939fint,
            gx2 == 0x6b9ce2dcbfe94cc27d5472934061cb2449b90a1b3e2d336daef849a3a3fc3fb996b1761ffbc72243dfce6096d409d3616e2f95f74e5d63a80514be60448d156fb7f6000382584faf14df0356fbc5324d2dd38e602db14af9f9b39b00077aca0d5a9bb8c81b4d0c54d9f6bfb1585fcc1int,
    ;
    let t: int = 0x1465f160dce8ef06ea0f232b4d2355e0dee958cbb30d78d87aaa785ea59699238566b013ec620ab692305b503db29ceed6e083cccfa1f4d0int;
    assert(gx * 19 == 0x3int * p + t);
    lemma_fundamental_div_mod_converse(gx * 19, p, 0x3int, t);
    let dt: int = 0x1465f160dce8ef06ea0f232b4d2355e0dee958cbb30d78d87aaa785e9130a7c2a87dc10d0252e78b450d056f5ec9442323d30af454f770474765995f79fe7a5ba8aee4bb395b19012e9f797c426cb39c83b1ea049f11373471433e6ad0887bf635abb814fa35f9d000a6deb5f517ede0int;
    assert(d * t == dt) by (nonlinear_arith)
        requires
            d == 0xfffffffffffffffffffffffffffffffffffffffffffffffffffffffeffffffffffffffffffffffffffffffffffffffffffffffffffff6756int,
            t == 0x1465f160dce8ef06ea0f232b4d2355e0dee958cbb30d78d87aaa785ea59699238566b013ec620ab692305b503db29ceed6e083cccfa1f4d0int,
            dt == 0x1465f160dce8ef06ea0f232b4d2355e0dee958cbb30d78d87aaa785e9130a7c2a87dc10d0252e78b450d056f5ec9442323d30af454f770474765995f79fe7a5ba8aee4bb395b19012e9f797c426cb39c83b1ea049f11373471433e6ad0887bf635abb814fa35f9d000a6deb5f517ede0int,
    ;
    let dtt: int = 0x1a0164f7c8a39baaf6686168dca741d85e6df40788b0347dbc32b56bb2758ebe8873928e36501c13d87ce91517f3932f6946299fe8b01917039d4802d6a4d48c0c77c984029c73a1b4adce3c6c2ecb76c1b55cfd36d5a935ff2211631f8e5747464d7ffbf49cf7743956f77bcd5b806da8d2e5852a18a89802ede1d6bea8dad5fe61d94ded571d62224d74884fe82ff30fb57fd604b6e1b6eaf25932449421ab7430d56ac0ac600int;
    assert(dt * t == dtt) by (nonlinear_arith)
        requires
            t == 0x1465f160dce8ef06ea0f232b4d2355e0dee958cbb30d78d87aaa785ea59699238566b013ec620ab692305b503db29ceed6e083cccfa1f4d0int,
            dt == 0x1465f160dce8ef06ea0f232b4d2355e0dee958cbb30d78d87aaa785e9130a7c2a87dc10d0252e78b450d056f5ec9442323d30af454f770474765995f79fe7a5ba8aee4bb395b19012e9f797c426cb39c83b1ea049f11373471433e6ad0887bf635abb814fa35f9d000a6deb5f517ede0int,
            dtt == 0x1a0164f7c8a39baaf6686168dca741d85e6df40788b0347dbc32b56bb2758ebe8873928e36501c13d87ce91517f3932f6946299fe8b01917039d4802d6a4d48c0c77c984029c73a1b4adce3c6c2ecb76c1b55cfd36d5a935ff2211631f8e5747464d7ffbf49cf7743956f77bcd5b806da8d2e5852a18a89802ede1d6bea8dad5fe61d94ded571d62224d74884fe82ff30fb57fd604b6e1b6eaf25932449421ab7430d56ac0ac600int,
    ;
    let r: int = 0xc804ac3d35b112514ae66076de2ea468e7c5aeaeee64f2f1fda2185443d4a6d90504e5de280965ee47acbe483390fe9d18653891655b58feint;
    assert(gx2 + 361 == 0x6b9ce2dcbfe94cc27d5472934061cb2449b90a1b3e2d336daef849a40f992296569ac2e2791b94d720302bbb1dc2dd7cac5cc964fd55ad4int * p + r);
    lemma_fundamental_div_mod_converse(gx2 + 361, p, 0x6b9ce2dcbfe94cc27d5472934061cb2449b90a1b3e2d336daef849a40f992296569ac2e2791b94d720302bbb1dc2dd7cac5cc964fd55ad4int, r);
    assert(1 + dtt == 0x1a0164f7c8a39baaf6686168dca741d85e6df40788b0347dbc32b56bcc76f3b651172e392cb87d7cb5242aed76618736f1f65e1da4e2ce82ea15a0b0f05f9e702f98a8699467e067897d497ae6d55e1222cae0ebed623d9d4098de0c7bdf7d2d8fd98b50f47bc8261222b3ab95092fdint * p + r);
    lemma_fundamental_div_mod_converse(1 + dtt, p, 0x1a0164f7c8a39baaf6686168dca741d85e6df40788b0347dbc32b56bcc76f3b651172e392cb87d7cb5242aed76618736f1f65e1da4e2ce82ea15a0b0f05f9e702f98a8699467e067897d497ae6d55e1222cae0ebed623d9d4098de0c7bdf7d2d8fd98b50f47bc8261222b3ab95092fdint, r);
    let dg: int = 0x6b9ce2dcbfe94cc27d5472934061cb2449b90a1b3e2d336daef849a3385f5cdcd6c8295d7e72afb09f6c95728a50c946300262899f64d9d7c436c61cb75b2bbe5e1359bcd0fb7d396df44cf36d08559c42dc1aaf7d4409e2452b16d4e0efbc14afddb70a6265d0de718d20a2ad5c4d18217f2064bbe1d395bf271e39a76f688f9e9f166adf3805d89c9a8cf063bfc9bd8ab30d8a207de5555ee07ae81f836e3cc05367c26f38fd6int;
    assert(d * gx2 == dg) by (nonlinear_arith)
        requires
            d == 0xfffffffffffffffffffffffffffffffffffffffffffffffffffffffeffffffffffffffffffffffffffffffffffffffffffffffffffff6756int,
            gx2 == 0x6b9ce2dcbfe94cc27d5472934061cb2449b90a1b3e2d336daef849a3a3fc3fb996b1761ffbc72243dfce6096d409d3616e2f95f74e5d63a80514be60448d156fb7f6000382584faf14df0356fbc5324d2dd38e602db14af9f9b39b00077aca0d5a9bb8c81b4d0c54d9f6bfb1585fcc1int,
            dg == 0x6b9ce2dcbfe94cc27d5472934061cb2449b90a1b3e2d336daef849a3385f5cdcd6c8295d7e72afb09f6c95728a50c946300262899f64d9d7c436c61cb75b2bbe5e1359bcd0fb7d396df44cf36d08559c42dc1aaf7d4409e2452b16d4e0efbc14afddb70a6265d0de718d20a2ad5c4d18217f2064bbe1d395bf271e39a76f688f9e9f166adf3805d89c9a8cf063bfc9bd8ab30d8a207de5555ee07ae81f836e3cc05367c26f38fd6int,
    ;
    assert(1 + dg * 361 == 0x97c03be94a9ffd3e42bc1591a5c9e7762bf5ef406aadbd85abbc1fd7c23eb5dcb5803f931a0bcf51b69a0634b101db1464611a79bd8157099db02f247eafcd80cf712e6e9f169140d9054ad813cf98b8c385d882d793d6f147b9d0461aaf0df981b03e932ec8b9762650b637e77e58437int * p + r);
    lemma_fundamental_div_mod_converse(1 + dg * 361, p, 0x97c03be94a9ffd3e42bc1591a5c9e7762bf5ef406aadbd85abbc1fd7c23eb5dcb5803f931a0bcf51b69a0634b101db1464611a79bd8157099db02f247eafcd80cf712e6e9f169140d9054ad813cf98b8c385d882d793d6f147b9d0461aaf0df981b03e932ec8b9762650b637e77e58437int, r);
    let g = generator_point();
    assert(g.t == t);
    assert(g.x * g.x + g.y * g.y == gx2 + 361);
    assert(g.z * g.z + edwards_d() * g.t * g.t == 1 + dtt);
}

/// The neutral point satisfies the curve equation.
pub proof fn lemma_identity_on_curve()
    ensures
        on_curve(identity_point()),
{
}

} // verus!
