//! Unsigned integers of any size. A number is held as its bytes, highest
//! first, and stands for a `nat`; the arithmetic itself is done by
//! `num_bigint`.

use num_bigint::BigUint;
use num_traits::{One, Zero};
use vstd::arithmetic::power::pow;
use vstd::arithmetic::power2::pow2;
use vstd::prelude::*;

verus! {

/// The number that the first `n` bytes of a byte string hold, highest byte
/// first.
pub open spec fn be_prefix(bytes: Seq<u8>, n: nat) -> nat
    decreases n,
{
    if n == 0 {
        0
    } else {
        be_prefix(bytes, (n - 1) as nat) * 256 + bytes[n - 1] as nat
    }
}

/// The number that a byte string holds, highest byte first.
pub open spec fn be_nat(bytes: Seq<u8>) -> nat {
    be_prefix(bytes, bytes.len())
}

/// The number that a prefix holds depends on that prefix alone.
pub proof fn lemma_be_prefix_agrees(a: Seq<u8>, b: Seq<u8>, n: nat)
    requires
        n <= a.len(),
        n <= b.len(),
        forall|i: int| 0 <= i < n ==> a[i] == b[i],
    ensures
        be_prefix(a, n) == be_prefix(b, n),
    decreases n,
{
    if n > 0 {
        lemma_be_prefix_agrees(a, b, (n - 1) as nat);
    }
}

/// The `width` lowest bytes of `v`, highest first.
pub open spec fn be_bytes(v: nat, width: nat) -> Seq<u8>
    decreases width,
{
    if width == 0 {
        Seq::empty()
    } else {
        be_bytes(v / 256, (width - 1) as nat).push((v % 256) as u8)
    }
}

/// A byte string fitted to `width` bytes from the right: zeros in front
/// where it is shorter, its last `width` bytes where it is longer.
pub open spec fn right_aligned(s: Seq<u8>, width: nat) -> Seq<u8> {
    Seq::new(
        width,
        |i: int|
            if i + s.len() < width {
                0u8
            } else {
                s[i + s.len() - width]
            },
    )
}

/// The `width` lowest bytes of the number that a byte string holds are the
/// byte string itself, fitted to that width from the right.
pub proof fn lemma_be_bytes_of_be_nat(s: Seq<u8>, width: nat)
    ensures
        be_bytes(be_nat(s), width) == right_aligned(s, width),
    decreases width,
{
    if width == 0 {
        assert(be_bytes(be_nat(s), width) =~= right_aligned(s, width));
    } else if s.len() == 0 {
        lemma_be_bytes_of_be_nat(s, (width - 1) as nat);
        assert(be_bytes(be_nat(s), width) =~= right_aligned(s, width));
    } else {
        let front = s.drop_last();
        lemma_be_prefix_agrees(s, front, front.len());
        lemma_be_bytes_of_be_nat(front, (width - 1) as nat);
        let v = be_nat(s);
        assert(v == be_nat(front) * 256 + s.last() as nat);
        assert(v / 256 == be_nat(front) && v % 256 == s.last() as nat);
        assert(be_bytes(v, width) =~= right_aligned(s, width));
    }
}

/// The number of values that `width` bytes can hold.
pub open spec fn byte_range(width: nat) -> nat
    decreases width,
{
    if width == 0 {
        1
    } else {
        256 * byte_range((width - 1) as nat)
    }
}

/// The `width` lowest bytes of `v` hold `v`, reduced to what `width` bytes
/// can hold.
pub proof fn lemma_be_nat_of_be_bytes(v: nat, width: nat)
    ensures
        be_bytes(v, width).len() == width,
        be_nat(be_bytes(v, width)) == v % byte_range(width),
        byte_range(width) > 0,
    decreases width,
{
    if width > 0 {
        lemma_be_nat_of_be_bytes(v / 256, (width - 1) as nat);
        let front = be_bytes(v / 256, (width - 1) as nat);
        let all = be_bytes(v, width);
        lemma_be_prefix_agrees(all, front, front.len());
        let r = byte_range((width - 1) as nat) as int;
        let vi = v as int;
        vstd::arithmetic::div_mod::lemma_breakdown(vi, 256, r);
    }
}

/// How many bits it takes to write `v`: none for zero.
pub open spec fn bit_length(v: nat) -> nat
    decreases v,
{
    if v == 0 {
        0
    } else {
        1 + bit_length(v / 2)
    }
}

/// Whether bit `i` of `v` is set, bit 0 being the lowest.
pub open spec fn bit_of(v: nat, i: nat) -> bool {
    (v / pow2(i)) % 2 == 1
}

/// An unsigned integer of any size.
#[derive(Debug)]
pub struct Natural {
    bytes: Vec<u8>,
}

impl View for Natural {
    type V = nat;

    closed spec fn view(&self) -> nat {
        be_nat(self.bytes@)
    }
}

impl Clone for Natural {
    fn clone(&self) -> (r: Self)
        ensures
            r@ == self@,
    {
        Natural::from_bytes_be(self.bytes.as_slice())
    }
}

impl Natural {
    /// The number that `bytes` hold, highest byte first.
    pub fn from_bytes_be(bytes: &[u8]) -> (n: Natural)
        ensures
            n@ == be_nat(bytes@),
    {
        let mut v: Vec<u8> = Vec::new();
        let mut i: usize = 0;
        while i < bytes.len()
            invariant
                i <= bytes.len(),
                v@ == bytes@.subrange(0, i as int),
            decreases bytes.len() - i,
        {
            v.push(bytes[i]);
            i += 1;
            assert(v@ =~= bytes@.subrange(0, i as int));
        }
        assert(v@ =~= bytes@);
        Natural { bytes: v }
    }

    /// The bytes of the number, highest first and without zeros in front;
    /// zero is one zero byte.
    pub fn to_bytes_be(&self) -> (bytes: Vec<u8>)
        ensures
            be_nat(bytes@) == self@,
            bytes@.len() >= 1,
            bytes@.len() > 1 ==> bytes@[0] != 0,
    {
        big_to_bytes(self)
    }
}

/// Calls `BigUint::to_bytes_be`. Trusted: the bytes hold the number, highest
/// first, and only the single byte of zero starts with a zero.
#[verifier::external_body]
fn big_to_bytes(a: &Natural) -> (bytes: Vec<u8>)
    ensures
        be_nat(bytes@) == a@,
        bytes@.len() >= 1,
        bytes@.len() > 1 ==> bytes@[0] != 0,
{
    BigUint::from_bytes_be(&a.bytes).to_bytes_be()
}

/// Calls `BigUint::from` on a `u32`. Trusted: the result is that number.
#[verifier::external_body]
pub(crate) fn big_from_u32(v: u32) -> (r: Natural)
    ensures
        r@ == v,
{
    Natural { bytes: BigUint::from(v).to_bytes_be() }
}

/// Calls `BigUint`'s `+`. Trusted: the result is the sum.
#[verifier::external_body]
pub(crate) fn big_add(a: &Natural, b: &Natural) -> (r: Natural)
    ensures
        r@ == a@ + b@,
{
    Natural { bytes: (BigUint::from_bytes_be(&a.bytes) + BigUint::from_bytes_be(&b.bytes)).to_bytes_be() }
}

/// Calls `BigUint`'s `-`, which panics where the result would be negative.
/// Trusted: the result is the difference.
#[verifier::external_body]
pub(crate) fn big_sub(a: &Natural, b: &Natural) -> (r: Natural)
    requires
        a@ >= b@,
    ensures
        r@ == a@ - b@,
{
    Natural { bytes: (BigUint::from_bytes_be(&a.bytes) - BigUint::from_bytes_be(&b.bytes)).to_bytes_be() }
}

/// Calls `BigUint`'s `*`. Trusted: the result is the product.
#[verifier::external_body]
pub(crate) fn big_mul(a: &Natural, b: &Natural) -> (r: Natural)
    ensures
        r@ == a@ * b@,
{
    Natural { bytes: (BigUint::from_bytes_be(&a.bytes) * BigUint::from_bytes_be(&b.bytes)).to_bytes_be() }
}

/// Calls `BigUint`'s `%`, which panics on a zero divisor. Trusted: the
/// result is the remainder.
#[verifier::external_body]
pub(crate) fn big_rem(a: &Natural, m: &Natural) -> (r: Natural)
    requires
        m@ > 0,
    ensures
        r@ == a@ % m@,
{
    Natural { bytes: (BigUint::from_bytes_be(&a.bytes) % BigUint::from_bytes_be(&m.bytes)).to_bytes_be() }
}

/// Calls `BigUint`'s `>>`. Trusted: the result is the number divided by
/// two to the power `k`, rounded down.
#[verifier::external_body]
pub(crate) fn big_shr(a: &Natural, k: u32) -> (r: Natural)
    ensures
        r@ == a@ / pow2(k as nat),
{
    Natural { bytes: (BigUint::from_bytes_be(&a.bytes) >> k).to_bytes_be() }
}

/// Calls `BigUint::modpow`, which panics on a zero modulus. Trusted: the
/// result is the power reduced by the modulus.
#[verifier::external_body]
pub(crate) fn big_modpow(a: &Natural, e: &Natural, m: &Natural) -> (r: Natural)
    requires
        m@ > 1,
    ensures
        r@ == pow(a@ as int, e@) % (m@ as int),
{
    let r = BigUint::from_bytes_be(&a.bytes).modpow(
        &BigUint::from_bytes_be(&e.bytes),
        &BigUint::from_bytes_be(&m.bytes),
    );
    Natural { bytes: r.to_bytes_be() }
}

/// Calls `BigUint::bits`. Trusted: the result is the number of bits that
/// it takes to write the number.
#[verifier::external_body]
pub(crate) fn big_bits(a: &Natural) -> (r: u64)
    ensures
        r == bit_length(a@),
{
    BigUint::from_bytes_be(&a.bytes).bits()
}

/// Calls `BigUint::bit`. Trusted: the result tells whether that bit is set.
#[verifier::external_body]
pub(crate) fn big_bit(a: &Natural, i: u64) -> (r: bool)
    ensures
        r == bit_of(a@, i as nat),
{
    BigUint::from_bytes_be(&a.bytes).bit(i)
}

/// Calls `BigUint`'s `>`. Trusted: the result tells whether the first
/// number is the greater.
#[verifier::external_body]
pub(crate) fn big_gt(a: &Natural, b: &Natural) -> (r: bool)
    ensures
        r == (a@ > b@),
{
    BigUint::from_bytes_be(&a.bytes) > BigUint::from_bytes_be(&b.bytes)
}

/// Calls `is_zero` of `num_traits::Zero` on a `BigUint`. Trusted: the
/// result tells whether the number is zero.
#[verifier::external_body]
pub(crate) fn big_is_zero(a: &Natural) -> (r: bool)
    ensures
        r == (a@ == 0),
{
    BigUint::from_bytes_be(&a.bytes).is_zero()
}

/// Calls `is_one` of `num_traits::One` on a `BigUint`. Trusted: the result
/// tells whether the number is one.
#[verifier::external_body]
pub(crate) fn big_is_one(a: &Natural) -> (r: bool)
    ensures
        r == (a@ == 1),
{
    BigUint::from_bytes_be(&a.bytes).is_one()
}

} // verus!
