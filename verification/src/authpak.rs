//! The password-authenticated key exchange: the two points derived from a
//! password and a user name, a side's private and public value, and the
//! key that both sides arrive at.

use crate::bignum::{be_bytes, be_nat, big_rem, Natural};
use crate::curve::{
    add_points, decode_extended_point, encode_extended_point, generator_point, limb_of,
    point_bytes, point_difference, point_of_bytes, point_sum, scalar_mult, scalar_multiple,
    subtract_points, Coords, ExtendedPoint,
};
use crate::decaf::{decaf_decode, decaf_decoding, decaf_encode, decaf_encoding};
use crate::elligator2::{elligator2_hash_to_point, elligator2_point};
use crate::modfield::{
    curve_order, curve_order_number, generator_x_number, generator_y_number, lemma_prime_shape,
};
use crate::p9sk1::put;
use hkdf::Hkdf;
use pbkdf2::pbkdf2_hmac;
use sha1::Sha1;
use sha2::{Digest, Sha256};
use vstd::prelude::*;
use vstd::utf8::encode_utf8;

verus! {

/// Width of a field element.
pub const PAKSLEN: usize = 56;

/// Width of an encoded public value.
pub const PAKYLEN: usize = 56;

/// Width of a private scalar.
pub const PAKXLEN: usize = 56;

/// Width of the key that the exchange yields.
pub const PAKKEYLEN: usize = 32;

/// Width of a point in extended coordinates.
pub const PAKPLEN: usize = 224;

/// Width of the two points derived from a password.
pub const PAKHASHLEN: usize = 448;

/// One side's state in the exchange: the private scalar, highest byte
/// first, the encoded public value, and the side.
pub struct PakPriv {
    pub x: [u8; 56],
    pub y: [u8; 56],
    pub is_client: bool,
}

/// Why an operation of the exchange failed.
#[derive(Debug)]
pub struct PakError(pub String);

impl PakError {
    /// The reason in words.
    pub fn message(&self) -> (text: &String)
        ensures
            text@ == self.0@,
    {
        &self.0
    }
}

#[verifier::external_type_specification]
#[verifier::external_body]
pub struct ExRandomError(getrandom::Error);

/// What PBKDF2 with HMAC-SHA1 derives from a password and a salt: `len`
/// bytes after `rounds` rounds.
pub uninterp spec fn pbkdf2_hmac_sha1(password: Seq<u8>, salt: Seq<u8>, rounds: u32, len: nat) -> Seq<
    u8,
>;

/// The SHA-256 digest of `data`.
pub uninterp spec fn sha256(data: Seq<u8>) -> Seq<u8>;

/// What HKDF with SHA-256 derives from a salt, input key material and an
/// info string: `len` bytes.
pub uninterp spec fn hkdf_sha256(salt: Seq<u8>, ikm: Seq<u8>, info: Seq<u8>, len: nat) -> Seq<u8>;

/// Calls `pbkdf2::pbkdf2_hmac` with SHA-1. Trusted: what it writes over
/// the whole of `out` is a function of the password, the salt, the number
/// of rounds and the length of `out` alone.
#[verifier::external_body]
fn pbkdf2_sha1(password: &[u8], salt: &[u8], rounds: u32, out: &mut [u8])
    requires
        old(out)@.len() <= 0xffff_ffff,
    ensures
        final(out)@.len() == old(out)@.len(),
        final(out)@ == pbkdf2_hmac_sha1(password@, salt@, rounds, old(out)@.len()),
{
    pbkdf2_hmac::<Sha1>(password, salt, rounds, out)
}

/// Calls `Sha256::digest` of `sha2`. Trusted: the 32 bytes are a function
/// of the data alone.
#[verifier::external_body]
fn sha256_digest(data: &[u8]) -> (digest: [u8; 32])
    ensures
        digest@ == sha256(data@),
{
    Sha256::digest(data).into()
}

/// Calls `Hkdf::new` and `Hkdf::expand` of `hkdf` with SHA-256. Trusted:
/// it fails exactly where more than 255 times 32 bytes are asked for, and
/// what it otherwise writes over the whole of `okm` is a function of the
/// salt, the key material, the info string and the length of `okm` alone.
#[verifier::external_body]
fn hkdf_sha256_expand(salt: &[u8], ikm: &[u8], info: &[u8], okm: &mut [u8]) -> (ok: bool)
    ensures
        final(okm)@.len() == old(okm)@.len(),
        ok <==> old(okm)@.len() <= 8160,
        ok ==> final(okm)@ == hkdf_sha256(salt@, ikm@, info@, old(okm)@.len()),
{
    Hkdf::<Sha256>::new(Some(salt), ikm).expand(info, okm).is_ok()
}

/// Calls `getrandom::getrandom`, which fills `dest` from the system's
/// random source or fails. Trusted: nothing but that `dest` keeps its
/// length.
#[verifier::external_body]
fn system_random(dest: &mut [u8]) -> (r: Result<(), getrandom::Error>)
    ensures
        final(dest)@.len() == old(dest)@.len(),
{
    getrandom::getrandom(dest)
}

/// The two points derived from a password and a user name, as 448 bytes.
/// A 16-byte key comes from the password by PBKDF2 with HMAC-SHA1; HKDF
/// with SHA-256, salted with the digest of the user name, stretches it to
/// 112 bytes; each half goes through Elligator2 to a point.
pub open spec fn pak_hash_of(password: Seq<u8>, user: Seq<u8>) -> Seq<u8> {
    let aes_key = pbkdf2_hmac_sha1(password, encode_utf8("Plan 9 key derivation"@), 9001, 16);
    let h = hkdf_sha256(sha256(user), aes_key, encode_utf8("Plan 9 AuthPAK hash"@), 112);
    point_bytes(elligator2_point(h.subrange(0, 56))) + point_bytes(
        elligator2_point(h.subrange(56, 112)),
    )
}

/// The point that blinds a side's public value: the first of the two
/// derived points for the client, the second for the server.
pub open spec fn blind_of(pak_hash: Seq<u8>, client_side: bool) -> Coords {
    if client_side {
        point_of_bytes(pak_hash.subrange(0, 224))
    } else {
        point_of_bytes(pak_hash.subrange(224, 448))
    }
}

/// The scalar that 56 random bytes stand for: their number, reduced
/// modulo the curve order.
pub open spec fn scalar_of(random: Seq<u8>) -> nat {
    be_nat(random) % curve_order()
}

/// The encoded public value of a side with the private scalar `x`:
/// `x·G` plus the side's blind.
pub open spec fn public_value(pak_hash: Seq<u8>, is_client: bool, x: nat) -> Seq<u8> {
    decaf_encoding(point_sum(scalar_multiple(generator_point(), x), blind_of(pak_hash, is_client)))
}

/// `state` is the state of a side whose scalar came from `random`.
pub open spec fn is_state_from(
    state: PakPriv,
    pak_hash: Seq<u8>,
    is_client: bool,
    random: Seq<u8>,
) -> bool {
    &&& state.x@ == be_bytes(scalar_of(random), 56)
    &&& state.y@ == public_value(pak_hash, is_client, scalar_of(random))
    &&& state.is_client == is_client
}

/// The key that a side derives once it has the peer's public value; none
/// where that value decodes to no point. The peer's point less the peer's
/// blind, multiplied by the side's scalar, is encoded and goes through HKDF
/// with SHA-256, salted with the digest of the client's public value
/// followed by the server's.
pub open spec fn pak_key(state: PakPriv, pak_hash: Seq<u8>, peer_y: Seq<u8>) -> Option<Seq<u8>> {
    match decaf_decoding(peer_y) {
        None => None,
        Some(peer) => {
            let unblinded = point_difference(peer, blind_of(pak_hash, !state.is_client));
            let z = decaf_encoding(scalar_multiple(unblinded, be_nat(state.x@)));
            let ys = if state.is_client {
                state.y@ + peer_y
            } else {
                peer_y + state.y@
            };
            Some(hkdf_sha256(sha256(ys), z, encode_utf8("Plan 9 AuthPAK key"@), 32))
        },
    }
}

/// Derives the two points from a password and a user name.
pub fn authpak_hash(password: &str, username: &str) -> (hash: [u8; 448])
    ensures
        hash@ == pak_hash_of(encode_utf8(password@), encode_utf8(username@)),
{
    let mut aes_key: [u8; 16] = [0u8; 16];
    pbkdf2_sha1(password.as_bytes(), "Plan 9 key derivation".as_bytes(), 9001, &mut aes_key);
    let username_salt = sha256_digest(username.as_bytes());
    let mut h: [u8; 112] = [0u8; 112];
    let ok = hkdf_sha256_expand(&username_salt, &aes_key, "Plan 9 AuthPAK hash".as_bytes(), &mut h);
    assert(ok);
    let pm = elligator2_hash_to_point(&h[0..56]);
    let pn = elligator2_hash_to_point(&h[56..112]);
    let mut result: [u8; 448] = [0u8; 448];
    let mut half: [u8; 224] = [0u8; 224];
    encode_extended_point(&pm, &mut half);
    put(&mut result, 0, &half);
    encode_extended_point(&pn, &mut half);
    put(&mut result, 224, &half);
    assert(result@ =~= pak_hash_of(encode_utf8(password@), encode_utf8(username@)));
    result
}

fn blind_point(pak_hash: &[u8; 448], client_side: bool) -> (blind: ExtendedPoint)
    ensures
        blind@ == blind_of(pak_hash@, client_side),
{
    if client_side {
        decode_extended_point(&pak_hash[0..224])
    } else {
        decode_extended_point(&pak_hash[224..448])
    }
}

/// The state of a side whose private scalar is drawn from the given 56
/// random bytes.
pub fn authpak_new_from(pak_hash: &[u8; 448], is_client: bool, random: &[u8; 56]) -> (state:
    PakPriv)
    ensures
        is_state_from(state, pak_hash@, is_client, random@),
{
    proof {
        lemma_prime_shape();
    }
    let blind = blind_point(pak_hash, is_client);
    let x_scalar = big_rem(&Natural::from_bytes_be(random), &curve_order_number());
    let x_bytes = limb_of(&x_scalar);
    let g = ExtendedPoint::from_affine(&generator_x_number(), &generator_y_number());
    let x_g = scalar_mult(&g, &x_scalar);
    let y_point = add_points(&x_g, &blind);
    let y_bytes = decaf_encode(&y_point);
    PakPriv { x: x_bytes, y: y_bytes, is_client }
}

/// Draws a private scalar from the system's random source: a number below
/// the curve order, or an error where the source fails.
pub fn generate_random_scalar() -> (r: Result<Natural, PakError>)
    ensures
        match r {
            Ok(x) => x@ < curve_order(),
            Err(e) => e.0@ == "Failed to generate random bytes"@,
        },
{
    proof {
        lemma_prime_shape();
    }
    let mut bytes: [u8; 56] = [0u8; 56];
    match system_random(&mut bytes) {
        Ok(_) => {
            proof {
                vstd::arithmetic::div_mod::lemma_mod_bound(
                    be_nat(bytes@) as int,
                    curve_order() as int,
                );
            }
            Ok(big_rem(&Natural::from_bytes_be(&bytes), &curve_order_number()))
        },
        Err(_) => Err(PakError("Failed to generate random bytes".to_owned())),
    }
}

/// Opens the exchange for one side: draws a private scalar from the
/// system's random source and computes the public value. Fails only where
/// the random source does.
pub fn authpak_new(pak_hash: &[u8; 448], is_client: bool) -> (r: Result<PakPriv, PakError>)
    ensures
        match r {
            Ok(state) => exists|random: Seq<u8>|
                random.len() == 56 && is_state_from(state, pak_hash@, is_client, random),
            Err(e) => e.0@ == "Failed to generate random bytes"@,
        },
{
    let mut random: [u8; 56] = [0u8; 56];
    match system_random(&mut random) {
        Ok(_) => {
            let state = authpak_new_from(pak_hash, is_client, &random);
            assert(random@.len() == 56 && is_state_from(state, pak_hash@, is_client, random@));
            Ok(state)
        },
        Err(_) => Err(PakError("Failed to generate random bytes".to_owned())),
    }
}

/// Completes the exchange for one side: from the peer's public value to the
/// shared key. Fails exactly where the peer's value decodes to no point.
pub fn authpak_finish(priv_state: &PakPriv, pak_hash: &[u8; 448], peer_y: &[u8; 56]) -> (r: Result<
    [u8; 32],
    PakError,
>)
    ensures
        match r {
            Ok(key) => pak_key(*priv_state, pak_hash@, peer_y@) == Some(key@),
            Err(e) => pak_key(*priv_state, pak_hash@, peer_y@) is None && e.0@
                == "Failed to decode peer Y value"@,
        },
{
    let peer_blind = blind_point(pak_hash, !priv_state.is_client);
    let peer_point = match decaf_decode(peer_y) {
        Some(p) => p,
        None => {
            return Err(PakError("Failed to decode peer Y value".to_owned()));
        },
    };
    let unblinded = subtract_points(&peer_point, &peer_blind);
    let x_scalar = Natural::from_bytes_be(&priv_state.x);
    let z = scalar_mult(&unblinded, &x_scalar);
    let z_bytes = decaf_encode(&z);
    let mut y_concat: [u8; 112] = [0u8; 112];
    if priv_state.is_client {
        put(&mut y_concat, 0, &priv_state.y);
        put(&mut y_concat, 56, peer_y);
        assert(y_concat@ =~= priv_state.y@ + peer_y@);
    } else {
        put(&mut y_concat, 0, peer_y);
        put(&mut y_concat, 56, &priv_state.y);
        assert(y_concat@ =~= peer_y@ + priv_state.y@);
    }
    let salt = sha256_digest(&y_concat);
    let mut pak_key: [u8; 32] = [0u8; 32];
    let ok = hkdf_sha256_expand(&salt, &z_bytes, "Plan 9 AuthPAK key".as_bytes(), &mut pak_key);
    assert(ok);
    Ok(pak_key)
}

} // verus!
