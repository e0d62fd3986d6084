use enoch_auth::authpak::{
    authpak_finish, authpak_hash, authpak_new, authpak_new_from, generate_random_scalar, PakPriv,
    PAKHASHLEN, PAKKEYLEN, PAKPLEN, PAKSLEN, PAKXLEN, PAKYLEN,
};
use enoch_auth::bignum::Natural;
use enoch_auth::curve::{
    add_points, decode_extended_point, encode_extended_point, pad_and_copy, scalar_mult,
    subtract_points, ExtendedPoint,
};
use enoch_auth::decaf::{decaf_decode, decaf_encode};
use enoch_auth::elligator2::{elligator2_hash_to_point, smallest_non_residue};
use enoch_auth::modfield::{
    a, add_mod, curve_order_number, edwards_d_number, generator_x_number, generator_y_number,
    half_prime_number, legendre_symbol, mod_inv, mod_inv_sqrt, mod_sqrt, mod_sub, mul_mod,
    prime_number,
};
use num_bigint::BigUint;
use num_traits::{One, Zero};

fn big(n: &Natural) -> BigUint {
    BigUint::from_bytes_be(&n.to_bytes_be())
}

fn number(v: u64) -> Natural {
    Natural::from_bytes_be(&v.to_be_bytes())
}

fn hex(bytes: &[u8]) -> String {
    let mut out = String::new();
    for b in bytes {
        out.push_str(&format!("{:02x}", b));
    }
    out
}

fn generator() -> ExtendedPoint {
    ExtendedPoint::from_affine(&generator_x_number(), &generator_y_number())
}

fn coords(p: &ExtendedPoint) -> [BigUint; 4] {
    [big(&p.x), big(&p.y), big(&p.z), big(&p.t)]
}

/// Whether a point satisfies the curve equation: a*x² + y² = 1 + d*x²*y².
fn verify_on_curve(p: &ExtendedPoint) -> bool {
    let prime = big(&prime_number());
    let d = big(&edwards_d_number());
    // Convert to affine: x = X/Z, y = Y/Z
    let z_inv = big(&p.z).modpow(&(&prime - BigUint::from(2u32)), &prime);
    let x = (big(&p.x) * &z_inv) % &prime;
    let y = (big(&p.y) * &z_inv) % &prime;

    let x2 = (&x * &x) % &prime;
    let y2 = (&y * &y) % &prime;
    let lhs = (&x2 + &y2) % &prime;
    let rhs = (BigUint::one() + &d * &x2 * &y2 % &prime) % &prime;

    lhs == rhs
}

#[test]
fn test_generator_on_curve() {
    let g = generator();
    assert!(verify_on_curve(&g), "Generator should be on curve");
}

#[test]
fn test_elligator2_produces_valid_point() {
    let hash = [0u8; PAKSLEN];
    let point = elligator2_hash_to_point(&hash);
    assert!(verify_on_curve(&point), "All-zeros hash should produce point on curve");

    let mut hash1 = [0u8; PAKSLEN];
    hash1[PAKSLEN - 1] = 1;
    let point1 = elligator2_hash_to_point(&hash1);
    assert!(verify_on_curve(&point1), "r0=1 should produce point on curve");
}

#[test]
fn test_point_addition_preserves_curve() {
    let g = generator();
    let g2 = add_points(&g, &g);
    assert!(verify_on_curve(&g2), "2*G should be on curve");

    let g3 = add_points(&g2, &g);
    assert!(verify_on_curve(&g3), "3*G should be on curve");
}

#[test]
fn test_authpak_hash() {
    let hash = authpak_hash("test1234", "glenda");
    assert_eq!(hash.len(), PAKHASHLEN);

    // Hash should be deterministic
    let hash2 = authpak_hash("test1234", "glenda");
    assert_eq!(hash, hash2);
}

#[test]
fn test_pak_exchange() {
    let password = "test1234";
    let username = "glenda";

    // Both sides compute the same pakhash
    let pak_hash = authpak_hash(password, username);

    // Client generates exchange values
    let client_priv = authpak_new(&pak_hash, true).unwrap();

    // Server generates exchange values
    let server_priv = authpak_new(&pak_hash, false).unwrap();

    // Both sides complete the exchange
    let client_key = authpak_finish(&client_priv, &pak_hash, &server_priv.y).unwrap();
    let server_key = authpak_finish(&server_priv, &pak_hash, &client_priv.y).unwrap();

    // Both should derive the same key
    assert_eq!(client_key, server_key);
}

#[test]
fn test_decaf_round_trip() {
    let g = generator();
    let encoded = decaf_encode(&g);
    let decoded = decaf_decode(&encoded).expect("Should decode");

    // Re-encode should give same result
    let re_encoded = decaf_encode(&decoded);
    assert_eq!(encoded, re_encoded);
}

#[test]
fn constants_are_the_curve_constants() {
    let two = BigUint::from(2u32);
    let prime = two.pow(448) - two.pow(224) - BigUint::one();
    assert_eq!(big(&prime_number()), prime);
    assert_eq!(big(&edwards_d_number()), &prime - BigUint::from(39081u32));
    assert_eq!(big(&half_prime_number()), (&prime - BigUint::one()) >> 1);
    assert_eq!(big(&generator_y_number()), BigUint::from(19u32));
    assert_eq!(big(&a()), BigUint::one());
    assert_eq!(
        hex(&generator_x_number().to_bytes_be()),
        "297ea0ea2692ff1b4faff46098453a6a26adf733245f065c3c59d0709cecfa96147eaaf3932d94c63d96c170033f4ba0c7f0de840aed939f"
    );
    assert_eq!(
        hex(&curve_order_number().to_bytes_be()),
        "3fffffffffffffffffffffffffffffffffffffffffffffffffffffff7cca23e9c44edb49aed63690216cc2728dc58f552378c292ab5844f3"
    );
    assert_eq!((PAKSLEN, PAKYLEN, PAKXLEN, PAKKEYLEN, PAKPLEN, PAKHASHLEN), (56, 56, 56, 32, 224, 448));
}

#[test]
fn natural_bytes_round_trip() {
    assert_eq!(Natural::from_bytes_be(&[]).to_bytes_be(), vec![0]);
    assert_eq!(Natural::from_bytes_be(&[0, 0, 4, 101]).to_bytes_be(), vec![4, 101]);
    assert_eq!(big(&number(1125)), BigUint::from(1125u32));
    assert_eq!(number(0x0102_0304_0506_0708).clone().to_bytes_be(), vec![1, 2, 3, 4, 5, 6, 7, 8]);
}

#[test]
fn modular_operations_on_small_numbers() {
    let p = number(23);
    assert_eq!(big(&mod_sub(&number(5), &number(7), &p)), BigUint::from(21u32));
    assert_eq!(big(&mod_sub(&number(7), &number(5), &p)), BigUint::from(2u32));
    assert_eq!(big(&mod_sub(&number(5), &number(51), &p)), BigUint::from(0u32));
    assert_eq!(big(&mod_sub(&number(100), &number(1), &p)), BigUint::from(7u32));
    assert_eq!(big(&mod_sub(&number(0), &number(100), &p)), BigUint::from(15u32));
    assert_eq!(big(&mul_mod(&number(7), &number(8), &p)), BigUint::from(10u32));
    assert_eq!(big(&add_mod(&number(20), &number(8), &p)), BigUint::from(5u32));
    // 5 * 14 = 70 = 3 * 23 + 1
    assert_eq!(big(&mod_inv(&number(5), &p)), BigUint::from(14u32));
    // The squares modulo 23 are 1 2 3 4 6 8 9 12 13 16 18.
    assert_eq!(legendre_symbol(&number(2), &p), 1);
    assert_eq!(legendre_symbol(&number(5), &p), -1);
    assert_eq!(legendre_symbol(&number(46), &p), 0);
    assert_eq!(legendre_symbol(&number(0), &p), 0);
}

#[test]
fn square_roots_modulo_the_prime() {
    let prime = big(&prime_number());
    assert!(big(&mod_sqrt(&number(0)).unwrap()).is_zero());
    let root = big(&mod_sqrt(&number(4)).unwrap());
    assert_eq!((&root * &root) % &prime, BigUint::from(4u32));
    let root = big(&mod_sqrt(&number(1_000_000)).unwrap());
    assert_eq!((&root * &root) % &prime, BigUint::from(1_000_000u32));
    // 7 is the smallest number without a square root.
    assert!(mod_sqrt(&number(7)).is_none());
    assert_eq!(smallest_non_residue(), 7);
    for k in 2u64..7 {
        assert_eq!(legendre_symbol(&number(k), &prime_number()), 1);
    }
    assert_eq!(legendre_symbol(&number(7), &prime_number()), -1);
    // The inverse square root of 4 squares to the inverse of 4.
    let r = big(&mod_inv_sqrt(&number(4)));
    assert_eq!((&r * &r * BigUint::from(4u32)) % &prime, BigUint::one());
    let inv = big(&mod_inv(&number(4), &prime_number()));
    assert_eq!((inv * BigUint::from(4u32)) % &prime, BigUint::one());
}

#[test]
fn identity_and_affine_points() {
    let id = ExtendedPoint::identity();
    assert_eq!(coords(&id), [BigUint::zero(), BigUint::one(), BigUint::one(), BigUint::zero()]);
    let g = generator();
    let prime = big(&prime_number());
    let gx = big(&generator_x_number());
    assert_eq!(coords(&g), [gx.clone(), BigUint::from(19u32), BigUint::one(), (&gx * 19u32) % &prime]);
    assert_eq!(coords(&g.clone()), coords(&g));
    // Adding the neutral point changes only the representation.
    let same = add_points(&g, &id);
    assert_eq!(decaf_encode(&same), decaf_encode(&g));
    // A point less itself is the neutral point.
    let none = subtract_points(&g, &g);
    assert_eq!(decaf_encode(&none), [0u8; 56]);
}

#[test]
fn addition_formula_on_two_and_three_g() {
    let g = generator();
    let g2 = add_points(&g, &g);
    let g3 = add_points(&g2, &g);
    assert_eq!(
        hex(&decaf_encode(&g2)),
        "0b4a2d6cf07f000c094794d27eb8fcecf07d94ac77595081e1e05358560e798c4fc3704405ba3b89c6dd1e3d79179db42b5f1cb5ae952e20"
    );
    assert_eq!(decaf_encode(&scalar_mult(&g, &number(2))), decaf_encode(&g2));
    assert_eq!(decaf_encode(&scalar_mult(&g, &number(3))), decaf_encode(&g3));
    assert_eq!(decaf_encode(&subtract_points(&g3, &g)), decaf_encode(&g2));
    assert_eq!(decaf_encode(&scalar_mult(&g, &number(0))), [0u8; 56]);
    assert_eq!(coords(&scalar_mult(&g, &number(0))), coords(&ExtendedPoint::identity()));
}

#[test]
fn scalar_multiples_stay_on_the_curve() {
    let g = generator();
    for k in [1u64, 2, 3, 5, 8, 255, 256, 65537, 0xdead_beef_0bad_f00d] {
        assert!(verify_on_curve(&scalar_mult(&g, &number(k))), "{}", k);
    }
    // The order of the subgroup takes the generator to the neutral class.
    let q = curve_order_number();
    assert_eq!(decaf_encode(&scalar_mult(&g, &q)), [0u8; 56]);
}

#[test]
fn decaf_encoding_of_the_generator() {
    assert_eq!(
        hex(&decaf_encode(&generator())),
        "55e66bc00f0fc48ed404d370214fccbabdd201d725f529f37b698c53dab579f9b430a3d7517f5600d3106c726e05c6677200df41ede75dfd"
    );
    assert_eq!(decaf_encode(&ExtendedPoint::identity()), [0u8; 56]);
}

#[test]
fn decaf_decode_rejects_what_encodes_no_point() {
    // Another length.
    assert!(decaf_decode(&[0u8; 55]).is_none());
    assert!(decaf_decode(&[0u8; 57]).is_none());
    // Above half the prime.
    let mut high = [0xffu8; 56];
    high[0] = 0x7f;
    assert!(decaf_decode(&high).is_none());
    let mut top = [0u8; 56];
    top[0] = 0x80;
    assert!(decaf_decode(&top).is_none());
    // In range, but no square root where one is needed.
    let mut one = [0u8; 56];
    one[55] = 1;
    assert!(decaf_decode(&one).is_none());
    // Zero decodes to the neutral point.
    let zero = decaf_decode(&[0u8; 56]).unwrap();
    assert_eq!(coords(&zero), coords(&ExtendedPoint::identity()));
}

#[test]
fn decaf_round_trip_for_many_points() {
    let g = generator();
    for k in [1u64, 2, 3, 7, 1000, 0x1234_5678_9abc_def0] {
        let p = scalar_mult(&g, &number(k));
        let encoded = decaf_encode(&p);
        let decoded = decaf_decode(&encoded).expect("decodes");
        assert!(verify_on_curve(&decoded));
        assert_eq!(decaf_encode(&decoded), encoded);
    }
}

#[test]
fn elligator2_exact_points() {
    let prime = big(&prime_number());
    let p0 = elligator2_hash_to_point(&[0u8; 56]);
    assert_eq!(
        coords(&p0),
        [BigUint::zero(), BigUint::one(), &prime - BigUint::one(), BigUint::zero()]
    );
    let mut h1 = [0u8; 56];
    h1[55] = 1;
    let p1 = elligator2_hash_to_point(&h1);
    assert_eq!(
        hex(&p1.x.to_bytes_be()),
        "0d279a51783edad3202f06143625fb7f8b99feede868b69d6e96be6ed5c3e6c2572266d4118cef2b91182307e4176f482fbe130049ef7c0e"
    );
    assert_eq!(
        hex(&decaf_encode(&p1)),
        "5f0c872c0891805e3c5e10d6059cd52f81025ad063f56ae0e3b3a1b709d98e55f4ada387f9029cb57ecde886237fbf89a59f35b6ca60803f"
    );
    // The hash is reduced modulo the prime first.
    let mut prime_plus_one = [0u8; 56];
    pad_and_copy(&(&prime + BigUint::one()).to_bytes_be(), &mut prime_plus_one);
    assert_eq!(coords(&elligator2_hash_to_point(&prime_plus_one)), coords(&p1));
}

#[test]
fn elligator2_is_on_the_curve_for_many_hashes() {
    let mut x: u32 = 7;
    for _ in 0..24 {
        let mut h = [0u8; 56];
        for b in h.iter_mut() {
            x = x.wrapping_mul(1664525).wrapping_add(1013904223);
            *b = (x >> 24) as u8;
        }
        assert!(verify_on_curve(&elligator2_hash_to_point(&h)));
    }
}

#[test]
fn pad_and_copy_fits_from_the_right() {
    let mut dest = [0xffu8; 4];
    pad_and_copy(&[1, 2], &mut dest);
    assert_eq!(dest, [0, 0, 1, 2]);
    pad_and_copy(&[1, 2, 3, 4, 5, 6], &mut dest);
    assert_eq!(dest, [3, 4, 5, 6]);
    pad_and_copy(&[], &mut dest);
    assert_eq!(dest, [0, 0, 0, 0]);
    pad_and_copy(&[9, 8, 7, 6], &mut dest);
    assert_eq!(dest, [9, 8, 7, 6]);
    let mut none: [u8; 0] = [];
    pad_and_copy(&[1], &mut none);
}

#[test]
fn points_are_written_and_read_as_four_limbs() {
    let g = generator();
    let mut out = [0xeeu8; 230];
    encode_extended_point(&g, &mut out);
    assert_eq!(
        hex(&out[..56]),
        "297ea0ea2692ff1b4faff46098453a6a26adf733245f065c3c59d0709cecfa96147eaaf3932d94c63d96c170033f4ba0c7f0de840aed939f"
    );
    assert_eq!(&out[56..111], &[0u8; 55]);
    assert_eq!(out[111], 19);
    assert_eq!(out[167], 1);
    assert_eq!(&out[224..], &[0xeeu8; 6]);
    let back = decode_extended_point(&out);
    assert_eq!(coords(&back), coords(&g));
}

#[test]
fn authpak_hash_exact_value() {
    let hash = authpak_hash("test1234", "glenda");
    assert_eq!(hex(&hash[..16]), "df40966d3445560680243a1a009f9deb");
    assert_eq!(hex(&hash[432..]), "4223502bcccd7cbfe51d49533c2262b7");
    // Both halves hold points of the curve.
    assert!(verify_on_curve(&decode_extended_point(&hash[..224])));
    assert!(verify_on_curve(&decode_extended_point(&hash[224..])));
    // Another user or another password gives other points.
    assert_ne!(authpak_hash("test1234", "bootes")[..16], hash[..16]);
    assert_ne!(authpak_hash("test12345", "glenda")[..16], hash[..16]);
}

fn fixed_sides(hash: &[u8; 448]) -> (PakPriv, PakPriv) {
    let mut client_random = [0u8; 56];
    let mut server_random = [0u8; 56];
    for i in 0..56 {
        client_random[i] = (i + 1) as u8;
        server_random[i] = (i + 200) as u8;
    }
    (authpak_new_from(hash, true, &client_random), authpak_new_from(hash, false, &server_random))
}

#[test]
fn exchange_from_given_random_bytes_exact_values() {
    let hash = authpak_hash("test1234", "glenda");
    let (client, server) = fixed_sides(&hash);
    assert!(client.is_client);
    assert!(!server.is_client);
    assert_eq!(
        hex(&client.x),
        "0102030405060708090a0b0c0d0e0f101112131415161718191a1b1c1d1e1f202122232425262728292a2b2c2d2e2f303132333435363738"
    );
    assert_eq!(
        hex(&client.y),
        "2615e6cf139224c789b515043c552c4c147f541286d99a58c65a126839e6b43a6bed73c4bcd08e8a88e1c00f30a6d3be2470f514df2713f1"
    );
    // The server's random number is above the order and is reduced.
    assert_eq!(
        hex(&server.x),
        "08c9cacbcccdcecfd0d1d2d3d4d5d6d7d8d9dadbdcdddedfe0e1e2e56e877b2a9bfd590ee06b4b3f8cabab9c4ba548f88e8fb343faf53026"
    );
    assert_eq!(
        hex(&server.y),
        "4fc4006676a8cf152201002bac168f0e2320f637a8515137d2fbeecf26e6543c79c66763ec617f7b8c3f58be4bd5198ce880d2d4d96eeb48"
    );
    let client_key = authpak_finish(&client, &hash, &server.y).unwrap();
    let server_key = authpak_finish(&server, &hash, &client.y).unwrap();
    assert_eq!(
        hex(&client_key),
        "868f0124c6bae72630b9126aa847651bdcb6aeff130492156fd039315644e65a"
    );
    assert_eq!(client_key, server_key);
    assert_eq!(client_key.len(), PAKKEYLEN);
}

#[test]
fn exchange_with_another_password_gives_another_key() {
    let hash = authpak_hash("test1234", "glenda");
    let other = authpak_hash("wrong", "glenda");
    let (client, _) = fixed_sides(&hash);
    let (_, server) = fixed_sides(&other);
    let client_key = authpak_finish(&client, &hash, &server.y).unwrap();
    let server_key = authpak_finish(&server, &other, &client.y).unwrap();
    assert_ne!(client_key, server_key);
}

#[test]
fn finish_fails_on_a_peer_value_that_is_no_point() {
    let hash = authpak_hash("test1234", "glenda");
    let (client, _) = fixed_sides(&hash);
    let mut one = [0u8; 56];
    one[55] = 1;
    let err = authpak_finish(&client, &hash, &one).unwrap_err();
    assert_eq!(err.0, "Failed to decode peer Y value");
    assert_eq!(err.message(), "Failed to decode peer Y value");
    let err = authpak_finish(&client, &hash, &[0xffu8; 56]).unwrap_err();
    assert_eq!(err.0, "Failed to decode peer Y value");
}

#[test]
fn random_scalars_are_below_the_order() {
    let q = big(&curve_order_number());
    let a = big(&generate_random_scalar().unwrap());
    let b = big(&generate_random_scalar().unwrap());
    assert!(a < q && b < q);
    assert_ne!(a, b);
    let hash = authpak_hash("test1234", "glenda");
    let one = authpak_new(&hash, true).unwrap();
    let two = authpak_new(&hash, true).unwrap();
    assert_ne!(one.x, two.x);
    assert_ne!(one.y, two.y);
    assert!(BigUint::from_bytes_be(&one.x) < q);
    assert!(decaf_decode(&one.y).is_some());
}
