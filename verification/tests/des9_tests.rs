use enoch_auth::des9::{
    block_cipher, des_key_setup, expand_key, key_comp_perm, plan9_decrypt, plan9_encrypt,
};

fn from_hex(s: &str) -> Vec<u8> {
    let digits: Vec<u8> = s.bytes().map(|c| (c as char).to_digit(16).unwrap() as u8).collect();
    digits.chunks(2).map(|p| (p[0] << 4) | p[1]).collect()
}

fn to_hex(bytes: &[u8]) -> String {
    let mut out = String::new();
    for b in bytes {
        out.push_str(&format!("{:02x}", b));
    }
    out
}

#[test]
fn test_expand_key() {
    // Test vector: known 7-byte key -> 8-byte expanded
    let key7: [u8; 7] = [0x01, 0x23, 0x45, 0x67, 0x89, 0xab, 0xcd];
    let key8 = expand_key(&key7);

    // Each byte should have odd parity
    for &b in &key8 {
        assert_eq!(b.count_ones() % 2, 1, "Parity check failed for {:#04x}", b);
    }
}

#[test]
fn test_encrypt_decrypt_roundtrip() {
    let key: [u8; 7] = [0x01, 0x23, 0x45, 0x67, 0x89, 0xab, 0xcd];
    let original = b"Hello, Plan 9 World!".to_vec();
    let mut data = original.clone();

    plan9_encrypt(&key, &mut data);
    assert_ne!(data, original, "Encryption should change data");

    plan9_decrypt(&key, &mut data);
    assert_eq!(data, original, "Decryption should restore original");
}

#[test]
fn test_ticket_size_roundtrip() {
    // p9sk1 ticket is 72 bytes
    let key: [u8; 7] = [0x11, 0x22, 0x33, 0x44, 0x55, 0x66, 0x77];
    let mut ticket = vec![0u8; 72];
    for (i, b) in ticket.iter_mut().enumerate() {
        *b = i as u8;
    }
    let original = ticket.clone();

    plan9_encrypt(&key, &mut ticket);
    assert_ne!(ticket, original);

    plan9_decrypt(&key, &mut ticket);
    assert_eq!(ticket, original);
}

#[test]
fn test_des_encrypt_interop_8byte() {
    let key = from_hex("6776d94d0e0340");
    let plaintext = from_hex("0102030405060708");
    let expected = from_hex("35597a5f09782178");

    let mut key7 = [0u8; 7];
    key7.copy_from_slice(&key);

    let mut data = plaintext.clone();
    plan9_encrypt(&key7, &mut data);

    assert_eq!(to_hex(&data), to_hex(&expected), "DES 8-byte encryption mismatch");
}

#[test]
fn test_des_encrypt_interop_72byte() {
    let key = from_hex("6776d94d0e0340");
    let plaintext = from_hex(
        "000102030405060708090a0b0c0d0e0f101112131415161718191a1b1c1d1e1f\
         202122232425262728292a2b2c2d2e2f303132333435363738393a3b3c3d3e3f\
         4041424344454647",
    );
    let expected = from_hex(
        "51162cad5fa17d866e955b5fb1552260338ce1fccec8bf1a2f76220692fc32ca\
         0b8f222aa2f58a71df75f433a983ffc4f408953509323918ac10457812e27b55\
         cd89fba5dc6dd724",
    );

    let mut key7 = [0u8; 7];
    key7.copy_from_slice(&key);

    let mut data = plaintext.clone();
    plan9_encrypt(&key7, &mut data);

    assert_eq!(to_hex(&data), to_hex(&expected), "DES 72-byte encryption mismatch");

    // Also test decryption
    plan9_decrypt(&key7, &mut data);
    assert_eq!(to_hex(&data), to_hex(&plaintext), "DES 72-byte decryption mismatch");
}

#[test]
fn expand_key_exact_bytes() {
    // 0x6776d94d0e0340 in groups of seven bits: 33 5d 5b 14 68 38 06 40,
    // each shifted up by one with its parity bit below.
    let key8 = expand_key(&[0x67, 0x76, 0xd9, 0x4d, 0x0e, 0x03, 0x40]);
    assert_eq!(key8, [0x67, 0xba, 0xb6, 0x29, 0xd0, 0x70, 0x0d, 0x80]);
    assert_eq!(expand_key(&[0u8; 7]), [0x01u8; 8]);
    assert_eq!(expand_key(&[0xffu8; 7]), [0xfeu8; 8]);
}

#[test]
fn expand_key_parity_for_many_keys() {
    for seed in 0u32..2000 {
        let mut key7 = [0u8; 7];
        let mut x = seed.wrapping_mul(2654435761).wrapping_add(12345);
        for b in key7.iter_mut() {
            x = x.wrapping_mul(1664525).wrapping_add(1013904223);
            *b = (x >> 24) as u8;
        }
        for &b in &expand_key(&key7) {
            assert_eq!(b.count_ones() % 2, 1);
        }
    }
}

#[test]
fn key_schedule_is_the_same_through_both_entries() {
    let key8 = expand_key(&[0x67, 0x76, 0xd9, 0x4d, 0x0e, 0x03, 0x40]);
    let ek = des_key_setup(&key8);
    assert_ne!(ek, [0u32; 32]);
    // The low two bits of every subkey are clear: the lowest field sits at bit 2.
    for k in ek.iter() {
        assert_eq!(k & 3, 0);
    }
    // The schedule of the all-zero halves holds only what the tables give for nibble 0.
    let mut zero = [1u32; 32];
    key_comp_perm(0, 0, &mut zero);
    assert_eq!(zero, [0u32; 32]);
}

#[test]
fn block_cipher_touches_only_its_block_and_inverts() {
    let ek = des_key_setup(&expand_key(&[0x67, 0x76, 0xd9, 0x4d, 0x0e, 0x03, 0x40]));
    let original: Vec<u8> = (0u8..20).collect();
    let mut data = original.clone();
    block_cipher(&ek, &mut data, 5, false);
    assert_eq!(&data[..5], &original[..5]);
    assert_eq!(&data[13..], &original[13..]);
    assert_ne!(&data[5..13], &original[5..13]);
    block_cipher(&ek, &mut data, 5, true);
    assert_eq!(data, original);
    // Decrypting first and encrypting after is a round trip as well.
    block_cipher(&ek, &mut data, 12, true);
    block_cipher(&ek, &mut data, 12, false);
    assert_eq!(data, original);
}

#[test]
fn block_cipher_single_block_vector() {
    let ek = des_key_setup(&expand_key(&[0x67, 0x76, 0xd9, 0x4d, 0x0e, 0x03, 0x40]));
    let mut data = [1u8, 2, 3, 4, 5, 6, 7, 8];
    block_cipher(&ek, &mut data, 0, false);
    assert_eq!(data, [0x35, 0x59, 0x7a, 0x5f, 0x09, 0x78, 0x21, 0x78]);
}

#[test]
fn short_buffers_are_left_unchanged() {
    let key: [u8; 7] = [0x01, 0x23, 0x45, 0x67, 0x89, 0xab, 0xcd];
    for len in 0usize..8 {
        let original: Vec<u8> = (0..len as u8).collect();
        let mut data = original.clone();
        plan9_encrypt(&key, &mut data);
        assert_eq!(data, original);
        plan9_decrypt(&key, &mut data);
        assert_eq!(data, original);
    }
}

#[test]
fn round_trip_for_every_length_up_to_sixty() {
    let key: [u8; 7] = [0xa1, 0x02, 0xf3, 0x44, 0x95, 0x66, 0x07];
    for len in 8usize..60 {
        let original: Vec<u8> = (0..len).map(|i| (i * 7 + 3) as u8).collect();
        let mut data = original.clone();
        plan9_encrypt(&key, &mut data);
        assert_eq!(data.len(), len);
        assert_ne!(data, original);
        plan9_decrypt(&key, &mut data);
        assert_eq!(data, original, "length {}", len);
    }
}

#[test]
fn stride_places_blocks_seven_bytes_apart() {
    // Fifteen bytes: blocks at 0 and 7, none over the tail.
    let key: [u8; 7] = [0x67, 0x76, 0xd9, 0x4d, 0x0e, 0x03, 0x40];
    let ek = des_key_setup(&expand_key(&key));
    let original: Vec<u8> = (10u8..25).collect();
    let mut by_stride = original.clone();
    plan9_encrypt(&key, &mut by_stride);
    let mut by_hand = original.clone();
    block_cipher(&ek, &mut by_hand, 0, false);
    block_cipher(&ek, &mut by_hand, 7, false);
    assert_eq!(by_stride, by_hand);
    // Thirteen bytes: one block at 0, then one over the tail at 5.
    let original: Vec<u8> = (10u8..23).collect();
    let mut by_stride = original.clone();
    plan9_encrypt(&key, &mut by_stride);
    let mut by_hand = original.clone();
    block_cipher(&ek, &mut by_hand, 0, false);
    block_cipher(&ek, &mut by_hand, 5, false);
    assert_eq!(by_stride, by_hand);
}
