use enoch_auth::des9::plan9_encrypt;
use enoch_auth::p9sk1::{
    decrypt_authenticator, decrypt_ticket, make_authenticator, make_ticket_request, pass_to_key,
    read_fixed_string, write_fixed_string, P9sk1Client, ANAMELEN, AUTHENTLEN, AUTH_AC, AUTH_AS,
    AUTH_ERR, AUTH_OK, AUTH_PAK, AUTH_TC, AUTH_TREQ, AUTH_TS, CHALLEN, DESSION, DOMLEN, TICKETLEN,
    TREQLEN,
};

fn hex_of(bytes: &[u8]) -> String {
    let mut out = String::new();
    for b in bytes {
        out.push_str(&format!("{:02x}", b));
    }
    out
}

#[test]
fn test_pass_to_key_simple() {
    // Simple password
    let key = pass_to_key("password");
    assert_eq!(key.len(), 7);

    // Should be deterministic
    let key2 = pass_to_key("password");
    assert_eq!(key, key2);

    // Different password should give different key
    let key3 = pass_to_key("different");
    assert_ne!(key, key3);
}

#[test]
fn test_pass_to_key_empty() {
    // Empty password should work (all spaces)
    let key = pass_to_key("");
    assert_eq!(key.len(), 7);
}

#[test]
fn test_pass_to_key_long() {
    // Long password (uses iterative encryption)
    let key = pass_to_key("this is a very long password that exceeds 8 characters");
    assert_eq!(key.len(), 7);
}

#[test]
fn test_fixed_string_roundtrip() {
    let mut buf = [0u8; ANAMELEN];
    write_fixed_string(&mut buf, "testuser");
    let result = read_fixed_string(&buf);
    assert_eq!(result, "testuser");
}

#[test]
fn test_ticket_request_format() {
    let challenge = [0x01, 0x02, 0x03, 0x04, 0x05, 0x06, 0x07, 0x08];
    let req = make_ticket_request("authserver", "9front.local", &challenge, "cpuserver", "glenda");

    assert_eq!(req[0], AUTH_TREQ);
    assert_eq!(req.len(), 141);

    // Verify challenge is in the right place
    assert_eq!(&req[1 + ANAMELEN + DOMLEN..1 + ANAMELEN + DOMLEN + CHALLEN], &challenge);
}

#[test]
fn test_authenticator_roundtrip() {
    let session_key: [u8; 7] = [0x11, 0x22, 0x33, 0x44, 0x55, 0x66, 0x77];
    let challenge: [u8; 8] = [0x01, 0x02, 0x03, 0x04, 0x05, 0x06, 0x07, 0x08];
    let id = 12345u32;

    let encrypted = make_authenticator(AUTH_AC, &challenge, id, &session_key);
    let decrypted = decrypt_authenticator(&encrypted, &session_key);

    assert_eq!(decrypted.auth_type, AUTH_AC);
    assert_eq!(decrypted.challenge, challenge);
    assert_eq!(decrypted.id, id);
}

#[test]
fn test_ticket_decrypt() {
    // Create a fake ticket, encrypt it, then decrypt
    let key: [u8; 7] = [0x11, 0x22, 0x33, 0x44, 0x55, 0x66, 0x77];
    let session_key: [u8; 7] = [0xaa, 0xbb, 0xcc, 0xdd, 0xee, 0xff, 0x00];
    let challenge: [u8; 8] = [0x01, 0x02, 0x03, 0x04, 0x05, 0x06, 0x07, 0x08];

    // Build plaintext ticket
    let mut ticket = [0u8; TICKETLEN];
    ticket[0] = AUTH_TC;
    ticket[1..9].copy_from_slice(&challenge);
    write_fixed_string(&mut ticket[9..9 + ANAMELEN], "glenda");
    write_fixed_string(&mut ticket[9 + ANAMELEN..9 + 2 * ANAMELEN], "cpuserver");
    ticket[9 + 2 * ANAMELEN..].copy_from_slice(&session_key);

    // Encrypt
    plan9_encrypt(&key, &mut ticket);

    // Decrypt and verify
    let decrypted = decrypt_ticket(&ticket, &key);
    assert_eq!(decrypted.ticket_type, AUTH_TC);
    assert_eq!(decrypted.challenge, challenge);
    assert_eq!(decrypted.cuid, "glenda");
    assert_eq!(decrypted.suid, "cpuserver");
    assert_eq!(decrypted.key, session_key);
}

#[test]
fn test_pass_to_key_interop() {
    let test_vectors: &[(&str, &str)] = &[
        ("", "00100804028140"),
        ("glenda", "6776d94d0e0340"),
        ("password", "f0f07c7e7fcbc9"),
        ("p", "70000804028140"),
        ("12345678", "31d98c56b3dd70"),
        ("this is a long password", "0230f8b49e8dde"),
    ];

    for (password, expected_hex) in test_vectors {
        let key = pass_to_key(password);
        let actual_hex = hex_of(&key);
        assert_eq!(
            actual_hex, *expected_hex,
            "PassToKey mismatch for password {:?}: expected {}, got {}",
            password, expected_hex, actual_hex
        );
    }
}

#[test]
fn pass_to_key_empty_vector() {
    assert_eq!(pass_to_key(""), [0x00, 0x10, 0x08, 0x04, 0x02, 0x81, 0x40]);
}

#[test]
fn pass_to_key_glenda_vector() {
    assert_eq!(pass_to_key("glenda"), [0x67, 0x76, 0xd9, 0x4d, 0x0e, 0x03, 0x40]);
}

#[test]
fn pass_to_key_password_vector() {
    assert_eq!(pass_to_key("password"), [0xf0, 0xf0, 0x7c, 0x7e, 0x7f, 0xcb, 0xc9]);
}

#[test]
fn pass_to_key_reads_no_further_than_27_bytes() {
    let a = "abcdefghijklmnopqrstuvwxyz0";
    let b = "abcdefghijklmnopqrstuvwxyz0123456789";
    assert_eq!(a.len(), 27);
    assert_eq!(pass_to_key(a), pass_to_key(b));
    assert_ne!(pass_to_key(a), pass_to_key(&a[..26]));
}

#[test]
fn pass_to_key_is_the_same_on_every_call() {
    for pw in ["", "p", "12345678", "123456789", "sixteen chars ok", "seventeen chars ok", "ünïcödé"] {
        assert_eq!(pass_to_key(pw), pass_to_key(pw));
    }
}

#[test]
fn constants_have_the_wire_values() {
    assert_eq!((ANAMELEN, DOMLEN, CHALLEN, DESSION), (28, 48, 8, 7));
    assert_eq!((TICKETLEN, AUTHENTLEN, TREQLEN), (72, 13, 141));
    assert_eq!((AUTH_TREQ, AUTH_OK, AUTH_ERR, AUTH_PAK), (1, 4, 5, 19));
    assert_eq!((AUTH_TS, AUTH_TC, AUTH_AS, AUTH_AC), (64, 65, 66, 67));
}

#[test]
fn write_fixed_string_cuts_to_one_less_than_the_width() {
    let mut buf = [0xffu8; 8];
    write_fixed_string(&mut buf, "abcdefghijkl");
    assert_eq!(&buf, b"abcdefg\0");
    write_fixed_string(&mut buf, "ab");
    assert_eq!(&buf, b"ab\0\0\0\0\0\0");
    write_fixed_string(&mut buf, "");
    assert_eq!(buf, [0u8; 8]);
    let mut one = [0xffu8; 1];
    write_fixed_string(&mut one, "x");
    assert_eq!(one, [0u8]);
}

#[test]
fn read_fixed_string_stops_at_the_first_zero() {
    assert_eq!(read_fixed_string(b"ab\0cd\0"), "ab");
    assert_eq!(read_fixed_string(b"\0abc"), "");
    assert_eq!(read_fixed_string(b"abcd"), "abcd");
    assert_eq!(read_fixed_string(b""), "");
    // Bytes that are no UTF-8 come out as the replacement character.
    assert_eq!(read_fixed_string(&[b'a', 0xff, b'b', 0, b'c']), "a\u{fffd}b");
    assert_eq!(read_fixed_string("héllo\0".as_bytes()), "héllo");
}

#[test]
fn ticket_request_exact_layout() {
    let challenge = [0xa1, 0xa2, 0xa3, 0xa4, 0xa5, 0xa6, 0xa7, 0xa8];
    let long_name = "a-name-that-is-longer-than-twenty-eight-bytes";
    let req = make_ticket_request(long_name, "dom", &challenge, "host", "");
    let mut expected = [0u8; 141];
    expected[0] = 1;
    expected[1..28].copy_from_slice(&long_name.as_bytes()[..27]);
    expected[29..32].copy_from_slice(b"dom");
    expected[77..85].copy_from_slice(&challenge);
    expected[85..89].copy_from_slice(b"host");
    assert_eq!(req, expected);
    assert_eq!(req[28], 0);
}

#[test]
fn authenticator_exact_bytes() {
    // The plaintext is 43 | 01..08 | 39 30 00 00; thirteen bytes take one
    // block at 0 and one over the tail at 5.
    let session_key: [u8; 7] = [0x11, 0x22, 0x33, 0x44, 0x55, 0x66, 0x77];
    let challenge: [u8; 8] = [1, 2, 3, 4, 5, 6, 7, 8];
    let auth = make_authenticator(AUTH_AC, &challenge, 12345, &session_key);
    let mut plain = [0u8; 13];
    plain[0] = 67;
    plain[1..9].copy_from_slice(&challenge);
    plain[9..].copy_from_slice(&[0x39, 0x30, 0, 0]);
    let mut expected = plain;
    plan9_encrypt(&session_key, &mut expected);
    assert_eq!(auth, expected);
    assert_ne!(auth, plain);
    let back = decrypt_authenticator(&auth, &session_key);
    assert_eq!(back.id, 12345);
    let top = make_authenticator(AUTH_AS, &challenge, 0xfedc_ba98, &session_key);
    assert_eq!(decrypt_authenticator(&top, &session_key).id, 0xfedc_ba98);
    assert_eq!(decrypt_authenticator(&top, &session_key).auth_type, AUTH_AS);
}

#[test]
fn client_derives_its_key_and_builds_the_authenticator() {
    let client = P9sk1Client::new("glenda", "password");
    assert_eq!(client.user, "glenda");
    assert_eq!(client.password, "password");
    assert_eq!(client.get_key(), &[0xf0, 0xf0, 0x7c, 0x7e, 0x7f, 0xcb, 0xc9]);

    let session_key: [u8; 7] = [0xaa, 0xbb, 0xcc, 0xdd, 0xee, 0xff, 0x00];
    let mut plain = [0u8; TICKETLEN];
    plain[0] = AUTH_TC;
    plain[1..9].copy_from_slice(&[9, 8, 7, 6, 5, 4, 3, 2]);
    write_fixed_string(&mut plain[9..37], "glenda");
    write_fixed_string(&mut plain[37..65], "server");
    plain[65..].copy_from_slice(&session_key);
    let mut sealed = plain;
    plan9_encrypt(client.get_key(), &mut sealed);
    let ticket = client.decrypt_client_ticket(&sealed);
    assert_eq!(ticket.ticket_type, AUTH_TC);
    assert_eq!(ticket.challenge, [9, 8, 7, 6, 5, 4, 3, 2]);
    assert_eq!(ticket.cuid, "glenda");
    assert_eq!(ticket.suid, "server");
    assert_eq!(ticket.key, session_key);

    // The first byte of the challenge goes up by one and wraps.
    let auth = client.make_client_authenticator(&ticket, &[0xff, 1, 2, 3, 4, 5, 6, 7], 7);
    let back = decrypt_authenticator(&auth, &session_key);
    assert_eq!(back.auth_type, AUTH_AC);
    assert_eq!(back.challenge, [0x00, 1, 2, 3, 4, 5, 6, 7]);
    assert_eq!(back.id, 7);
    let auth = client.make_client_authenticator(&ticket, &[0x10, 1, 2, 3, 4, 5, 6, 7], 7);
    assert_eq!(decrypt_authenticator(&auth, &session_key).challenge[0], 0x11);
}
