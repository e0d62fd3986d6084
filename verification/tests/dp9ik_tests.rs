use chacha20poly1305::aead::Aead;
use chacha20poly1305::{ChaCha20Poly1305, Key, KeyInit, Nonce};
use enoch_auth::dp9ik::{
    decrypt_pak_ticket, parse_pak_ticket, ticket_nonce, PAKTICKETLEN, PAKTICKETPLAIN,
};

fn from_hex(s: &str) -> Vec<u8> {
    let digits: Vec<u8> = s.bytes().map(|c| (c as char).to_digit(16).unwrap() as u8).collect();
    digits.chunks(2).map(|p| (p[0] << 4) | p[1]).collect()
}

fn sample_plain() -> [u8; 96] {
    let mut plain = [0u8; 96];
    for i in 0..8 {
        plain[i] = 0xa0 + i as u8;
    }
    plain[8..14].copy_from_slice(b"glenda");
    plain[36..42].copy_from_slice(b"bootes");
    for i in 0..32 {
        plain[64 + i] = 0x40 + i as u8;
    }
    plain
}

fn sample_key() -> [u8; 32] {
    let mut key = [0u8; 32];
    for i in 0..32 {
        key[i] = i as u8;
    }
    key
}

const SEALED: &str = "666f726d3120546301000000a3e713065ab5db0c077774ba55f06759bd6cc250dbd04a25a59aa96dcb559a1b0205804b4b8ceef359dba37e97e9d8ed591eeb2c701e20a98e844e5cb9bdc4bdebc5330cf77ea72ba9401473155c832dce9667c217d926fc03c7629fe3d999a2996e56b425f40a91e91753435aeefab3";

fn sealed_ticket() -> [u8; 124] {
    let mut ticket = [0u8; 124];
    ticket.copy_from_slice(&from_hex(SEALED));
    ticket
}

#[test]
fn nonce_is_the_first_twelve_bytes() {
    let ticket = sealed_ticket();
    assert_eq!(&ticket_nonce(&ticket), b"form1 Tc\x01\x00\x00\x00");
    let mut other = [0u8; 124];
    for i in 0..124 {
        other[i] = i as u8;
    }
    assert_eq!(ticket_nonce(&other), [0, 1, 2, 3, 4, 5, 6, 7, 8, 9, 10, 11]);
    assert_eq!((PAKTICKETLEN, PAKTICKETPLAIN), (124, 96));
}

#[test]
fn known_ticket_opens_to_its_fields() {
    let ticket = decrypt_pak_ticket(&sealed_ticket(), &sample_key()).expect("opens");
    assert_eq!(ticket.challenge, [0xa0, 0xa1, 0xa2, 0xa3, 0xa4, 0xa5, 0xa6, 0xa7]);
    assert_eq!(ticket.cuid, "glenda");
    assert_eq!(ticket.suid, "bootes");
    assert_eq!(&ticket.key[..4], &[0x40, 0x41, 0x42, 0x43]);
    assert_eq!(ticket.key[31], 0x5f);
}

#[test]
fn ticket_sealed_under_its_own_header_opens() {
    let key = sample_key();
    let plain = sample_plain();
    let mut ticket = [0u8; 124];
    ticket[..8].copy_from_slice(b"form1 Ts");
    ticket[8..12].copy_from_slice(&[7, 0, 0, 0]);
    let sealed = ChaCha20Poly1305::new(Key::from_slice(&key))
        .encrypt(Nonce::from_slice(&ticket[..12]), &plain[..])
        .unwrap();
    ticket[12..].copy_from_slice(&sealed);
    let opened = decrypt_pak_ticket(&ticket, &key).expect("opens");
    assert_eq!(opened.challenge, plain[..8]);
    assert_eq!(opened.key, plain[64..]);
    // One changed bit in the counter is another nonce: the tag no longer fits.
    let mut moved = ticket;
    moved[8] ^= 1;
    assert!(decrypt_pak_ticket(&moved, &key).is_none());
}

#[test]
fn tampered_ticket_or_wrong_key_does_not_open() {
    let key = sample_key();
    let mut ticket = sealed_ticket();
    ticket[50] ^= 0x80;
    assert!(decrypt_pak_ticket(&ticket, &key).is_none());
    let mut ticket = sealed_ticket();
    ticket[123] ^= 1;
    assert!(decrypt_pak_ticket(&ticket, &key).is_none());
    let mut wrong = key;
    wrong[0] ^= 1;
    assert!(decrypt_pak_ticket(&sealed_ticket(), &wrong).is_none());
}

#[test]
fn plaintext_of_another_length_is_no_ticket() {
    let plain = sample_plain();
    assert!(parse_pak_ticket(&plain[..95]).is_none());
    assert!(parse_pak_ticket(&[]).is_none());
    let mut longer = plain.to_vec();
    longer.push(0);
    assert!(parse_pak_ticket(&longer).is_none());
    let t = parse_pak_ticket(&plain).unwrap();
    assert_eq!(t.cuid, "glenda");
    assert_eq!(t.suid, "bootes");
    assert_eq!(t.clone().challenge, t.challenge);
}
