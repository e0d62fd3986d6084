//! The tickets of the key-exchange protocol: 124 bytes sealed with
//! ChaCha20-Poly1305 under the key that the exchange yields.

use crate::p9sk1::{fixed_text, read_fixed_string, take};
use chacha20poly1305::aead::Aead;
use chacha20poly1305::{ChaCha20Poly1305, Key, KeyInit, Nonce};
use vstd::prelude::*;

verus! {

/// Width of a sealed ticket: signature, counter, ciphertext and tag.
pub const PAKTICKETLEN: usize = 124;

/// Width of a ticket's plaintext.
pub const PAKTICKETPLAIN: usize = 96;

/// What an opened ticket holds.
#[derive(Debug, Clone)]
pub struct PakTicket {
    pub challenge: [u8; 8],
    pub cuid: String,
    pub suid: String,
    pub key: [u8; 32],
}

/// What ChaCha20-Poly1305 without associated data opens a sealed message
/// to under a key and a nonce; none where the tag does not fit.
pub uninterp spec fn chacha20poly1305_opened(key: Seq<u8>, nonce: Seq<u8>, sealed: Seq<u8>) -> Option<
    Seq<u8>,
>;

/// Calls `ChaCha20Poly1305::new` and `decrypt` of `chacha20poly1305`.
/// Trusted: the outcome is a function of the key, the nonce and the sealed
/// bytes alone, and a plaintext is 16 bytes, the tag, shorter than what
/// was sealed.
#[verifier::external_body]
fn aead_open(key: &[u8; 32], nonce: &[u8; 12], sealed: &[u8]) -> (r: Option<Vec<u8>>)
    ensures
        match r {
            Some(plain) => chacha20poly1305_opened(key@, nonce@, sealed@) == Some(plain@)
                && plain@.len() + 16 == sealed@.len(),
            None => chacha20poly1305_opened(key@, nonce@, sealed@) is None,
        },
{
    ChaCha20Poly1305::new(Key::from_slice(key)).decrypt(Nonce::from_slice(nonce), sealed).ok()
}

/// The nonce of a sealed ticket: its signature and counter, which are its
/// first twelve bytes.
pub open spec fn nonce_of(ticket: Seq<u8>) -> Seq<u8> {
    ticket.subrange(0, 12)
}

/// The ciphertext and tag of a sealed ticket: all behind the nonce.
pub open spec fn sealed_part(ticket: Seq<u8>) -> Seq<u8> {
    ticket.subrange(12, 124)
}

/// The 96 bytes of a ticket's plaintext, taken apart.
pub open spec fn pak_ticket_fields(plain: Seq<u8>, t: PakTicket) -> bool {
    &&& t.challenge@ == plain.subrange(0, 8)
    &&& t.cuid@ == fixed_text(plain.subrange(8, 36))
    &&& t.suid@ == fixed_text(plain.subrange(36, 64))
    &&& t.key@ == plain.subrange(64, 96)
}

/// The nonce under which a ticket is opened.
pub fn ticket_nonce(ticket: &[u8; 124]) -> (nonce: [u8; 12])
    ensures
        nonce@ == nonce_of(ticket@),
{
    take::<12>(ticket, 0)
}

/// Takes the plaintext of a ticket apart: the challenge, the client's and
/// the server's name, and the session key. None where it is not 96 bytes.
pub fn parse_pak_ticket(plain: &[u8]) -> (r: Option<PakTicket>)
    ensures
        match r {
            Some(t) => plain@.len() == 96 && pak_ticket_fields(plain@, t),
            None => plain@.len() != 96,
        },
{
    if plain.len() != 96 {
        return None;
    }
    let challenge: [u8; 8] = take::<8>(plain, 0);
    let cuid_field: [u8; 28] = take::<28>(plain, 8);
    let suid_field: [u8; 28] = take::<28>(plain, 36);
    let cuid = read_fixed_string(&cuid_field);
    let suid = read_fixed_string(&suid_field);
    let key: [u8; 32] = take::<32>(plain, 64);
    Some(PakTicket { challenge, cuid, suid, key })
}

/// Opens a sealed ticket under the key of the exchange, with the ticket's
/// own first twelve bytes as the nonce, and takes its plaintext apart.
/// None exactly where the tag does not fit.
pub fn decrypt_pak_ticket(ticket: &[u8; 124], pak_key: &[u8; 32]) -> (r: Option<PakTicket>)
    ensures
        match chacha20poly1305_opened(pak_key@, nonce_of(ticket@), sealed_part(ticket@)) {
            Some(plain) => r matches Some(t) && pak_ticket_fields(plain, t),
            None => r is None,
        },
{
    let nonce = ticket_nonce(ticket);
    match aead_open(pak_key, &nonce, &ticket[12..124]) {
        Some(plain) => parse_pak_ticket(plain.as_slice()),
        None => None,
    }
}

} // verus!
