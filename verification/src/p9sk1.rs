//! The classic shared-key protocol: the key derived from a password, the
//! fixed-width records that travel to and from the authentication server,
//! and the client's part in it.

use crate::des9::{plan9_decrypt, plan9_decrypted, plan9_encrypt, plan9_encrypted};
use crate::des9::{lemma_plan9_encrypted_len, lemma_plan9_round_trip};
use vstd::prelude::*;
use vstd::utf8::{decode_utf8, encode_utf8, valid_utf8};

verus! {

/// Width of a user or host name on the wire.
pub const ANAMELEN: usize = 28;

/// Width of an authentication domain on the wire.
pub const DOMLEN: usize = 48;

/// Width of a challenge.
pub const CHALLEN: usize = 8;

/// Width of a DES key.
pub const DESSION: usize = 7;

/// Width of an encrypted ticket.
pub const TICKETLEN: usize = 72;

/// Width of an encrypted authenticator.
pub const AUTHENTLEN: usize = 13;

/// Width of a ticket request.
pub const TREQLEN: usize = 141;

/// Message type: ticket request.
pub const AUTH_TREQ: u8 = 1;

/// Message type: success.
pub const AUTH_OK: u8 = 4;

/// Message type: failure, followed by a message.
pub const AUTH_ERR: u8 = 5;

/// Message type: request for a password-authenticated key exchange.
pub const AUTH_PAK: u8 = 19;

/// Message type: ticket for the server.
pub const AUTH_TS: u8 = 64;

/// Message type: ticket for the client.
pub const AUTH_TC: u8 = 65;

/// Message type: authenticator from the server.
pub const AUTH_AS: u8 = 66;

/// Message type: authenticator from the client.
pub const AUTH_AC: u8 = 67;

/// What a decrypted ticket holds.
#[derive(Debug, Clone)]
pub struct Ticket {
    pub ticket_type: u8,
    pub challenge: [u8; 8],
    pub cuid: String,
    pub suid: String,
    pub key: [u8; 7],
}

/// What a decrypted authenticator holds.
#[derive(Debug, Clone)]
pub struct Authenticator {
    pub auth_type: u8,
    pub challenge: [u8; 8],
    pub id: u32,
}

/// The text that std's lossy UTF-8 decoding makes of a byte string.
pub uninterp spec fn lossy_text(bytes: Seq<u8>) -> Seq<char>;

/// Calls std's `String::from_utf8_lossy` and takes the result as an owned
/// string. Trusted: the result is a function of the bytes alone, and bytes
/// that are valid UTF-8 decode to the text they encode.
#[verifier::external_body]
fn utf8_lossy(bytes: &[u8]) -> (text: String)
    ensures
        text@ == lossy_text(bytes@),
        valid_utf8(bytes@) ==> text@ == decode_utf8(bytes@),
{
    String::from_utf8_lossy(bytes).into_owned()
}

/// A fixed-width field that carries `bytes`: at most `width - 1` of them,
/// then zeros up to the width, so that at least one zero ends it.
pub open spec fn fixed_field(bytes: Seq<u8>, width: int) -> Seq<u8> {
    Seq::new(
        width as nat,
        |i: int|
            if i < bytes.len() && i < width - 1 {
                bytes[i]
            } else {
                0u8
            },
    )
}

/// Where the first zero byte at or behind `i` stands, or the length of
/// `data` if there is none.
pub open spec fn nul_from(data: Seq<u8>, i: int) -> int
    decreases data.len() - i,
{
    if i < 0 || i >= data.len() || data[i] == 0 {
        i
    } else {
        nul_from(data, i + 1)
    }
}

/// The bytes of a fixed-width field up to its first zero byte.
pub open spec fn fixed_bytes(data: Seq<u8>) -> Seq<u8> {
    data.subrange(0, nul_from(data, 0))
}

/// The text of a fixed-width field: its bytes up to the first zero,
/// decoded leniently.
pub open spec fn fixed_text(data: Seq<u8>) -> Seq<char> {
    lossy_text(fixed_bytes(data))
}

/// The four bytes of `id`, lowest first.
pub open spec fn le_bytes(id: u32) -> Seq<u8> {
    seq![
        (id & 0xff) as u8,
        ((id >> 8) & 0xff) as u8,
        ((id >> 16) & 0xff) as u8,
        ((id >> 24) & 0xff) as u8,
    ]
}

/// The number that four bytes hold, lowest first.
pub open spec fn le_value(b: Seq<u8>) -> u32 {
    (b[0] as u32) | ((b[1] as u32) << 8) | ((b[2] as u32) << 16) | ((b[3] as u32) << 24)
}

/// Reading four bytes back gives the number that was written.
pub proof fn lemma_le_round_trip(id: u32)
    ensures
        le_bytes(id).len() == 4,
        le_value(le_bytes(id)) == id,
{
    let b = le_bytes(id);
    let (b0, b1, b2, b3) = (b[0], b[1], b[2], b[3]);
    assert((b0 as u32) | ((b1 as u32) << 8) | ((b2 as u32) << 16) | ((b3 as u32) << 24) == id)
        by (bit_vector)
        requires
            b0 == (id & 0xff) as u8,
            b1 == ((id >> 8) & 0xff) as u8,
            b2 == ((id >> 16) & 0xff) as u8,
            b3 == ((id >> 24) & 0xff) as u8,
    ;
}

/// Reads the text of a fixed-width field: everything before the first zero
/// byte, or the whole field where it holds none.
pub fn read_fixed_string(data: &[u8]) -> (text: String)
    ensures
        text@ == fixed_text(data@),
{
    let mut end: usize = 0;
    while end < data.len() && data[end] != 0
        invariant
            end <= data.len(),
            nul_from(data@, end as int) == nul_from(data@, 0),
        decreases data.len() - end,
    {
        end += 1;
    }
    utf8_lossy(&data[0..end])
}

/// Fills `dest` with the bytes of `s`, cut to one less than the width of
/// `dest`, and zeros behind them.
pub fn write_fixed_string(dest: &mut [u8], s: &str)
    requires
        old(dest).len() >= 1,
    ensures
        final(dest)@ == fixed_field(encode_utf8(s@), old(dest).len() as int),
{
    let bytes = s.as_bytes();
    let width: usize = dest.len();
    let len: usize = if bytes.len() < width - 1 {
        bytes.len()
    } else {
        width - 1
    };
    let mut i: usize = 0;
    while i < width
        invariant
            i <= width,
            dest@.len() == width,
            width >= 1,
            bytes@ == encode_utf8(s@),
            len == if bytes@.len() < width - 1 {
                bytes@.len() as int
            } else {
                width - 1
            },
            forall|j: int| 0 <= j < i ==> dest@[j] == fixed_field(bytes@, width as int)[j],
        decreases width - i,
    {
        dest[i] = if i < len {
            bytes[i]
        } else {
            0u8
        };
        i += 1;
    }
    assert(dest@ =~= fixed_field(bytes@, width as int));
}

/// The `N` bytes of `data` that start at `offset`.
pub(crate) fn take<const N: usize>(data: &[u8], offset: usize) -> (out: [u8; N])
    requires
        offset + N <= data.len(),
    ensures
        out@ == data@.subrange(offset as int, offset + N),
{
    let mut out: [u8; N] = [0u8; N];
    let mut i: usize = 0;
    while i < N
        invariant
            i <= N,
            offset + N <= data.len(),
            forall|j: int| 0 <= j < i ==> out@[j] == data@[offset + j],
        decreases N - i,
    {
        out[i] = data[offset + i];
        i += 1;
    }
    assert(out@ =~= data@.subrange(offset as int, offset + N));
    out
}

/// Overwrites the bytes of `dest` from `offset` on with those of `src`.
pub(crate) fn put(dest: &mut [u8], offset: usize, src: &[u8])
    requires
        offset + src.len() <= old(dest).len(),
    ensures
        final(dest)@ == old(dest)@.subrange(0, offset as int) + src@ + old(dest)@.subrange(
            offset + src.len(),
            old(dest).len() as int,
        ),
{
    let ghost before = dest@;
    let width: usize = dest.len();
    let mut i: usize = 0;
    while i < src.len()
        invariant
            i <= src.len(),
            before.len() == width,
            dest@.len() == before.len(),
            offset + src.len() <= before.len(),
            forall|j: int| 0 <= j < offset || offset + i <= j < before.len() ==> dest@[j] == before[j],
            forall|j: int| 0 <= j < i ==> dest@[offset + j] == src@[j],
        decreases src.len() - i,
    {
        dest[offset + i] = src[i];
        i += 1;
    }
    assert(dest@ =~= before.subrange(0, offset as int) + src@ + before.subrange(
        offset + src.len(),
        before.len() as int,
    ));
}

/// The 28-byte scratch buffer that key derivation starts from: the
/// password cut to 27 bytes, a zero behind it, spaces up to the eighth
/// byte where the password is shorter, and zeros from there on.
pub open spec fn scratch(password: Seq<u8>) -> Seq<u8> {
    let n = if password.len() < 27 {
        password.len() as int
    } else {
        27
    };
    Seq::new(
        28,
        |i: int|
            if i < n {
                password[i]
            } else if i == n {
                0u8
            } else if i < 8 {
                0x20u8
            } else {
                0u8
            },
    )
}

/// Byte `i` (in `0..7`) of the key packed from the first eight bytes of
/// `t`: the upper bits of byte `i` below the lower bits of byte `i + 1`.
pub open spec fn key_byte(t: Seq<u8>, i: int) -> u8 {
    (t[i] >> (i as u8)) | (t[i + 1] << ((7 - i) as u8))
}

/// The 7-byte key packed from the first eight bytes of `t`.
pub open spec fn packed_key(t: Seq<u8>) -> Seq<u8> {
    Seq::new(7, |i: int| key_byte(t, i))
}

/// The key that derivation reaches from a scratch buffer with `remaining`
/// password bytes still to take in. While more than eight remain, the eight
/// bytes that end `rest` bytes before the end of the buffer, `rest` being
/// what remains after this step but no less than eight, are encrypted
/// under the key packed so far and placed at the front of the buffer.
pub open spec fn derived_key(buf: Seq<u8>, remaining: int) -> Seq<u8>
    decreases remaining,
{
    let key = packed_key(buf);
    if remaining <= 8 {
        key
    } else {
        let rest = if remaining - 8 < 8 {
            8
        } else {
            remaining - 8
        };
        let chunk = buf.subrange(28 - rest, 36 - rest);
        derived_key(plan9_encrypted(key, chunk) + buf.subrange(8, 28), rest)
    }
}

/// The 7-byte key that stands for a password, given by its bytes.
pub open spec fn password_key(password: Seq<u8>) -> Seq<u8> {
    derived_key(
        scratch(password),
        if password.len() < 27 {
            password.len() as int
        } else {
            27
        },
    )
}

fn pack_key(buf: &[u8; 28]) -> (key: [u8; 7])
    ensures
        key@ == packed_key(buf@),
{
    let mut key: [u8; 7] = [0u8; 7];
    let mut i: usize = 0;
    while i < 7
        invariant
            i <= 7,
            forall|j: int| 0 <= j < i ==> key@[j] == key_byte(buf@, j),
        decreases 7 - i,
    {
        let sh: u8 = i as u8;
        key[i] = (buf[i] >> sh) | (buf[i + 1] << (7 - sh));
        i += 1;
    }
    assert(key@ =~= packed_key(buf@));
    key
}

/// Derives the 7-byte DES key that stands for a password.
pub fn pass_to_key(password: &str) -> (key: [u8; 7])
    ensures
        key@ == password_key(encode_utf8(password@)),
{
    let pw = password.as_bytes();
    let n: usize = if pw.len() < 27 {
        pw.len()
    } else {
        27
    };
    let mut buf: [u8; 28] = [0u8; 28];
    let mut i: usize = 0;
    while i < 28
        invariant
            i <= 28,
            n <= 27,
            n <= pw@.len(),
            n == if pw@.len() < 27 {
                pw@.len() as int
            } else {
                27
            },
            forall|j: int| 0 <= j < i ==> buf@[j] == scratch(pw@)[j],
        decreases 28 - i,
    {
        buf[i] = if i < n {
            pw[i]
        } else if i == n {
            0u8
        } else if i < 8 {
            0x20u8
        } else {
            0u8
        };
        i += 1;
    }
    assert(buf@ =~= scratch(pw@));
    let mut remaining: usize = n;
    let mut key: [u8; 7] = pack_key(&buf);
    while remaining > 8
        invariant
            remaining <= 27,
            key@ == packed_key(buf@),
            derived_key(buf@, remaining as int) == password_key(pw@),
        decreases remaining,
    {
        let ghost before = buf@;
        remaining = if remaining - 8 < 8 {
            8
        } else {
            remaining - 8
        };
        let mut chunk: [u8; 8] = take::<8>(&buf, 28 - remaining);
        plan9_encrypt(&key, &mut chunk);
        proof {
            lemma_plan9_encrypted_len(key@, before.subrange(28 - remaining, 36 - remaining));
        }
        put(&mut buf, 0, &chunk);
        assert(buf@ =~= chunk@ + before.subrange(8, 28));
        key = pack_key(&buf);
    }
    key
}

/// The plaintext of a ticket, taken apart.
pub open spec fn ticket_fields(plain: Seq<u8>, t: Ticket) -> bool {
    &&& t.ticket_type == plain[0]
    &&& t.challenge@ == plain.subrange(1, 9)
    &&& t.cuid@ == fixed_text(plain.subrange(9, 37))
    &&& t.suid@ == fixed_text(plain.subrange(37, 65))
    &&& t.key@ == plain.subrange(65, 72)
}

/// Decrypts a 72-byte ticket under `key` and takes it apart: the type, the
/// challenge, the client's and the server's name, and the session key.
pub fn decrypt_ticket(encrypted: &[u8; 72], key: &[u8; 7]) -> (ticket: Ticket)
    ensures
        ticket_fields(plan9_decrypted(key@, encrypted@), ticket),
{
    let mut data: [u8; 72] = *encrypted;
    plan9_decrypt(key, &mut data);
    let ticket_type: u8 = data[0];
    let challenge: [u8; 8] = take::<8>(&data, 1);
    let cuid_field: [u8; 28] = take::<28>(&data, 9);
    let suid_field: [u8; 28] = take::<28>(&data, 37);
    let cuid = read_fixed_string(&cuid_field);
    let suid = read_fixed_string(&suid_field);
    let session_key: [u8; 7] = take::<7>(&data, 65);
    Ticket { ticket_type, challenge, cuid, suid, key: session_key }
}

/// The 13 bytes of an authenticator before encryption: the type, the
/// challenge, and the identifier lowest byte first.
pub open spec fn authenticator_plain(auth_type: u8, challenge: Seq<u8>, id: u32) -> Seq<u8> {
    seq![auth_type] + challenge + le_bytes(id)
}

/// Builds an authenticator and encrypts it under the session key.
pub fn make_authenticator(
    auth_type: u8,
    challenge: &[u8; 8],
    id: u32,
    session_key: &[u8; 7],
) -> (auth: [u8; 13])
    ensures
        auth@ == plan9_encrypted(session_key@, authenticator_plain(auth_type, challenge@, id)),
{
    let mut auth: [u8; 13] = [0u8; 13];
    auth[0] = auth_type;
    put(&mut auth, 1, challenge);
    auth[9] = (id & 0xff) as u8;
    auth[10] = ((id >> 8) & 0xff) as u8;
    auth[11] = ((id >> 16) & 0xff) as u8;
    auth[12] = ((id >> 24) & 0xff) as u8;
    assert(auth@ =~= authenticator_plain(auth_type, challenge@, id));
    plan9_encrypt(session_key, &mut auth);
    auth
}

/// The plaintext of an authenticator, taken apart.
pub open spec fn authenticator_fields(plain: Seq<u8>, a: Authenticator) -> bool {
    &&& a.auth_type == plain[0]
    &&& a.challenge@ == plain.subrange(1, 9)
    &&& a.id == le_value(plain.subrange(9, 13))
}

/// Decrypts a 13-byte authenticator under the session key and takes it
/// apart.
pub fn decrypt_authenticator(encrypted: &[u8; 13], session_key: &[u8; 7]) -> (a: Authenticator)
    ensures
        authenticator_fields(plan9_decrypted(session_key@, encrypted@), a),
{
    let mut data: [u8; 13] = *encrypted;
    plan9_decrypt(session_key, &mut data);
    let auth_type: u8 = data[0];
    let challenge: [u8; 8] = take::<8>(&data, 1);
    let id: u32 = (data[9] as u32) | ((data[10] as u32) << 8) | ((data[11] as u32) << 16) | ((
    data[12] as u32) << 24);
    Authenticator { auth_type, challenge, id }
}

/// An authenticator that was built and encrypted under a session key
/// decrypts, under the same key, to the type, challenge and identifier it
/// was built from.
pub proof fn lemma_authenticator_round_trip(
    auth_type: u8,
    challenge: Seq<u8>,
    id: u32,
    session_key: Seq<u8>,
    a: Authenticator,
)
    requires
        challenge.len() == 8,
        authenticator_fields(
            plan9_decrypted(
                session_key,
                plan9_encrypted(session_key, authenticator_plain(auth_type, challenge, id)),
            ),
            a,
        ),
    ensures
        a.auth_type == auth_type,
        a.challenge@ == challenge,
        a.id == id,
{
    let plain = authenticator_plain(auth_type, challenge, id);
    lemma_plan9_round_trip(session_key, plain);
    lemma_le_round_trip(id);
    assert(plain.subrange(1, 9) =~= challenge);
    assert(plain.subrange(9, 13) =~= le_bytes(id));
}

/// The 141 bytes of a ticket request: the type, then the fixed-width
/// fields for the authentication identity and domain, the challenge, the
/// host and the user.
pub open spec fn ticket_request(
    authid: Seq<u8>,
    authdom: Seq<u8>,
    challenge: Seq<u8>,
    hostid: Seq<u8>,
    uid: Seq<u8>,
) -> Seq<u8> {
    seq![AUTH_TREQ] + fixed_field(authid, 28) + fixed_field(authdom, 48) + challenge + fixed_field(
        hostid,
        28,
    ) + fixed_field(uid, 28)
}

/// Builds a ticket request.
pub fn make_ticket_request(
    authid: &str,
    authdom: &str,
    challenge: &[u8; 8],
    hostid: &str,
    uid: &str,
) -> (req: [u8; 141])
    ensures
        req@ == ticket_request(
            encode_utf8(authid@),
            encode_utf8(authdom@),
            challenge@,
            encode_utf8(hostid@),
            encode_utf8(uid@),
        ),
{
    let mut req: [u8; 141] = [0u8; 141];
    let mut name: [u8; 28] = [0u8; 28];
    let mut dom: [u8; 48] = [0u8; 48];
    req[0] = AUTH_TREQ;
    write_fixed_string(&mut name, authid);
    put(&mut req, 1, &name);
    write_fixed_string(&mut dom, authdom);
    put(&mut req, 29, &dom);
    put(&mut req, 77, challenge);
    write_fixed_string(&mut name, hostid);
    put(&mut req, 85, &name);
    write_fixed_string(&mut name, uid);
    put(&mut req, 113, &name);
    assert(req@ =~= ticket_request(
        encode_utf8(authid@),
        encode_utf8(authdom@),
        challenge@,
        encode_utf8(hostid@),
        encode_utf8(uid@),
    ));
    req
}

/// The client's side of the shared-key protocol: who asks, and the key
/// that stands for the password.
pub struct P9sk1Client {
    pub user: String,
    pub password: String,
    key: [u8; 7],
}

impl P9sk1Client {
    /// The key that the client holds.
    pub closed spec fn key_held(&self) -> Seq<u8> {
        self.key@
    }

    /// The user's name.
    pub closed spec fn user_text(&self) -> Seq<char> {
        self.user@
    }

    /// The password that the key was derived from.
    pub closed spec fn password_text(&self) -> Seq<char> {
        self.password@
    }

    /// A client for `user` whose key is derived from `password`.
    pub fn new(user: &str, password: &str) -> (client: Self)
        ensures
            client.user_text() == user@,
            client.password_text() == password@,
            client.key_held() == password_key(encode_utf8(password@)),
    {
        let key = pass_to_key(password);
        P9sk1Client { user: user.to_owned(), password: password.to_owned(), key }
    }

    /// The key derived from the password.
    pub fn get_key(&self) -> (key: &[u8; 7])
        ensures
            key@ == self.key_held(),
    {
        &self.key
    }

    /// Decrypts the client's ticket under the client's key.
    pub fn decrypt_client_ticket(&self, encrypted: &[u8; 72]) -> (ticket: Ticket)
        ensures
            ticket_fields(plan9_decrypted(self.key_held(), encrypted@), ticket),
    {
        decrypt_ticket(encrypted, &self.key)
    }

    /// Builds the client's authenticator for the server: the server's
    /// challenge with its first byte raised by one, wrapping at 256,
    /// encrypted under the session key of the ticket.
    pub fn make_client_authenticator(
        &self,
        ticket: &Ticket,
        server_challenge: &[u8; 8],
        id: u32,
    ) -> (auth: [u8; 13])
        ensures
            auth@ == plan9_encrypted(
                ticket.key@,
                authenticator_plain(
                    AUTH_AC,
                    server_challenge@.update(0, ((server_challenge@[0] + 1) % 256) as u8),
                    id,
                ),
            ),
    {
        let mut auth_challenge: [u8; 8] = *server_challenge;
        auth_challenge[0] = auth_challenge[0].wrapping_add(1);
        make_authenticator(AUTH_AC, &auth_challenge, id, &ticket.key)
    }
}

} // verus!
