//! Plan 9's DES: 7-byte keys, interleaved block loading and a 7-byte stride.

use vstd::prelude::*;

verus! {

/// Maps a 7-bit value to the byte that carries it in its upper seven bits and
/// completes it to odd parity with the lowest bit.
pub const PARITY_TABLE: [u8; 128] = [
    0x01, 0x02, 0x04, 0x07, 0x08, 0x0b, 0x0d, 0x0e,
    0x10, 0x13, 0x15, 0x16, 0x19, 0x1a, 0x1c, 0x1f,
    0x20, 0x23, 0x25, 0x26, 0x29, 0x2a, 0x2c, 0x2f,
    0x31, 0x32, 0x34, 0x37, 0x38, 0x3b, 0x3d, 0x3e,
    0x40, 0x43, 0x45, 0x46, 0x49, 0x4a, 0x4c, 0x4f,
    0x51, 0x52, 0x54, 0x57, 0x58, 0x5b, 0x5d, 0x5e,
    0x61, 0x62, 0x64, 0x67, 0x68, 0x6b, 0x6d, 0x6e,
    0x70, 0x73, 0x75, 0x76, 0x79, 0x7a, 0x7c, 0x7f,
    0x80, 0x83, 0x85, 0x86, 0x89, 0x8a, 0x8c, 0x8f,
    0x91, 0x92, 0x94, 0x97, 0x98, 0x9b, 0x9d, 0x9e,
    0xa1, 0xa2, 0xa4, 0xa7, 0xa8, 0xab, 0xad, 0xae,
    0xb0, 0xb3, 0xb5, 0xb6, 0xb9, 0xba, 0xbc, 0xbf,
    0xc1, 0xc2, 0xc4, 0xc7, 0xc8, 0xcb, 0xcd, 0xce,
    0xd0, 0xd3, 0xd5, 0xd6, 0xd9, 0xda, 0xdc, 0xdf,
    0xe0, 0xe3, 0xe5, 0xe6, 0xe9, 0xea, 0xec, 0xef,
    0xf1, 0xf2, 0xf4, 0xf7, 0xf8, 0xfb, 0xfd, 0xfe,
];

/// The eight S-boxes, each already passed through the P permutation, 64 words
/// apiece.
pub const SP_BOX: [u32; 512] = [
    0x00808200,0x00000000,0x00008000,0x00808202,0x00808002,0x00008202,0x00000002,0x00008000,
    0x00000200,0x00808200,0x00808202,0x00000200,0x00800202,0x00808002,0x00800000,0x00000002,
    0x00000202,0x00800200,0x00800200,0x00008200,0x00008200,0x00808000,0x00808000,0x00800202,
    0x00008002,0x00800002,0x00800002,0x00008002,0x00000000,0x00000202,0x00008202,0x00800000,
    0x00008000,0x00808202,0x00000002,0x00808000,0x00808200,0x00800000,0x00800000,0x00000200,
    0x00808002,0x00008000,0x00008200,0x00800002,0x00000200,0x00000002,0x00800202,0x00008202,
    0x00808202,0x00008002,0x00808000,0x00800202,0x00800002,0x00000202,0x00008202,0x00808200,
    0x00000202,0x00800200,0x00800200,0x00000000,0x00008002,0x00008200,0x00000000,0x00808002,

    0x40084010,0x40004000,0x00004000,0x00084010,0x00080000,0x00000010,0x40080010,0x40004010,
    0x40000010,0x40084010,0x40084000,0x40000000,0x40004000,0x00080000,0x00000010,0x40080010,
    0x00084000,0x00080010,0x40004010,0x00000000,0x40000000,0x00004000,0x00084010,0x40080000,
    0x00080010,0x40000010,0x00000000,0x00084000,0x00004010,0x40084000,0x40080000,0x00004010,
    0x00000000,0x00084010,0x40080010,0x00080000,0x40004010,0x40080000,0x40084000,0x00004000,
    0x40080000,0x40004000,0x00000010,0x40084010,0x00084010,0x00000010,0x00004000,0x40000000,
    0x00004010,0x40084000,0x00080000,0x40000010,0x00080010,0x40004010,0x40000010,0x00080010,
    0x00084000,0x00000000,0x40004000,0x00004010,0x40000000,0x40080010,0x40084010,0x00084000,

    0x00000104,0x04010100,0x00000000,0x04010004,0x04000100,0x00000000,0x00010104,0x04000100,
    0x00010004,0x04000004,0x04000004,0x00010000,0x04010104,0x00010004,0x04010000,0x00000104,
    0x04000000,0x00000004,0x04010100,0x00000100,0x00010100,0x04010000,0x04010004,0x00010104,
    0x04000104,0x00010100,0x00010000,0x04000104,0x00000004,0x04010104,0x00000100,0x04000000,
    0x04010100,0x04000000,0x00010004,0x00000104,0x00010000,0x04010100,0x04000100,0x00000000,
    0x00000100,0x00010004,0x04010104,0x04000100,0x04000004,0x00000100,0x00000000,0x04010004,
    0x04000104,0x00010000,0x04000000,0x04010104,0x00000004,0x00010104,0x00010100,0x04000004,
    0x04010000,0x04000104,0x00000104,0x04010000,0x00010104,0x00000004,0x04010004,0x00010100,

    0x80401000,0x80001040,0x80001040,0x00000040,0x00401040,0x80400040,0x80400000,0x80001000,
    0x00000000,0x00401000,0x00401000,0x80401040,0x80000040,0x00000000,0x00400040,0x80400000,
    0x80000000,0x00001000,0x00400000,0x80401000,0x00000040,0x00400000,0x80001000,0x00001040,
    0x80400040,0x80000000,0x00001040,0x00400040,0x00001000,0x00401040,0x80401040,0x80000040,
    0x00400040,0x80400000,0x00401000,0x80401040,0x80000040,0x00000000,0x00000000,0x00401000,
    0x00001040,0x00400040,0x80400040,0x80000000,0x80401000,0x80001040,0x80001040,0x00000040,
    0x80401040,0x80000040,0x80000000,0x00001000,0x80400000,0x80001000,0x00401040,0x80400040,
    0x80001000,0x00001040,0x00400000,0x80401000,0x00000040,0x00400000,0x00001000,0x00401040,

    0x00000080,0x01040080,0x01040000,0x21000080,0x00040000,0x00000080,0x20000000,0x01040000,
    0x20040080,0x00040000,0x01000080,0x20040080,0x21000080,0x21040000,0x00040080,0x20000000,
    0x01000000,0x20040000,0x20040000,0x00000000,0x20000080,0x21040080,0x21040080,0x01000080,
    0x21040000,0x20000080,0x00000000,0x21000000,0x01040080,0x01000000,0x21000000,0x00040080,
    0x00040000,0x21000080,0x00000080,0x01000000,0x20000000,0x01040000,0x21000080,0x20040080,
    0x01000080,0x20000000,0x21040000,0x01040080,0x20040080,0x00000080,0x01000000,0x21040000,
    0x21040080,0x00040080,0x21000000,0x21040080,0x01040000,0x00000000,0x20040000,0x21000000,
    0x00040080,0x01000080,0x20000080,0x00040000,0x00000000,0x20040000,0x01040080,0x20000080,

    0x10000008,0x10200000,0x00002000,0x10202008,0x10200000,0x00000008,0x10202008,0x00200000,
    0x10002000,0x00202008,0x00200000,0x10000008,0x00200008,0x10002000,0x10000000,0x00002008,
    0x00000000,0x00200008,0x10002008,0x00002000,0x00202000,0x10002008,0x00000008,0x10200008,
    0x10200008,0x00000000,0x00202008,0x10202000,0x00002008,0x00202000,0x10202000,0x10000000,
    0x10002000,0x00000008,0x10200008,0x00202000,0x10202008,0x00200000,0x00002008,0x10000008,
    0x00200000,0x10002000,0x10000000,0x00002008,0x10000008,0x10202008,0x00202000,0x10200000,
    0x00202008,0x10202000,0x00000000,0x10200008,0x00000008,0x00002000,0x10200000,0x00202008,
    0x00002000,0x00200008,0x10002008,0x00000000,0x10202000,0x10000000,0x00200008,0x10002008,

    0x00100000,0x02100001,0x02000401,0x00000000,0x00000400,0x02000401,0x00100401,0x02100400,
    0x02100401,0x00100000,0x00000000,0x02000001,0x00000001,0x02000000,0x02100001,0x00000401,
    0x02000400,0x00100401,0x00100001,0x02000400,0x02000001,0x02100000,0x02100400,0x00100001,
    0x02100000,0x00000400,0x00000401,0x02100401,0x00100400,0x00000001,0x02000000,0x00100400,
    0x02000000,0x00100400,0x00100000,0x02000401,0x02000401,0x02100001,0x02100001,0x00000001,
    0x00100001,0x02000000,0x02000400,0x00100000,0x02100400,0x00000401,0x00100401,0x02100400,
    0x00000401,0x02000001,0x02100401,0x02100000,0x00100400,0x00000000,0x00000001,0x02100401,
    0x00000000,0x00100401,0x02100000,0x00000400,0x02000001,0x02000400,0x00000400,0x00100001,

    0x08000820,0x00000800,0x00020000,0x08020820,0x08000000,0x08000820,0x00000020,0x08000000,
    0x00020020,0x08020000,0x08020820,0x00020800,0x08020800,0x00020820,0x00000800,0x00000020,
    0x08020000,0x08000020,0x08000800,0x00000820,0x00020800,0x00020020,0x08020020,0x08020800,
    0x00000820,0x00000000,0x00000000,0x08020020,0x08000020,0x08000800,0x00020820,0x00020000,
    0x00020820,0x00020000,0x08020800,0x00000800,0x00000020,0x08020020,0x00000800,0x00020820,
    0x08000800,0x00000020,0x08000020,0x08020000,0x08020020,0x08000000,0x00020000,0x08000820,
    0x00000000,0x08020820,0x00020020,0x08000020,0x08020000,0x08000800,0x08000820,0x00000000,
    0x08020820,0x00020800,0x00020800,0x00000820,0x00000820,0x00020020,0x08000000,0x08020800,
];

/// The compression permutation of the key schedule, as fourteen tables of
/// sixteen words, one table for each nibble of the two rotated key halves.
pub const COMP_TAB: [u32; 224] = [
    0x000000,0x010000,0x000008,0x010008,0x000080,0x010080,0x000088,0x010088,
    0x000000,0x010000,0x000008,0x010008,0x000080,0x010080,0x000088,0x010088,

    0x000000,0x100000,0x000800,0x100800,0x000000,0x100000,0x000800,0x100800,
    0x002000,0x102000,0x002800,0x102800,0x002000,0x102000,0x002800,0x102800,

    0x000000,0x000004,0x000400,0x000404,0x000000,0x000004,0x000400,0x000404,
    0x400000,0x400004,0x400400,0x400404,0x400000,0x400004,0x400400,0x400404,

    0x000000,0x000020,0x008000,0x008020,0x800000,0x800020,0x808000,0x808020,
    0x000002,0x000022,0x008002,0x008022,0x800002,0x800022,0x808002,0x808022,

    0x000000,0x000200,0x200000,0x200200,0x001000,0x001200,0x201000,0x201200,
    0x000000,0x000200,0x200000,0x200200,0x001000,0x001200,0x201000,0x201200,

    0x000000,0x000040,0x000010,0x000050,0x004000,0x004040,0x004010,0x004050,
    0x040000,0x040040,0x040010,0x040050,0x044000,0x044040,0x044010,0x044050,

    0x000000,0x000100,0x020000,0x020100,0x000001,0x000101,0x020001,0x020101,
    0x080000,0x080100,0x0a0000,0x0a0100,0x080001,0x080101,0x0a0001,0x0a0101,

    0x000000,0x000100,0x040000,0x040100,0x000000,0x000100,0x040000,0x040100,
    0x000040,0x000140,0x040040,0x040140,0x000040,0x000140,0x040040,0x040140,

    0x000000,0x400000,0x008000,0x408000,0x000008,0x400008,0x008008,0x408008,
    0x000400,0x400400,0x008400,0x408400,0x000408,0x400408,0x008408,0x408408,

    0x000000,0x001000,0x080000,0x081000,0x000020,0x001020,0x080020,0x081020,
    0x004000,0x005000,0x084000,0x085000,0x004020,0x005020,0x084020,0x085020,

    0x000000,0x000800,0x000000,0x000800,0x000010,0x000810,0x000010,0x000810,
    0x800000,0x800800,0x800000,0x800800,0x800010,0x800810,0x800010,0x800810,

    0x000000,0x010000,0x000200,0x010200,0x000000,0x010000,0x000200,0x010200,
    0x100000,0x110000,0x100200,0x110200,0x100000,0x110000,0x100200,0x110200,

    0x000000,0x000004,0x000000,0x000004,0x000080,0x000084,0x000080,0x000084,
    0x002000,0x002004,0x002000,0x002004,0x002080,0x002084,0x002080,0x002084,

    0x000000,0x000001,0x200000,0x200001,0x020000,0x020001,0x220000,0x220001,
    0x000002,0x000003,0x200002,0x200003,0x020002,0x020003,0x220002,0x220003,
];

/// How far each of the sixteen rounds rotates the two key halves.
pub const KEY_SH: [u32; 16] = [1, 1, 2, 2, 2, 2, 2, 2, 1, 2, 2, 2, 2, 2, 2, 1];

/// The 56 bits of a 7-byte key as one number, the first byte highest.
pub open spec fn key_bits(key7: Seq<u8>) -> u64 {
    ((key7[0] as u64) << 48) | ((key7[1] as u64) << 40) | ((key7[2] as u64) << 32) | ((
    key7[3] as u64) << 24) | ((key7[4] as u64) << 16) | ((key7[5] as u64) << 8) | (key7[6] as u64)
}

/// The `j`-th group of seven key bits, counted from the top (`j` in `0..8`).
pub open spec fn key_chunk(key7: Seq<u8>, j: int) -> u64 {
    (key_bits(key7) >> ((49 - 7 * j) as u64)) & 0x7f
}

/// The 8-byte key that a 7-byte key stands for: each group of seven bits,
/// in order, looked up in the parity table.
pub open spec fn expanded_key(key7: Seq<u8>) -> Seq<u8> {
    Seq::new(8, |j: int| PARITY_TABLE[key_chunk(key7, j) as int])
}

/// How many of the eight bits of `b` are set.
pub open spec fn bit_count(b: u8) -> int {
    (b as int) % 2 + (b as int / 2) % 2 + (b as int / 4) % 2 + (b as int / 8) % 2 + (b as int
        / 16) % 2 + (b as int / 32) % 2 + (b as int / 64) % 2 + (b as int / 128) % 2
}

/// `b` has an odd number of bits set.
pub open spec fn odd_parity(b: u8) -> bool {
    bit_count(b) % 2 == 1
}

/// Every entry of the parity table has odd parity and carries its own index
/// in its upper seven bits.
pub proof fn lemma_parity_table(i: int)
    requires
        0 <= i < 128,
    ensures
        odd_parity(PARITY_TABLE[i]),
        PARITY_TABLE[i] as int / 2 == i,
{
    if i < 32 {
    } else if i < 64 {
    } else if i < 96 {
    } else {
    }
}

/// Expands a 7-byte key to the 8-byte form with a parity bit in every byte.
pub fn expand_key(key7: &[u8; 7]) -> (key8: [u8; 8])
    ensures
        key8@ == expanded_key(key7@),
        forall|j: int| 0 <= j < 8 ==> odd_parity(#[trigger] key8[j]),
{
    let k0: u8 = key7[0];
    let k1: u8 = key7[1];
    let k2: u8 = key7[2];
    let k3: u8 = key7[3];
    let k4: u8 = key7[4];
    let k5: u8 = key7[5];
    let k6: u8 = key7[6];
    let hi: u32 = ((k0 as u32) << 24) | ((k1 as u32) << 16) | ((k2 as u32) << 8) | (k3 as u32);
    let lo: u32 = ((k4 as u32) << 24) | ((k5 as u32) << 16) | ((k6 as u32) << 8);
    let c0: u32 = (hi >> 25) & 0x7f;
    let c1: u32 = (hi >> 18) & 0x7f;
    let c2: u32 = (hi >> 11) & 0x7f;
    let c3: u32 = (hi >> 4) & 0x7f;
    let c4: u32 = ((hi << 3) | (lo >> 29)) & 0x7f;
    let c5: u32 = (lo >> 22) & 0x7f;
    let c6: u32 = (lo >> 15) & 0x7f;
    let c7: u32 = (lo >> 8) & 0x7f;
    let ghost bits: u64 = key_bits(key7@);
    assert(c0 == (bits >> 49) & 0x7f && c1 == (bits >> 42) & 0x7f && c2 == (bits >> 35) & 0x7f
        && c3 == (bits >> 28) & 0x7f && c4 == (bits >> 21) & 0x7f && c5 == (bits >> 14) & 0x7f
        && c6 == (bits >> 7) & 0x7f && c7 == (bits >> 0) & 0x7f && c0 < 128 && c1 < 128 && c2
        < 128 && c3 < 128 && c4 < 128 && c5 < 128 && c6 < 128 && c7 < 128) by (bit_vector)
        requires
            hi == ((k0 as u32) << 24) | ((k1 as u32) << 16) | ((k2 as u32) << 8) | (k3 as u32),
            lo == ((k4 as u32) << 24) | ((k5 as u32) << 16) | ((k6 as u32) << 8),
            c0 == (hi >> 25) & 0x7f,
            c1 == (hi >> 18) & 0x7f,
            c2 == (hi >> 11) & 0x7f,
            c3 == (hi >> 4) & 0x7f,
            c4 == ((hi << 3) | (lo >> 29)) & 0x7f,
            c5 == (lo >> 22) & 0x7f,
            c6 == (lo >> 15) & 0x7f,
            c7 == (lo >> 8) & 0x7f,
            bits == ((k0 as u64) << 48) | ((k1 as u64) << 40) | ((k2 as u64) << 32) | ((
            k3 as u64) << 24) | ((k4 as u64) << 16) | ((k5 as u64) << 8) | (k6 as u64),
    ;
    let key8: [u8; 8] = [
        PARITY_TABLE[c0 as usize],
        PARITY_TABLE[c1 as usize],
        PARITY_TABLE[c2 as usize],
        PARITY_TABLE[c3 as usize],
        PARITY_TABLE[c4 as usize],
        PARITY_TABLE[c5 as usize],
        PARITY_TABLE[c6 as usize],
        PARITY_TABLE[c7 as usize],
    ];
    proof {
        assert forall|j: int| 0 <= j < 8 implies key8@[j] == expanded_key(key7@)[j] by {}
        assert(key8@ =~= expanded_key(key7@));
        assert forall|j: int| 0 <= j < 8 implies odd_parity(#[trigger] key8[j]) by {
            lemma_parity_table(key_chunk(key7@, j) as int);
        }
    }
    key8
}

/// The bit shuffle that both the key schedule and the block cipher apply to
/// each 32-bit half: two rounds of exchanging bit groups within the word.
pub open spec fn swizzle(x: u32) -> u32 {
    let y = ((x << 6) & 0x33003300) | (x & 0xcc33cc33) | ((x >> 6) & 0x00cc00cc);
    ((y << 12) & 0x0f0f0000) | (y & 0xf0f00f0f) | ((y >> 12) & 0x0000f0f0)
}

/// The word made of the bytes at the even positions of an 8-byte block,
/// lowest first.
pub open spec fn load_even(b: Seq<u8>) -> u32 {
    (b[0] as u32) | ((b[2] as u32) << 8) | ((b[4] as u32) << 16) | ((b[6] as u32) << 24)
}

/// The word made of the bytes at the odd positions of an 8-byte block,
/// lowest first.
pub open spec fn load_odd(b: Seq<u8>) -> u32 {
    (b[1] as u32) | ((b[3] as u32) << 8) | ((b[5] as u32) << 16) | ((b[7] as u32) << 24)
}

/// The bits of the key words that the schedule gathers into its left half.
pub open spec fn gather_left(v0: u32, v1: u32) -> u32 {
    ((v0 >> 1) & 0x40404040) | ((v0 >> 2) & 0x10101010) | ((v0 >> 3) & 0x04040404) | ((v0 >> 4)
        & 0x01010101) | (v1 & 0x80808080) | ((v1 >> 1) & 0x20202020) | ((v1 >> 2) & 0x08080808)
        | ((v1 >> 3) & 0x02020202)
}

/// The bits of the key words that the schedule gathers into its right half.
pub open spec fn gather_right(v0: u32, v1: u32) -> u32 {
    ((v0 >> 1) & 0x04040404) | ((v0 << 2) & 0x10101010) | ((v0 << 5) & 0x40404040) | (v1
        & 0x08080808) | ((v1 << 3) & 0x20202020) | ((v1 << 6) & 0x80808080)
}

/// The two 28-bit halves, each in the upper bits of its word, from which the
/// sixteen rounds of the schedule start.
pub open spec fn key_halves(key8: Seq<u8>) -> (u32, u32) {
    let v0 = load_even(key8);
    let v1 = load_odd(key8);
    let a = swizzle(gather_left(v0, v1));
    let b = swizzle(gather_right(v0, v1));
    (a & 0xfffffff0, (b & 0xffffff00) | ((a << 4) & 0xf0))
}

/// A 28-bit half rotated left by `sh` places (`sh` is 1 or 2).
pub open spec fn rotate28(x: u32, sh: u32) -> u32 {
    ((x << sh) | (x >> ((28 - sh) as u32))) & 0xfffffff0
}

/// A key half after the rotations of the first `rounds` rounds.
pub open spec fn rotated(x: u32, rounds: nat) -> u32
    decreases rounds,
{
    if rounds == 0 {
        x
    } else {
        rotate28(rotated(x, (rounds - 1) as nat), KEY_SH[rounds - 1])
    }
}

/// The nibble of `x` that starts at bit `sh`.
pub open spec fn nibble_at(x: u32, sh: u32) -> int {
    ((x >> sh) & 0xf) as int
}

/// The six bits of `x` that start at bit `sh`.
pub open spec fn sextet_at(x: u32, sh: u32) -> int {
    ((x >> sh) & 0x3f) as int
}

/// The left key half passed through its seven compression tables.
pub open spec fn compress_left(left: u32) -> u32 {
    COMP_TAB[96 + nibble_at(left, 28)] | COMP_TAB[80 + nibble_at(left, 24)] | COMP_TAB[64
        + nibble_at(left, 20)] | COMP_TAB[48 + nibble_at(left, 16)] | COMP_TAB[32 + nibble_at(
        left,
        12,
    )] | COMP_TAB[16 + nibble_at(left, 8)] | COMP_TAB[nibble_at(left, 4)]
}

/// The right key half passed through its seven compression tables.
pub open spec fn compress_right(right: u32) -> u32 {
    COMP_TAB[208 + nibble_at(right, 28)] | COMP_TAB[192 + nibble_at(right, 24)] | COMP_TAB[176
        + nibble_at(right, 20)] | COMP_TAB[160 + nibble_at(right, 16)] | COMP_TAB[144 + nibble_at(
        right,
        12,
    )] | COMP_TAB[128 + nibble_at(right, 8)] | COMP_TAB[112 + nibble_at(right, 4)]
}

/// A subkey: the 6-bit fields of `v0` and `v1` that start at bits `hi` and
/// `lo`, placed at bits 26, 18, 10 and 2.
pub open spec fn subkey(v0: u32, v1: u32, hi: u32, lo: u32) -> u32 {
    (((v0 >> hi) & 0x3f) << 26) | (((v0 >> lo) & 0x3f) << 18) | (((v1 >> hi) & 0x3f) << 10) | (((
    v1 >> lo) & 0x3f) << 2)
}

/// Subkey `k` (in `0..32`) of the schedule that starts from the two halves:
/// round `k / 2` yields the fields at 18 and 6 first, then those at 12 and 0.
pub open spec fn subkey_of(left: u32, right: u32, k: int) -> u32 {
    let v0 = compress_left(rotated(left, (k / 2 + 1) as nat));
    let v1 = compress_right(rotated(right, (k / 2 + 1) as nat));
    if k % 2 == 0 {
        subkey(v0, v1, 18, 6)
    } else {
        subkey(v0, v1, 12, 0)
    }
}

/// The thirty-two subkeys that follow from the two starting halves.
pub open spec fn key_schedule_from(left: u32, right: u32) -> Seq<u32> {
    Seq::new(32, |k: int| subkey_of(left, right, k))
}

/// The thirty-two subkeys of an 8-byte key.
pub open spec fn key_schedule(key8: Seq<u8>) -> Seq<u32> {
    key_schedule_from(key_halves(key8).0, key_halves(key8).1)
}

fn swizzled(x: u32) -> (r: u32)
    ensures
        r == swizzle(x),
{
    let y: u32 = ((x << 6) & 0x33003300) | (x & 0xcc33cc33) | ((x >> 6) & 0x00cc00cc);
    ((y << 12) & 0x0f0f0000) | (y & 0xf0f00f0f) | ((y >> 12) & 0x0000f0f0)
}

fn nibble(x: u32, sh: u32) -> (r: usize)
    requires
        sh < 32,
    ensures
        r == nibble_at(x, sh),
        r < 16,
{
    let n: u32 = (x >> sh) & 0xf;
    assert(n < 16) by (bit_vector)
        requires
            n == (x >> sh) & 0xf,
    ;
    n as usize
}

fn sextet(x: u32, sh: u32) -> (r: usize)
    requires
        sh < 32,
    ensures
        r == sextet_at(x, sh),
        r < 64,
{
    let n: u32 = (x >> sh) & 0x3f;
    assert(n < 64) by (bit_vector)
        requires
            n == (x >> sh) & 0x3f,
    ;
    n as usize
}

/// Runs the sixteen rounds of the key schedule from the two starting halves
/// and fills `ek` with the thirty-two subkeys.
pub fn key_comp_perm(left: u32, right: u32, ek: &mut [u32; 32])
    ensures
        final(ek)@ == key_schedule_from(left, right),
{
    let mut l: u32 = left;
    let mut r: u32 = right;
    for i in 0..16usize
        invariant
            l == rotated(left, i as nat),
            r == rotated(right, i as nat),
            forall|k: int| 0 <= k < 2 * i ==> ek[k] == subkey_of(left, right, k),
    {
        let sh: u32 = KEY_SH[i];
        assert(sh == 1 || sh == 2);
        l = ((l << sh) | (l >> (28 - sh))) & 0xfffffff0;
        r = ((r << sh) | (r >> (28 - sh))) & 0xfffffff0;
        assert(l == rotated(left, (i + 1) as nat));
        assert(r == rotated(right, (i + 1) as nat));
        let v0: u32 = COMP_TAB[96 + nibble(l, 28)] | COMP_TAB[80 + nibble(l, 24)] | COMP_TAB[64
            + nibble(l, 20)] | COMP_TAB[48 + nibble(l, 16)] | COMP_TAB[32 + nibble(l, 12)]
            | COMP_TAB[16 + nibble(l, 8)] | COMP_TAB[nibble(l, 4)];
        let v1: u32 = COMP_TAB[208 + nibble(r, 28)] | COMP_TAB[192 + nibble(r, 24)]
            | COMP_TAB[176 + nibble(r, 20)] | COMP_TAB[160 + nibble(r, 16)] | COMP_TAB[144
            + nibble(r, 12)] | COMP_TAB[128 + nibble(r, 8)] | COMP_TAB[112 + nibble(r, 4)];
        ek[2 * i] = (((v0 >> 18) & 0x3f) << 26) | (((v0 >> 6) & 0x3f) << 18) | (((v1 >> 18)
            & 0x3f) << 10) | (((v1 >> 6) & 0x3f) << 2);
        ek[2 * i + 1] = (((v0 >> 12) & 0x3f) << 26) | (((v0 >> 0) & 0x3f) << 18) | (((v1 >> 12)
            & 0x3f) << 10) | (((v1 >> 0) & 0x3f) << 2);
    }
    assert(ek@ =~= key_schedule_from(left, right));
}

/// Derives the thirty-two subkeys from an 8-byte key.
pub fn des_key_setup(key: &[u8; 8]) -> (ek: [u32; 32])
    ensures
        ek@ == key_schedule(key@),
{
    let mut ek: [u32; 32] = [0u32; 32];
    let v0: u32 = (key[0] as u32) | ((key[2] as u32) << 8) | ((key[4] as u32) << 16) | ((
    key[6] as u32) << 24);
    let v1: u32 = (key[1] as u32) | ((key[3] as u32) << 8) | ((key[5] as u32) << 16) | ((
    key[7] as u32) << 24);
    let left: u32 = ((v0 >> 1) & 0x40404040) | ((v0 >> 2) & 0x10101010) | ((v0 >> 3) & 0x04040404)
        | ((v0 >> 4) & 0x01010101) | (v1 & 0x80808080) | ((v1 >> 1) & 0x20202020) | ((v1 >> 2)
        & 0x08080808) | ((v1 >> 3) & 0x02020202);
    let right: u32 = ((v0 >> 1) & 0x04040404) | ((v0 << 2) & 0x10101010) | ((v0 << 5)
        & 0x40404040) | (v1 & 0x08080808) | ((v1 << 3) & 0x20202020) | ((v1 << 6) & 0x80808080);
    let a: u32 = swizzled(left);
    let b: u32 = swizzled(right);
    key_comp_perm(a & 0xfffffff0, (b & 0xffffff00) | ((a << 4) & 0xf0), &mut ek);
    ek
}

/// The S-box words for the even boxes, selected by the four 6-bit fields of `v`.
pub open spec fn sp_even(v: u32) -> u32 {
    SP_BOX[sextet_at(v, 26)] ^ SP_BOX[128 + sextet_at(v, 18)] ^ SP_BOX[256 + sextet_at(v, 10)]
        ^ SP_BOX[384 + sextet_at(v, 2)]
}

/// The S-box words for the odd boxes, selected by the four 6-bit fields of `v`.
pub open spec fn sp_odd(v: u32) -> u32 {
    SP_BOX[64 + sextet_at(v, 26)] ^ SP_BOX[192 + sextet_at(v, 18)] ^ SP_BOX[320 + sextet_at(v, 10)]
        ^ SP_BOX[448 + sextet_at(v, 2)]
}

/// One half-round: `target` mixed with the S-box output for `other` under
/// the subkey pair `(k0, k1)`.
pub open spec fn half_round(target: u32, other: u32, k0: u32, k1: u32) -> u32 {
    (target ^ sp_even(k0 ^ ((other >> 1) | (other << 31)))) ^ sp_odd(
        k1 ^ ((other << 3) | (other >> 29)),
    )
}

/// The subkey pair that half-round `h` (in `0..16`) uses: in order when
/// encrypting, in reverse when decrypting.
pub open spec fn pair_index(h: int, decrypting: bool) -> int {
    if decrypting {
        30 - 2 * h
    } else {
        2 * h
    }
}

/// The two halves after the first `h` half-rounds. Even half-rounds change
/// the left half, odd ones the right.
pub open spec fn rounds(ek: Seq<u32>, left: u32, right: u32, decrypting: bool, h: nat) -> (
    u32,
    u32,
)
    decreases h,
{
    if h == 0 {
        (left, right)
    } else {
        let (l, r) = rounds(ek, left, right, decrypting, (h - 1) as nat);
        let k = pair_index(h - 1, decrypting);
        if (h - 1) % 2 == 0 {
            (half_round(l, r, ek[k], ek[k + 1]), r)
        } else {
            (l, half_round(r, l, ek[k], ek[k + 1]))
        }
    }
}

/// Interleaves the bits of two words and shuffles each result. The cipher
/// uses it on the way in, on the odd and even input words, and on the way
/// out, on the two halves.
pub open spec fn pair_up(x: u32, y: u32) -> (u32, u32) {
    (
        swizzle(((x << 1) & 0xaaaaaaaa) | (y & 0x55555555)),
        swizzle((x & 0xaaaaaaaa) | ((y >> 1) & 0x55555555)),
    )
}

/// The eight bytes that hold `v0` at the even positions and `v1` at the odd
/// ones, lowest byte first.
pub open spec fn store_words(v0: u32, v1: u32) -> Seq<u8> {
    seq![
        (v0 & 0xff) as u8,
        (v1 & 0xff) as u8,
        ((v0 >> 8) & 0xff) as u8,
        ((v1 >> 8) & 0xff) as u8,
        ((v0 >> 16) & 0xff) as u8,
        ((v1 >> 16) & 0xff) as u8,
        ((v0 >> 24) & 0xff) as u8,
        ((v1 >> 24) & 0xff) as u8,
    ]
}

/// What the cipher makes of one 8-byte block under a key schedule.
#[verifier::opaque]
pub open spec fn cipher_block(ek: Seq<u32>, block: Seq<u8>, decrypting: bool) -> Seq<u8> {
    let (l0, r0) = pair_up(load_odd(block), load_even(block));
    let (l, r) = rounds(ek, l0, r0, decrypting, 16);
    let (o0, o1) = pair_up(l, r);
    store_words(o0, o1)
}

/// `data` with the eight bytes from `offset` on passed through the cipher.
pub open spec fn block_applied(data: Seq<u8>, ek: Seq<u32>, offset: int, decrypting: bool) -> Seq<
    u8,
> {
    data.subrange(0, offset) + cipher_block(ek, data.subrange(offset, offset + 8), decrypting)
        + data.subrange(offset + 8, data.len() as int)
}

fn half_round_exec(target: u32, other: u32, k0: u32, k1: u32) -> (r: u32)
    ensures
        r == half_round(target, other, k0, k1),
{
    let v0: u32 = k0 ^ ((other >> 1) | (other << 31));
    let t: u32 = target ^ (SP_BOX[sextet(v0, 26)] ^ SP_BOX[128 + sextet(v0, 18)] ^ SP_BOX[256
        + sextet(v0, 10)] ^ SP_BOX[384 + sextet(v0, 2)]);
    let v1: u32 = k1 ^ ((other << 3) | (other >> 29));
    t ^ (SP_BOX[64 + sextet(v1, 26)] ^ SP_BOX[192 + sextet(v1, 18)] ^ SP_BOX[320 + sextet(v1, 10)]
        ^ SP_BOX[448 + sextet(v1, 2)])
}

/// Encrypts or decrypts, in place, the eight bytes of `text` that start at
/// `offset`; every other byte stays as it was.
pub fn block_cipher(key: &[u32; 32], text: &mut [u8], offset: usize, decrypting: bool)
    requires
        offset + 8 <= old(text).len(),
    ensures
        final(text)@ == block_applied(old(text)@, key@, offset as int, decrypting),
{
    let ghost before = text@;
    let ghost block = before.subrange(offset as int, offset + 8);
    reveal(cipher_block);
    let v0: u32 = (text[offset] as u32) | ((text[offset + 2] as u32) << 8) | ((text[offset
        + 4] as u32) << 16) | ((text[offset + 6] as u32) << 24);
    let v1: u32 = (text[offset + 1] as u32) | ((text[offset + 3] as u32) << 8) | ((text[offset
        + 5] as u32) << 16) | ((text[offset + 7] as u32) << 24);
    assert(v0 == load_even(block));
    assert(v1 == load_odd(block));
    let l0: u32 = swizzled(((v1 << 1) & 0xaaaaaaaa) | (v0 & 0x55555555));
    let r0: u32 = swizzled((v1 & 0xaaaaaaaa) | ((v0 >> 1) & 0x55555555));
    let mut left: u32 = l0;
    let mut right: u32 = r0;
    for i in 0..8usize
        invariant
            (left, right) == rounds(key@, l0, r0, decrypting, (2 * i) as nat),
    {
        let ka: usize = if decrypting {
            30 - 4 * i
        } else {
            4 * i
        };
        let kb: usize = if decrypting {
            28 - 4 * i
        } else {
            4 * i + 2
        };
        left = half_round_exec(left, right, key[ka], key[ka + 1]);
        assert((left, right) == rounds(key@, l0, r0, decrypting, (2 * i + 1) as nat));
        right = half_round_exec(right, left, key[kb], key[kb + 1]);
        assert((left, right) == rounds(key@, l0, r0, decrypting, (2 * i + 2) as nat));
    }
    let o0: u32 = swizzled(((left << 1) & 0xaaaaaaaa) | (right & 0x55555555));
    let o1: u32 = swizzled((left & 0xaaaaaaaa) | ((right >> 1) & 0x55555555));
    text[offset] = (o0 & 0xff) as u8;
    text[offset + 2] = ((o0 >> 8) & 0xff) as u8;
    text[offset + 4] = ((o0 >> 16) & 0xff) as u8;
    text[offset + 6] = ((o0 >> 24) & 0xff) as u8;
    text[offset + 1] = (o1 & 0xff) as u8;
    text[offset + 3] = ((o1 >> 8) & 0xff) as u8;
    text[offset + 5] = ((o1 >> 16) & 0xff) as u8;
    text[offset + 7] = ((o1 >> 24) & 0xff) as u8;
    assert(text@ =~= block_applied(before, key@, offset as int, decrypting));
}

/// `data` after the cipher has encrypted the first `n` blocks of the stride,
/// at offsets 0, 7, 14, ..., in that order. Neighbours share one byte.
pub open spec fn encrypt_blocks(data: Seq<u8>, ek: Seq<u32>, n: nat) -> Seq<u8>
    decreases n,
{
    if n == 0 {
        data
    } else {
        block_applied(encrypt_blocks(data, ek, (n - 1) as nat), ek, 7 * (n - 1), false)
    }
}

/// `data` after the cipher has decrypted the first `n` blocks of the stride,
/// the one at the highest offset first.
pub open spec fn decrypt_blocks(data: Seq<u8>, ek: Seq<u32>, n: nat) -> Seq<u8>
    decreases n,
{
    if n == 0 {
        data
    } else {
        decrypt_blocks(block_applied(data, ek, 7 * (n - 1), true), ek, (n - 1) as nat)
    }
}

/// How many blocks the stride places in a buffer of `len >= 8` bytes.
pub open spec fn stride_blocks(len: int) -> nat {
    ((len - 1) / 7) as nat
}

/// How many bytes the stride leaves over behind its last block.
pub open spec fn stride_rest(len: int) -> int {
    (len - 1) % 7
}

/// Where the extra block over the tail of the buffer starts.
pub open spec fn tail_offset(len: int) -> int {
    7 * (stride_blocks(len) - 1) + stride_rest(len)
}

/// What stride encryption under a 7-byte key makes of a buffer. A buffer
/// of fewer than eight bytes stays as it is.
pub open spec fn plan9_encrypted(key7: Seq<u8>, data: Seq<u8>) -> Seq<u8> {
    if data.len() < 8 {
        data
    } else {
        let ek = key_schedule(expanded_key(key7));
        let body = encrypt_blocks(data, ek, stride_blocks(data.len() as int));
        if stride_rest(data.len() as int) > 0 {
            block_applied(body, ek, tail_offset(data.len() as int), false)
        } else {
            body
        }
    }
}

/// What stride decryption under a 7-byte key makes of a buffer: the tail
/// block first, then the blocks of the stride from the last to the first.
pub open spec fn plan9_decrypted(key7: Seq<u8>, data: Seq<u8>) -> Seq<u8> {
    if data.len() < 8 {
        data
    } else {
        let ek = key_schedule(expanded_key(key7));
        let start = if stride_rest(data.len() as int) > 0 {
            block_applied(data, ek, tail_offset(data.len() as int), true)
        } else {
            data
        };
        decrypt_blocks(start, ek, stride_blocks(data.len() as int))
    }
}

/// Two half-rounds with the same subkeys and the same other half cancel.
pub proof fn lemma_half_round_undo(target: u32, other: u32, k0: u32, k1: u32)
    ensures
        half_round(half_round(target, other, k0, k1), other, k0, k1) == target,
{
    let x = sp_even(k0 ^ ((other >> 1) | (other << 31)));
    let y = sp_odd(k1 ^ ((other << 3) | (other >> 29)));
    assert((((target ^ x) ^ y) ^ x) ^ y == target) by (bit_vector);
}

/// Interleaving is undone by interleaving the swapped results: it gives the
/// two words back, swapped.
pub proof fn lemma_pair_up_swap(x: u32, y: u32)
    ensures
        pair_up(pair_up(x, y).1, pair_up(x, y).0) == (y, x),
{
    let a = swizzle(((x << 1) & 0xaaaaaaaa) | (y & 0x55555555));
    let b = swizzle((x & 0xaaaaaaaa) | ((y >> 1) & 0x55555555));
    assert(swizzle(((b << 1) & 0xaaaaaaaa) | (a & 0x55555555)) == y && swizzle(
        (b & 0xaaaaaaaa) | ((a >> 1) & 0x55555555),
    ) == x) by (bit_vector)
        requires
            a == swizzle(((x << 1) & 0xaaaaaaaa) | (y & 0x55555555)),
            b == swizzle((x & 0xaaaaaaaa) | ((y >> 1) & 0x55555555)),
    ;
}

/// Loading what was stored gives the two words back.
pub proof fn lemma_load_store(v0: u32, v1: u32)
    ensures
        store_words(v0, v1).len() == 8,
        load_even(store_words(v0, v1)) == v0,
        load_odd(store_words(v0, v1)) == v1,
{
    let b = store_words(v0, v1);
    let (b0, b2, b4, b6) = (b[0], b[2], b[4], b[6]);
    let (b1, b3, b5, b7) = (b[1], b[3], b[5], b[7]);
    assert((b0 as u32) | ((b2 as u32) << 8) | ((b4 as u32) << 16) | ((b6 as u32) << 24) == v0)
        by (bit_vector)
        requires
            b0 == (v0 & 0xff) as u8,
            b2 == ((v0 >> 8) & 0xff) as u8,
            b4 == ((v0 >> 16) & 0xff) as u8,
            b6 == ((v0 >> 24) & 0xff) as u8,
    ;
    assert((b1 as u32) | ((b3 as u32) << 8) | ((b5 as u32) << 16) | ((b7 as u32) << 24) == v1)
        by (bit_vector)
        requires
            b1 == (v1 & 0xff) as u8,
            b3 == ((v1 >> 8) & 0xff) as u8,
            b5 == ((v1 >> 16) & 0xff) as u8,
            b7 == ((v1 >> 24) & 0xff) as u8,
    ;
}

/// Storing what was loaded from an 8-byte block gives the block back.
pub proof fn lemma_store_load(block: Seq<u8>)
    requires
        block.len() == 8,
    ensures
        store_words(load_even(block), load_odd(block)) == block,
{
    let (b0, b2, b4, b6) = (block[0], block[2], block[4], block[6]);
    let (b1, b3, b5, b7) = (block[1], block[3], block[5], block[7]);
    let v0 = load_even(block);
    let v1 = load_odd(block);
    assert((v0 & 0xff) as u8 == b0 && ((v0 >> 8) & 0xff) as u8 == b2 && ((v0 >> 16) & 0xff) as u8
        == b4 && ((v0 >> 24) & 0xff) as u8 == b6) by (bit_vector)
        requires
            v0 == (b0 as u32) | ((b2 as u32) << 8) | ((b4 as u32) << 16) | ((b6 as u32) << 24),
    ;
    assert((v1 & 0xff) as u8 == b1 && ((v1 >> 8) & 0xff) as u8 == b3 && ((v1 >> 16) & 0xff) as u8
        == b5 && ((v1 >> 24) & 0xff) as u8 == b7) by (bit_vector)
        requires
            v1 == (b1 as u32) | ((b3 as u32) << 8) | ((b5 as u32) << 16) | ((b7 as u32) << 24),
    ;
    assert(store_words(v0, v1) =~= block);
}

/// Running `h` half-rounds in the opposite direction on the swapped result
/// of all sixteen leads back to the state before the last `h` of them,
/// swapped.
pub proof fn lemma_rounds_unwind(ek: Seq<u32>, l0: u32, r0: u32, decrypting: bool, h: nat)
    requires
        h <= 16,
    ensures
        ({
            let (l, r) = rounds(ek, l0, r0, decrypting, 16);
            let (a, b) = rounds(ek, r, l, !decrypting, h);
            let (c, d) = rounds(ek, l0, r0, decrypting, (16 - h) as nat);
            a == d && b == c
        }),
    decreases h,
{
    if h > 0 {
        lemma_rounds_unwind(ek, l0, r0, decrypting, (h - 1) as nat);
        let e = (16 - h) as nat;
        let (c, d) = rounds(ek, l0, r0, decrypting, e);
        let k = pair_index(e as int, decrypting);
        assert(k == pair_index(h - 1, !decrypting));
        assert(rounds(ek, l0, r0, decrypting, (16 - (h - 1)) as nat) == rounds(
            ek,
            l0,
            r0,
            decrypting,
            e + 1,
        ));
        if e % 2 == 0 {
            lemma_half_round_undo(c, d, ek[k], ek[k + 1]);
        } else {
            lemma_half_round_undo(d, c, ek[k], ek[k + 1]);
        }
    }
}

/// On one block, the cipher run in one direction undoes the cipher run in
/// the other, whatever the key schedule holds.
pub proof fn lemma_cipher_block_inverse(ek: Seq<u32>, block: Seq<u8>, decrypting: bool)
    requires
        block.len() == 8,
    ensures
        cipher_block(ek, block, decrypting).len() == 8,
        cipher_block(ek, cipher_block(ek, block, decrypting), !decrypting) == block,
{
    reveal(cipher_block);
    let v0 = load_even(block);
    let v1 = load_odd(block);
    let (l0, r0) = pair_up(v1, v0);
    let (l, r) = rounds(ek, l0, r0, decrypting, 16);
    let (o0, o1) = pair_up(l, r);
    lemma_load_store(o0, o1);
    lemma_pair_up_swap(l, r);
    lemma_rounds_unwind(ek, l0, r0, decrypting, 16);
    lemma_pair_up_swap(v1, v0);
    lemma_store_load(block);
}

/// The cipher on a block inside a buffer keeps the buffer's length, and the
/// opposite direction at the same offset restores the buffer.
pub proof fn lemma_block_applied_inverse(data: Seq<u8>, ek: Seq<u32>, offset: int, decrypting: bool)
    requires
        0 <= offset,
        offset + 8 <= data.len(),
    ensures
        block_applied(data, ek, offset, decrypting).len() == data.len(),
        block_applied(block_applied(data, ek, offset, decrypting), ek, offset, !decrypting)
            == data,
{
    let block = data.subrange(offset, offset + 8);
    lemma_cipher_block_inverse(ek, block, decrypting);
    let mid = block_applied(data, ek, offset, decrypting);
    assert(mid.subrange(offset, offset + 8) =~= cipher_block(ek, block, decrypting));
    assert(mid.subrange(0, offset) =~= data.subrange(0, offset));
    assert(mid.subrange(offset + 8, mid.len() as int) =~= data.subrange(
        offset + 8,
        data.len() as int,
    ));
    assert(block_applied(mid, ek, offset, !decrypting) =~= data);
}

/// Encrypting the blocks of the stride keeps the buffer's length.
pub proof fn lemma_encrypt_blocks_len(data: Seq<u8>, ek: Seq<u32>, n: nat)
    requires
        7 * n + 1 <= data.len(),
    ensures
        encrypt_blocks(data, ek, n).len() == data.len(),
    decreases n,
{
    if n > 0 {
        lemma_encrypt_blocks_len(data, ek, (n - 1) as nat);
        lemma_block_applied_inverse(
            encrypt_blocks(data, ek, (n - 1) as nat),
            ek,
            7 * (n - 1),
            false,
        );
    }
}

/// Decrypting the blocks of the stride undoes encrypting them.
pub proof fn lemma_stride_blocks_inverse(data: Seq<u8>, ek: Seq<u32>, n: nat)
    requires
        7 * n + 1 <= data.len(),
    ensures
        decrypt_blocks(encrypt_blocks(data, ek, n), ek, n) == data,
    decreases n,
{
    if n > 0 {
        let prev = encrypt_blocks(data, ek, (n - 1) as nat);
        lemma_encrypt_blocks_len(data, ek, (n - 1) as nat);
        lemma_block_applied_inverse(prev, ek, 7 * (n - 1), false);
        lemma_stride_blocks_inverse(data, ek, (n - 1) as nat);
    }
}

/// Stride encryption keeps the length of the buffer.
pub proof fn lemma_plan9_encrypted_len(key7: Seq<u8>, data: Seq<u8>)
    ensures
        plan9_encrypted(key7, data).len() == data.len(),
{
    if data.len() >= 8 {
        let ek = key_schedule(expanded_key(key7));
        let len = data.len() as int;
        lemma_encrypt_blocks_len(data, ek, stride_blocks(len));
        if stride_rest(len) > 0 {
            lemma_block_applied_inverse(
                encrypt_blocks(data, ek, stride_blocks(len)),
                ek,
                tail_offset(len),
                false,
            );
        }
    }
}

/// Decrypting, under the same key, what stride encryption made of a buffer
/// gives the buffer back, whatever its length.
pub proof fn lemma_plan9_round_trip(key7: Seq<u8>, data: Seq<u8>)
    ensures
        plan9_decrypted(key7, plan9_encrypted(key7, data)) == data,
{
    if data.len() >= 8 {
        let ek = key_schedule(expanded_key(key7));
        let len = data.len() as int;
        let n = stride_blocks(len);
        let body = encrypt_blocks(data, ek, n);
        lemma_plan9_encrypted_len(key7, data);
        lemma_encrypt_blocks_len(data, ek, n);
        lemma_stride_blocks_inverse(data, ek, n);
        if stride_rest(len) > 0 {
            lemma_block_applied_inverse(body, ek, tail_offset(len), false);
        }
    }
}

/// Encrypts `data` in place under a 7-byte key, block by block with a
/// stride of seven bytes and one more block over the tail where bytes are
/// left over. A buffer of fewer than eight bytes is left unchanged.
pub fn plan9_encrypt(key: &[u8; 7], data: &mut [u8])
    ensures
        final(data)@ == plan9_encrypted(key@, old(data)@),
{
    let len: usize = data.len();
    if len < 8 {
        return ;
    }
    let des_key: [u8; 8] = expand_key(key);
    let ekey: [u32; 32] = des_key_setup(&des_key);
    let n: usize = (len - 1) / 7;
    let r: usize = (len - 1) % 7;
    let ghost before = data@;
    let mut i: usize = 0;
    while i < n
        invariant
            i <= n,
            7 * n + 1 <= len,
            before.len() == len,
            data@.len() == len,
            data@ == encrypt_blocks(before, ekey@, i as nat),
        decreases n - i,
    {
        block_cipher(&ekey, data, 7 * i, false);
        i += 1;
        proof {
            lemma_encrypt_blocks_len(before, ekey@, i as nat);
        }
    }
    if r > 0 {
        block_cipher(&ekey, data, 7 * (n - 1) + r, false);
    }
}

/// Decrypts `data` in place under a 7-byte key: the block over the tail
/// first, then the blocks of the stride from the last to the first. A
/// buffer of fewer than eight bytes is left unchanged.
pub fn plan9_decrypt(key: &[u8; 7], data: &mut [u8])
    ensures
        final(data)@ == plan9_decrypted(key@, old(data)@),
{
    let len: usize = data.len();
    if len < 8 {
        return ;
    }
    let des_key: [u8; 8] = expand_key(key);
    let ekey: [u32; 32] = des_key_setup(&des_key);
    let n: usize = (len - 1) / 7;
    let r: usize = (len - 1) % 7;
    if r > 0 {
        proof {
            lemma_block_applied_inverse(data@, ekey@, 7 * (n - 1) + r, true);
        }
        block_cipher(&ekey, data, 7 * (n - 1) + r, true);
    }
    let ghost start = data@;
    let mut i: usize = n;
    while i > 0
        invariant
            i <= n,
            7 * n + 1 <= len,
            data@.len() == len,
            decrypt_blocks(data@, ekey@, i as nat) == decrypt_blocks(start, ekey@, n as nat),
        decreases i,
    {
        i -= 1;
        proof {
            lemma_block_applied_inverse(data@, ekey@, 7 * i, true);
        }
        block_cipher(&ekey, data, 7 * i, true);
    }
}

} // verus!
