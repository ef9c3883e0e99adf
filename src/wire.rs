//! The mathematical model of the wire format: the bytes that each construct
//! occupies, and the facts about them that the engines rely on.
use vstd::prelude::*;

verus! {

/// Zero bytes needed after `n` payload bytes to reach a 4-byte boundary.
pub open spec fn pad_len(n: nat) -> nat {
    ((4 - (n % 4)) % 4) as nat
}

/// `n` zero bytes.
pub open spec fn zeros(n: nat) -> Seq<u8> {
    Seq::new(n, |i: int| 0u8)
}

/// Whether every byte of `b` is zero.
pub open spec fn all_zero(b: Seq<u8>) -> bool {
    forall|i: int| 0 <= i < b.len() ==> b[i] == 0
}

/// Big-endian bytes of a 32-bit word.
pub open spec fn u32_be(v: u32) -> Seq<u8> {
    seq![(v >> 24) as u8, (v >> 16) as u8, (v >> 8) as u8, v as u8]
}

/// The 32-bit word whose big-endian bytes open `b`.
pub open spec fn be_u32(b: Seq<u8>) -> u32
    recommends
        b.len() >= 4,
{
    ((b[0] as u32) << 24) | ((b[1] as u32) << 16) | ((b[2] as u32) << 8) | (b[3] as u32)
}

/// Big-endian bytes of a 64-bit word.
pub open spec fn u64_be(v: u64) -> Seq<u8> {
    seq![
        (v >> 56) as u8,
        (v >> 48) as u8,
        (v >> 40) as u8,
        (v >> 32) as u8,
        (v >> 24) as u8,
        (v >> 16) as u8,
        (v >> 8) as u8,
        v as u8,
    ]
}

/// The 64-bit word whose big-endian bytes open `b`.
pub open spec fn be_u64(b: Seq<u8>) -> u64
    recommends
        b.len() >= 8,
{
    ((b[0] as u64) << 56) | ((b[1] as u64) << 48) | ((b[2] as u64) << 40) | ((b[3] as u64) << 32)
        | ((b[4] as u64) << 24) | ((b[5] as u64) << 16) | ((b[6] as u64) << 8) | (b[7] as u64)
}

/// Wire form of a signed 32-bit integer: its two's complement word.
pub open spec fn i32_be(v: i32) -> Seq<u8> {
    u32_be(v as u32)
}

/// Wire form of a signed 64-bit integer: its two's complement word.
pub open spec fn i64_be(v: i64) -> Seq<u8> {
    u64_be(v as u64)
}

/// Wire form of a boolean, and of the present/absent discriminator of an
/// optional value: the word 1 or 0.
pub open spec fn bool_be(v: bool) -> Seq<u8> {
    u32_be(if v { 1u32 } else { 0u32 })
}

/// Wire form of a variable-length opaque payload (and of a string's bytes):
/// its byte count, the bytes, then zero padding to a 4-byte boundary.
pub open spec fn opaque_wire(b: Seq<u8>) -> Seq<u8> {
    u32_be(b.len() as u32) + b + zeros(pad_len(b.len()))
}

/// Wire form of a fixed-length opaque payload: the bytes, zero-padded to a
/// 4-byte boundary, with no length prefix.
pub open spec fn fixed_wire(b: Seq<u8>) -> Seq<u8> {
    b + zeros(pad_len(b.len()))
}

/// Number of 4-byte words that hold `n` bytes.
pub open spec fn word_count(n: nat) -> nat {
    (n + pad_len(n)) / 4
}

/// Reading back the bytes of a 32-bit word gives the word.
pub proof fn lemma_u32_round_trip(v: u32)
    ensures
        be_u32(u32_be(v)) == v,
{
    let b = u32_be(v);
    assert(b[0] == (v >> 24) as u8 && b[1] == (v >> 16) as u8 && b[2] == (v >> 8) as u8 && b[3]
        == v as u8);
    assert(((((v >> 24) as u8) as u32) << 24) | ((((v >> 16) as u8) as u32) << 16) | ((((v
        >> 8) as u8) as u32) << 8) | ((v as u8) as u32) == v) by (bit_vector);
}

/// Writing out the word read from four bytes gives those bytes.
pub proof fn lemma_be_u32_bytes(b: Seq<u8>)
    requires
        b.len() >= 4,
    ensures
        u32_be(be_u32(b)) == b.take(4),
{
    let (b0, b1, b2, b3) = (b[0], b[1], b[2], b[3]);
    let v = be_u32(b);
    assert(v == ((b0 as u32) << 24) | ((b1 as u32) << 16) | ((b2 as u32) << 8) | (b3 as u32));
    assert(v == ((b0 as u32) << 24) | ((b1 as u32) << 16) | ((b2 as u32) << 8) | (b3 as u32) ==> (v
        >> 24) as u8 == b0 && (v >> 16) as u8 == b1 && (v >> 8) as u8 == b2 && v as u8 == b3)
        by (bit_vector);
    assert(u32_be(v) =~= b.take(4));
}

/// Reading back the bytes of a 64-bit word gives the word.
pub proof fn lemma_u64_round_trip(v: u64)
    ensures
        be_u64(u64_be(v)) == v,
{
    let b = u64_be(v);
    assert(b[0] == (v >> 56) as u8 && b[1] == (v >> 48) as u8 && b[2] == (v >> 40) as u8 && b[3]
        == (v >> 32) as u8 && b[4] == (v >> 24) as u8 && b[5] == (v >> 16) as u8 && b[6] == (v
        >> 8) as u8 && b[7] == v as u8);
    assert(((((v >> 56) as u8) as u64) << 56) | ((((v >> 48) as u8) as u64) << 48) | ((((v
        >> 40) as u8) as u64) << 40) | ((((v >> 32) as u8) as u64) << 32) | ((((v >> 24) as u8)
        as u64) << 24) | ((((v >> 16) as u8) as u64) << 16) | ((((v >> 8) as u8) as u64) << 8)
        | ((v as u8) as u64) == v) by (bit_vector);
}

/// A signed 32-bit integer survives the trip through its word.
pub proof fn lemma_i32_round_trip(v: i32)
    ensures
        be_u32(i32_be(v)) as i32 == v,
{
    lemma_u32_round_trip(v as u32);
    assert((v as u32) as i32 == v) by (bit_vector);
}

/// A signed 64-bit integer survives the trip through its word.
pub proof fn lemma_i64_round_trip(v: i64)
    ensures
        be_u64(i64_be(v)) as i64 == v,
{
    lemma_u64_round_trip(v as u64);
    assert((v as u64) as i64 == v) by (bit_vector);
}

/// The words 0 and 1 are the only ones read as a boolean.
pub proof fn lemma_bool_round_trip(v: bool)
    ensures
        be_u32(bool_be(v)) == (if v { 1u32 } else { 0u32 }),
{
    lemma_u32_round_trip(if v { 1u32 } else { 0u32 });
}

} // verus!
