//! Laws of the codec, stated over the wire model that the encoder's and the
//! decoder's contracts use, and proved.
use vstd::prelude::*;
use vstd::utf8::{decode_utf8, encode_utf8, is_scalar, valid_utf8};

use crate::canonical::{
    flatten_entries, keys_distinct, lemma_sort_contents, lemma_sorted_unique, sort_entries, Entry,
};
use crate::de::{after_opaque, opaque_fits, opaque_padding, opaque_payload, padded_len};
use crate::wire::{
    all_zero, be_u32, be_u64, bool_be, fixed_wire, i32_be, i64_be, lemma_i32_round_trip,
    lemma_i64_round_trip, lemma_u32_round_trip, lemma_u64_round_trip, opaque_wire, pad_len, u32_be,
    u64_be, word_count, zeros,
};

verus! {

/// Decoding a 32-bit word from the front of its wire form, followed by any
/// bytes, returns the word and leaves those bytes.
pub proof fn law_u32_round_trip(v: u32, rest: Seq<u8>)
    ensures
        (u32_be(v) + rest).len() >= 4,
        be_u32(u32_be(v) + rest) == v,
        (u32_be(v) + rest).skip(4) == rest,
{
    lemma_u32_round_trip(v);
    lemma_prefix_word(u32_be(v), rest);
    assert((u32_be(v) + rest).skip(4) =~= rest);
}

/// Decoding a 64-bit word from the front of its wire form, followed by any
/// bytes, returns the word and leaves those bytes.
pub proof fn law_u64_round_trip(v: u64, rest: Seq<u8>)
    ensures
        (u64_be(v) + rest).len() >= 8,
        be_u64(u64_be(v) + rest) == v,
        (u64_be(v) + rest).skip(8) == rest,
{
    lemma_u64_round_trip(v);
    let w = u64_be(v) + rest;
    assert(forall|k: int| 0 <= k < 8 ==> w[k] == u64_be(v)[k]);
    assert(w.skip(8) =~= rest);
}

/// Signed integers survive the trip through their words.
pub proof fn law_signed_round_trip(a: i32, b: i64, rest: Seq<u8>)
    ensures
        be_u32(i32_be(a) + rest) as i32 == a,
        be_u64(i64_be(b) + rest) as i64 == b,
{
    lemma_i32_round_trip(a);
    lemma_i64_round_trip(b);
    law_u32_round_trip(a as u32, rest);
    law_u64_round_trip(b as u64, rest);
}

/// Integers narrower than 32 bits are widened on the wire and narrowed back
/// without loss: the word read back is in the narrow type's range and equals
/// the value.
pub proof fn law_narrow_round_trip(a: u8, b: u16, c: i8, d: i16, rest: Seq<u8>)
    ensures
        be_u32(u32_be(a as u32) + rest) <= u8::MAX && be_u32(u32_be(a as u32) + rest) == a,
        be_u32(u32_be(b as u32) + rest) <= u16::MAX && be_u32(u32_be(b as u32) + rest) == b,
        i8::MIN <= be_u32(i32_be(c as i32) + rest) as i32 <= i8::MAX && be_u32(
            i32_be(c as i32) + rest,
        ) as i32 == c,
        i16::MIN <= be_u32(i32_be(d as i32) + rest) as i32 <= i16::MAX && be_u32(
            i32_be(d as i32) + rest,
        ) as i32 == d,
{
    law_u32_round_trip(a as u32, rest);
    law_u32_round_trip(b as u32, rest);
    law_signed_round_trip(c as i32, 0i64, rest);
    law_signed_round_trip(d as i32, 0i64, rest);
}

/// A boolean (or an optional value's discriminator) is read back as the
/// same boolean: its word is 1 or 0.
pub proof fn law_bool_round_trip(v: bool, rest: Seq<u8>)
    ensures
        be_u32(bool_be(v) + rest) <= 1,
        (be_u32(bool_be(v) + rest) == 1) == v,
        (bool_be(v) + rest).skip(4) == rest,
{
    law_u32_round_trip(if v { 1u32 } else { 0u32 }, rest);
}

/// A character is read back as a valid code point equal to its own.
pub proof fn law_char_round_trip(c: char, rest: Seq<u8>)
    ensures
        is_scalar(be_u32(u32_be(c as u32) + rest)),
        be_u32(u32_be(c as u32) + rest) == c as u32,
        be_u32(u32_be(c as u32) + rest) as char == c,
{
    law_u32_round_trip(c as u32, rest);
    vstd::utf8::char_is_scalar(c);
    vstd::utf8::char_u32_cast(c, c as u32);
}

/// Decoding a variable-length opaque field from the front of its wire form,
/// followed by any bytes, returns the payload and leaves those bytes; the
/// padding passes the zero check.
pub proof fn law_opaque_round_trip(b: Seq<u8>, rest: Seq<u8>)
    requires
        b.len() <= u32::MAX,
    ensures
        opaque_fits(opaque_wire(b) + rest),
        all_zero(opaque_padding(opaque_wire(b) + rest)),
        opaque_payload(opaque_wire(b) + rest) == b,
        after_opaque(opaque_wire(b) + rest) == rest,
{
    let w = opaque_wire(b) + rest;
    let n = b.len() as u32;
    let p = zeros(pad_len(b.len()));
    let t = b + p + rest;
    assert(w == u32_be(n) + t) by {
        assert(w =~= u32_be(n) + t);
    }
    law_u32_round_trip(n, t);
    assert(be_u32(w) == n);
    assert(opaque_payload(w) == b) by {
        assert(opaque_payload(w) =~= b);
    }
    assert(opaque_padding(w) == p) by {
        assert(opaque_padding(w) =~= p);
    }
    assert(after_opaque(w) == rest) by {
        assert(after_opaque(w) =~= rest);
    }
}

/// A string is read back as the same characters: its UTF-8 bytes travel as
/// an opaque field and pass validation.
pub proof fn law_string_round_trip(s: Seq<char>, rest: Seq<u8>)
    requires
        encode_utf8(s).len() <= u32::MAX,
    ensures
        opaque_fits(opaque_wire(encode_utf8(s)) + rest),
        all_zero(opaque_padding(opaque_wire(encode_utf8(s)) + rest)),
        valid_utf8(opaque_payload(opaque_wire(encode_utf8(s)) + rest)),
        decode_utf8(opaque_payload(opaque_wire(encode_utf8(s)) + rest)) == s,
        after_opaque(opaque_wire(encode_utf8(s)) + rest) == rest,
{
    law_opaque_round_trip(encode_utf8(s), rest);
    vstd::utf8::encode_utf8_valid_utf8(s);
    vstd::utf8::encode_utf8_decode_utf8(s);
}

/// The wire form of a variable-length opaque or string payload of length
/// `L` takes `4 + L + (4 - L mod 4) mod 4` bytes, a multiple of four, and
/// everything after the payload is zero.
pub proof fn law_padding(b: Seq<u8>)
    ensures
        opaque_wire(b).len() == 4 + b.len() + (4 - b.len() % 4) % 4,
        opaque_wire(b).len() % 4 == 0,
        opaque_wire(b).subrange(4, 4 + b.len() as int) == b,
        all_zero(opaque_wire(b).skip(4 + b.len() as int)),
{
    let w = opaque_wire(b);
    assert(w.subrange(4, 4 + b.len() as int) =~= b);
    assert(w.skip(4 + b.len() as int) =~= zeros(pad_len(b.len())));
}

/// Fixed-length opaque data is read back as the same bytes, and the words
/// it is packed into are exactly those bytes with zero padding.
pub proof fn law_fixed_round_trip(b: Seq<u8>, rest: Seq<u8>)
    ensures
        fixed_wire(b).len() == 4 * word_count(b.len()),
        (fixed_wire(b) + rest).take(b.len() as int) == b,
        (fixed_wire(b) + rest).skip((4 * word_count(b.len())) as int) == rest,
        all_zero(fixed_wire(b).skip(b.len() as int)),
{
    let w = fixed_wire(b) + rest;
    assert(w.take(b.len() as int) =~= b);
    assert(w.skip((4 * word_count(b.len())) as int) =~= rest);
    assert(fixed_wire(b).skip(b.len() as int) =~= zeros(pad_len(b.len())));
}

/// Two maps with the same entries and no repeated key encode to the same
/// bytes, whatever order their entries were collected in: the entry counts
/// agree and the canonical orderings coincide.
pub proof fn law_map_order_independent(a: Seq<Entry>, b: Seq<Entry>)
    requires
        keys_distinct(a),
        keys_distinct(b),
        a.to_set() == b.to_set(),
    ensures
        a.len() == b.len(),
        sort_entries(a) == sort_entries(b),
        flatten_entries(sort_entries(a)) == flatten_entries(sort_entries(b)),
{
    lemma_sort_contents(a);
    lemma_sort_contents(b);
    assert forall|e: Entry| sort_entries(a).contains(e) <==> sort_entries(b).contains(e) by {
        assert(a.to_set().contains(e) == a.contains(e));
        assert(b.to_set().contains(e) == b.contains(e));
    }
    lemma_sorted_unique(sort_entries(a), sort_entries(b));
}

/// The first four bytes of a sequence decide the word read from it.
proof fn lemma_prefix_word(w: Seq<u8>, rest: Seq<u8>)
    requires
        w.len() == 4,
    ensures
        be_u32(w + rest) == be_u32(w),
{
    assert((w + rest)[0] == w[0] && (w + rest)[1] == w[1] && (w + rest)[2] == w[2] && (w
        + rest)[3] == w[3]);
}

} // verus!
