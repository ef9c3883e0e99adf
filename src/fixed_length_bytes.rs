//! Fixed-length opaque data: `N` bytes packed into big-endian 4-byte words,
//! the last one zero-padded, with no length prefix.
use vstd::prelude::*;

use crate::de::XDRDeserializer;
use crate::error::{Error, Result};
use crate::ser::XDRSerializer;
use crate::wire::{be_u32, fixed_wire, lemma_be_u32_bytes, pad_len, u32_be, word_count};

verus! {

/// Big-endian bytes of each word, in order.
pub open spec fn words_be(ws: Seq<u32>) -> Seq<u8>
    decreases ws.len(),
{
    if ws.len() == 0 {
        Seq::empty()
    } else {
        words_be(ws.drop_last()) + u32_be(ws.last())
    }
}

/// The `k`-th byte of `b`, or zero past its end.
pub open spec fn byte_or_zero(b: Seq<u8>, k: int) -> u8 {
    if 0 <= k < b.len() {
        b[k]
    } else {
        0
    }
}

proof fn lemma_words_be_len(ws: Seq<u32>)
    ensures
        words_be(ws).len() == 4 * ws.len(),
    decreases ws.len(),
{
    if ws.len() > 0 {
        lemma_words_be_len(ws.drop_last());
    }
}

proof fn lemma_word_count(n: nat)
    ensures
        n + pad_len(n) == 4 * word_count(n),
        word_count(n) == n / 4 + (if n % 4 == 0 { 0nat } else { 1nat }),
{
}

/// Number of words that hold `n` bytes.
pub fn chunk_count(n: usize) -> (r: usize)
    ensures
        r == word_count(n as nat),
{
    proof {
        lemma_word_count(n as nat);
    }
    n / 4 + if n % 4 == 0 { 0 } else { 1 }
}

/// The `k`-th byte of `b`, or zero past its end.
fn get_or_zero(b: &[u8], k: usize) -> (r: u8)
    ensures
        r == byte_or_zero(b@, k as int),
{
    if k < b.len() {
        b[k]
    } else {
        0
    }
}

/// Packs `bytes` into big-endian words, zero-padding the last one.
pub fn pack_words(bytes: &[u8]) -> (r: Vec<u32>)
    ensures
        r@.len() == word_count(bytes@.len()),
        words_be(r@) == fixed_wire(bytes@),
{
    let n = bytes.len();
    let chunks = chunk_count(n);
    let ghost fw = fixed_wire(bytes@);
    proof {
        lemma_word_count(n as nat);
    }
    let mut words: Vec<u32> = Vec::new();
    let mut i: usize = 0;
    while i < chunks
        invariant
            i <= chunks,
            chunks == word_count(n as nat),
            n == bytes@.len(),
            fw == fixed_wire(bytes@),
            fw.len() == 4 * chunks,
            words@.len() == i,
            words_be(words@) == fw.take(4 * i),
        decreases chunks - i,
    {
        let start = 4 * i;
        let b0 = get_or_zero(bytes, start);
        let b1 = get_or_zero(bytes, start + 1);
        let b2 = get_or_zero(bytes, start + 2);
        let b3 = get_or_zero(bytes, start + 3);
        let w = ((b0 as u32) << 24) | ((b1 as u32) << 16) | ((b2 as u32) << 8) | (b3 as u32);
        proof {
            let q = seq![b0, b1, b2, b3];
            lemma_be_u32_bytes(q);
            assert(be_u32(q) == w);
            assert(q.take(4) =~= q);
            assert forall|k: int| 0 <= k < 4 implies fw[4 * i + k] == #[trigger] q[k] by {
                assert(fw[4 * i + k] == byte_or_zero(bytes@, 4 * i + k));
            }
            assert(fw.take(4 * i + 4) =~= fw.take(4 * i) + q);
        }
        let ghost prev = words@;
        words.push(w);
        assert(words@.drop_last() =~= prev);
        i = i + 1;
    }
    assert(fw.take(4 * chunks) =~= fw);
    words
}

/// Unpacks the first `n` bytes from big-endian words.
pub fn unpack_words(words: &[u32], n: usize) -> (r: Vec<u8>)
    requires
        n <= 4 * words@.len(),
    ensures
        r@ == words_be(words@).take(n as int),
{
    let ghost all = words_be(words@);
    proof {
        lemma_words_be_len(words@);
    }
    let mut out: Vec<u8> = Vec::new();
    let mut i: usize = 0;
    while i < n
        invariant
            i <= n,
            n <= 4 * words@.len(),
            all == words_be(words@),
            all.len() == 4 * words@.len(),
            out@ == all.take(i as int),
        decreases n - i,
    {
        let w = words[i / 4];
        let j = i % 4;
        let b = if j == 0 {
            (w >> 24) as u8
        } else if j == 1 {
            (w >> 16) as u8
        } else if j == 2 {
            (w >> 8) as u8
        } else {
            w as u8
        };
        proof {
            lemma_words_be_byte(words@, i as int);
        }
        out.push(b);
        assert(out@ =~= all.take(i as int + 1));
        i = i + 1;
    }
    out
}

/// The `k`-th byte of a run of words is the matching byte of word `k / 4`.
proof fn lemma_words_be_byte(ws: Seq<u32>, k: int)
    requires
        0 <= k < 4 * ws.len(),
    ensures
        words_be(ws)[k] == u32_be(ws[k / 4])[k % 4],
    decreases ws.len(),
{
    lemma_words_be_len(ws.drop_last());
    if k < 4 * (ws.len() - 1) {
        lemma_words_be_byte(ws.drop_last(), k);
    }
}

/// Appends `bytes` as fixed-length opaque data: the bytes and zero padding
/// to a 4-byte boundary, with no length prefix.
pub fn serialize<const N: usize>(bytes: &[u8; N], serializer: &mut XDRSerializer)
    ensures
        final(serializer)@ == old(serializer)@ + fixed_wire(bytes@),
{
    let words = pack_words(bytes.as_slice());
    let ghost ws = words@;
    let mut i: usize = 0;
    while i < words.len()
        invariant
            i <= ws.len(),
            ws == words@,
            words_be(ws) == fixed_wire(bytes@),
            serializer@ == old(serializer)@ + words_be(ws.take(i as int)),
        decreases ws.len() - i,
    {
        serializer.serialize_u32(words[i]);
        assert(ws.take(i as int + 1).drop_last() =~= ws.take(i as int));
        i = i + 1;
    }
    assert(ws.take(ws.len() as int) =~= ws);
}

/// Consumes fixed-length opaque data of `N` bytes. The padding bytes of the
/// last word are skipped without being checked.
pub fn deserialize<const N: usize>(deserializer: &mut XDRDeserializer) -> (r: Result<[u8; N]>)
    ensures
        r is Ok <==> old(deserializer)@.len() >= 4 * word_count(N as nat),
        r is Ok ==> r->Ok_0@ == old(deserializer)@.take(N as int) && final(deserializer)@ == old(
            deserializer,
        )@.skip((4 * word_count(N as nat)) as int),
        r is Err ==> r->Err_0 == Error::EndOfFile,
        final(deserializer).start_len() == old(deserializer).start_len(),
{
    let chunks = chunk_count(N);
    let ghost start = deserializer@;
    let mut words: Vec<u32> = Vec::new();
    let mut i: usize = 0;
    while i < chunks
        invariant
            i <= chunks,
            chunks == word_count(N as nat),
            words@.len() == i,
            4 * i <= start.len(),
            deserializer@ == start.skip(4 * i),
            words_be(words@) == start.take(4 * i),
            start == old(deserializer)@,
            deserializer.start_len() == old(deserializer).start_len(),
        decreases chunks - i,
    {
        let ghost before = deserializer@;
        let w = match deserializer.parse_u32() {
            Ok(w) => w,
            Err(e) => {
                return Err(e);
            },
        };
        proof {
            lemma_be_u32_bytes(before);
            assert(before.take(4) =~= start.subrange(4 * i, 4 * i + 4));
            assert(start.take(4 * i + 4) =~= start.take(4 * i) + start.subrange(4 * i, 4 * i + 4));
            assert(deserializer@ =~= start.skip(4 * i + 4));
        }
        let ghost prev = words@;
        words.push(w);
        assert(words@.drop_last() =~= prev);
        i = i + 1;
    }
    proof {
        lemma_word_count(N as nat);
        lemma_words_be_len(words@);
    }
    let bytes = unpack_words(words.as_slice(), N);
    assert(bytes@ =~= start.take(N as int));
    let mut out: [u8; N] = vstd::array::array_fill_for_copy_types(0u8);
    let mut k: usize = 0;
    while k < N
        invariant
            k <= N,
            bytes@.len() == N,
            bytes@ == start.take(N as int),
            out@.len() == N,
            forall|m: int| 0 <= m < k ==> out@[m] == bytes@[m],
        decreases N - k,
    {
        out[k] = bytes[k];
        k = k + 1;
    }
    assert(out@ =~= start.take(N as int));
    Ok(out)
}

} // verus!
