//! The encoder engine: each call appends the canonical XDR bytes of one
//! construct to an owned output buffer.
use vstd::prelude::*;
use vstd::string::StringSliceAdditionalSpecFns;

use crate::canonical::{entries_view, flatten_entries, sort_entries, sorted_entries, Entry};
use crate::error::{Error, Result};
use crate::padding_len;
use crate::wire::{bool_be, i32_be, i64_be, opaque_wire, u32_be, u64_be, zeros};

verus! {

/// Encoder state: the bytes written so far.
pub struct XDRSerializer {
    output: Vec<u8>,
}

impl View for XDRSerializer {
    type V = Seq<u8>;

    closed spec fn view(&self) -> Seq<u8> {
        self.output@
    }
}

impl XDRSerializer {
    /// An encoder with nothing written.
    pub fn new() -> (r: Self)
        ensures
            r@ == Seq::<u8>::empty(),
    {
        XDRSerializer { output: Vec::new() }
    }

    /// The bytes written so far.
    pub fn as_bytes(&self) -> (r: &[u8])
        ensures
            r@ == self@,
    {
        self.output.as_slice()
    }

    /// Gives up the encoder and returns the bytes written.
    pub fn into_bytes(self) -> (r: Vec<u8>)
        ensures
            r@ == self@,
    {
        self.output
    }

    /// Appends `b` verbatim.
    pub(crate) fn push_bytes(&mut self, b: &[u8])
        ensures
            final(self)@ == old(self)@ + b@,
    {
        let mut i: usize = 0;
        while i < b.len()
            invariant
                i <= b@.len(),
                self@ == old(self)@ + b@.take(i as int),
            decreases b@.len() - i,
        {
            self.output.push(b[i]);
            assert(b@.take(i as int + 1) =~= b@.take(i as int).push(b@[i as int]));
            i = i + 1;
        }
        assert(b@.take(b@.len() as int) =~= b@);
    }

    /// Appends `n` zero bytes.
    fn push_zeros(&mut self, n: usize)
        ensures
            final(self)@ == old(self)@ + zeros(n as nat),
    {
        let mut i: usize = 0;
        while i < n
            invariant
                i <= n,
                self@ == old(self)@ + zeros(i as nat),
            decreases n - i,
        {
            self.output.push(0u8);
            assert(zeros(i as nat + 1) =~= zeros(i as nat).push(0u8));
            i = i + 1;
        }
    }

    /// Appends an unsigned 32-bit integer.
    pub fn serialize_u32(&mut self, v: u32)
        ensures
            final(self)@ == old(self)@ + u32_be(v),
    {
        self.output.push((v >> 24) as u8);
        self.output.push((v >> 16) as u8);
        self.output.push((v >> 8) as u8);
        self.output.push(v as u8);
        assert(self@ =~= old(self)@ + u32_be(v));
    }

    /// Appends an unsigned 64-bit integer.
    pub fn serialize_u64(&mut self, v: u64)
        ensures
            final(self)@ == old(self)@ + u64_be(v),
    {
        self.output.push((v >> 56) as u8);
        self.output.push((v >> 48) as u8);
        self.output.push((v >> 40) as u8);
        self.output.push((v >> 32) as u8);
        self.output.push((v >> 24) as u8);
        self.output.push((v >> 16) as u8);
        self.output.push((v >> 8) as u8);
        self.output.push(v as u8);
        assert(self@ =~= old(self)@ + u64_be(v));
    }

    /// Appends a signed 32-bit integer.
    pub fn serialize_i32(&mut self, v: i32)
        ensures
            final(self)@ == old(self)@ + i32_be(v),
    {
        self.serialize_u32(v as u32);
    }

    /// Appends a signed 64-bit integer.
    pub fn serialize_i64(&mut self, v: i64)
        ensures
            final(self)@ == old(self)@ + i64_be(v),
    {
        self.serialize_u64(v as u64);
    }

    /// Appends a signed 8-bit integer, widened to 32 bits.
    pub fn serialize_i8(&mut self, v: i8)
        ensures
            final(self)@ == old(self)@ + i32_be(v as i32),
    {
        self.serialize_i32(v as i32);
    }

    /// Appends a signed 16-bit integer, widened to 32 bits.
    pub fn serialize_i16(&mut self, v: i16)
        ensures
            final(self)@ == old(self)@ + i32_be(v as i32),
    {
        self.serialize_i32(v as i32);
    }

    /// Appends an unsigned 8-bit integer, widened to 32 bits.
    pub fn serialize_u8(&mut self, v: u8)
        ensures
            final(self)@ == old(self)@ + u32_be(v as u32),
    {
        self.serialize_u32(v as u32);
    }

    /// Appends an unsigned 16-bit integer, widened to 32 bits.
    pub fn serialize_u16(&mut self, v: u16)
        ensures
            final(self)@ == old(self)@ + u32_be(v as u32),
    {
        self.serialize_u32(v as u32);
    }

    /// Appends a boolean as the word 1 or 0.
    pub fn serialize_bool(&mut self, v: bool)
        ensures
            final(self)@ == old(self)@ + bool_be(v),
    {
        self.serialize_u32(if v { 1u32 } else { 0u32 });
    }

    /// Appends a character as its code point.
    pub fn serialize_char(&mut self, v: char)
        ensures
            final(self)@ == old(self)@ + u32_be(v as u32),
    {
        self.serialize_u32(v as u32);
    }

    /// Appends the discriminator of an absent optional value.
    pub fn serialize_none(&mut self)
        ensures
            final(self)@ == old(self)@ + bool_be(false),
    {
        self.serialize_bool(false);
    }

    /// Appends the discriminator of a present optional value; the payload
    /// is written next.
    pub fn serialize_some(&mut self)
        ensures
            final(self)@ == old(self)@ + bool_be(true),
    {
        self.serialize_bool(true);
    }

    /// Appends the discriminant of an enum or union variant; its payload, if
    /// any, is written next.
    pub fn serialize_variant_index(&mut self, variant_index: u32)
        ensures
            final(self)@ == old(self)@ + u32_be(variant_index),
    {
        self.serialize_u32(variant_index);
    }

    /// Appends a variable-length opaque payload: its length, its bytes and
    /// zero padding. Fails, writing nothing, when the length does not fit in
    /// 32 bits.
    pub fn serialize_bytes(&mut self, v: &[u8]) -> (r: Result<()>)
        ensures
            r is Ok <==> v@.len() <= u32::MAX,
            r is Ok ==> final(self)@ == old(self)@ + opaque_wire(v@),
            r is Err ==> r->Err_0 is Message && r->Err_0->Message_0@ == "bytes too long"@
                && final(self)@ == old(self)@,
    {
        let bytes_len = v.len();
        if bytes_len > 0xffff_ffffusize {
            return Err(Error::message("bytes too long"));
        }
        self.serialize_u32(bytes_len as u32);
        self.push_bytes(v);
        self.push_zeros(padding_len(bytes_len));
        assert(self@ =~= old(self)@ + opaque_wire(v@));
        Ok(())
    }

    /// Appends a string as the opaque payload of its UTF-8 bytes.
    pub fn serialize_str(&mut self, v: &str) -> (r: Result<()>)
        ensures
            r is Ok <==> v.spec_bytes().len() <= u32::MAX,
            r is Ok ==> final(self)@ == old(self)@ + opaque_wire(v.spec_bytes()),
            r is Err ==> r->Err_0 is Message && r->Err_0->Message_0@ == "bytes too long"@
                && final(self)@ == old(self)@,
    {
        self.serialize_bytes(v.as_bytes())
    }

    /// Appends the element count of a sequence; the elements are written
    /// next. Fails, writing nothing, when the count is unknown or does not
    /// fit in 32 bits.
    pub fn serialize_seq(&mut self, len: Option<usize>) -> (r: Result<()>)
        ensures
            r is Ok <==> (len is Some && len->0 <= u32::MAX),
            r is Ok ==> final(self)@ == old(self)@ + u32_be(len->0 as u32),
            len is None ==> r == Err::<(), Error>(Error::SequenceWithoutLength),
            len is Some && r is Err ==> r->Err_0 is Message && r->Err_0->Message_0@
                == "sequence too long"@,
            r is Err ==> final(self)@ == old(self)@,
    {
        match len {
            None => Err(Error::SequenceWithoutLength),
            Some(n) => {
                if n > 0xffff_ffffusize {
                    Err(Error::message("sequence too long"))
                } else {
                    self.serialize_u32(n as u32);
                    Ok(())
                }
            },
        }
    }

    /// Appends the entry count of a map and returns the state that collects
    /// its entries. Fails, writing nothing, when the count is unknown or does
    /// not fit in 32 bits.
    pub fn serialize_map(&mut self, len: Option<usize>) -> (r: Result<MapSerializer>)
        ensures
            r is Ok <==> (len is Some && len->0 <= u32::MAX),
            r is Ok ==> final(self)@ == old(self)@ + u32_be(len->0 as u32),
            r is Ok ==> r->Ok_0.pending_key() is None && r->Ok_0.entries() == Seq::<Entry>::empty(),
            len is None ==> r is Err && r->Err_0 == Error::SequenceWithoutLength,
            len is Some && r is Err ==> r->Err_0 is Message && r->Err_0->Message_0@
                == "sequence too long"@,
            r is Err ==> final(self)@ == old(self)@,
    {
        match self.serialize_seq(len) {
            Ok(()) => Ok(MapSerializer::new()),
            Err(e) => Err(e),
        }
    }
}

/// Collects the entries of one map, each key and value already encoded, and
/// emits them in ascending order of key bytes.
pub struct MapSerializer {
    current_key: Option<Vec<u8>>,
    kv_pairs: Vec<(Vec<u8>, Vec<u8>)>,
}

impl MapSerializer {
    /// The encoded key that waits for its value, if any.
    pub closed spec fn pending_key(&self) -> Option<Seq<u8>> {
        match self.current_key {
            Some(k) => Some(k@),
            None => None,
        }
    }

    /// The complete entries collected so far, in the order they came.
    pub closed spec fn entries(&self) -> Seq<Entry> {
        entries_view(self.kv_pairs@)
    }

    /// A collector with no entries.
    pub fn new() -> (r: Self)
        ensures
            r.pending_key() is None,
            r.entries() == Seq::<Entry>::empty(),
    {
        let r = MapSerializer { current_key: None, kv_pairs: Vec::new() };
        assert(r.entries() =~= Seq::<Entry>::empty());
        r
    }

    /// Takes the encoded key of the next entry. Fails when a key already
    /// waits for its value.
    pub fn serialize_key(&mut self, key: Vec<u8>) -> (r: Result<()>)
        ensures
            r is Ok <==> old(self).pending_key() is None,
            r is Ok ==> final(self).pending_key() == Some(key@),
            r is Err ==> r->Err_0 is Message && r->Err_0->Message_0@ == "previous key exists"@
                && final(self).pending_key() == old(self).pending_key(),
            final(self).entries() == old(self).entries(),
    {
        if self.current_key.is_none() {
            self.current_key = Some(key);
            Ok(())
        } else {
            Err(Error::message("previous key exists"))
        }
    }

    /// Takes the encoded value for the waiting key and records the entry.
    /// Fails when no key waits.
    pub fn serialize_value(&mut self, value: Vec<u8>) -> (r: Result<()>)
        ensures
            r is Ok <==> old(self).pending_key() is Some,
            r is Ok ==> final(self).pending_key() is None && final(self).entries() == old(
                self,
            ).entries().push((old(self).pending_key()->0, value@)),
            r is Err ==> r->Err_0 is Message && r->Err_0->Message_0@ == "no key exists"@
                && final(self).pending_key() == old(self).pending_key() && final(self).entries()
                == old(self).entries(),
    {
        match self.current_key.take() {
            Some(key) => {
                self.kv_pairs.push((key, value));
                assert(self.entries() =~= old(self).entries().push((old(self).pending_key()->0, value@)));
                Ok(())
            },
            None => Err(Error::message("no key exists")),
        }
    }

    /// Appends the collected entries to `serializer` in ascending order of
    /// key bytes. Fails, writing nothing, when a key still waits for its
    /// value.
    pub fn end(self, serializer: &mut XDRSerializer) -> (r: Result<()>)
        ensures
            r is Ok <==> self.pending_key() is None,
            r is Ok ==> final(serializer)@ == old(serializer)@ + flatten_entries(
                sort_entries(self.entries()),
            ),
            r is Err ==> r->Err_0 is Message && r->Err_0->Message_0@
                == "trailing key exists at end"@ && final(serializer)@ == old(serializer)@,
    {
        if self.current_key.is_some() {
            return Err(Error::message("trailing key exists at end"));
        }
        let sorted = sorted_entries(&self.kv_pairs);
        let ghost es = entries_view(sorted@);
        let mut i: usize = 0;
        while i < sorted.len()
            invariant
                i <= sorted@.len(),
                es == entries_view(sorted@),
                serializer@ == old(serializer)@ + flatten_entries(es.take(i as int)),
            decreases sorted@.len() - i,
        {
            serializer.push_bytes(sorted[i].0.as_slice());
            serializer.push_bytes(sorted[i].1.as_slice());
            assert(es.take(i as int + 1).drop_last() =~= es.take(i as int));
            i = i + 1;
        }
        assert(es.take(sorted@.len() as int) =~= es);
        Ok(())
    }
}

} // verus!
