//! The decoder engine: each call consumes the canonical XDR bytes of one
//! construct from the front of a borrowed input, validating them.
use vstd::prelude::*;
use vstd::string::StringSliceAdditionalSpecFns;
use vstd::utf8::{is_scalar, valid_utf8};

use crate::error::{append_decimal, decimal, Error, Result};
use crate::padding_len;
use crate::wire::{all_zero, be_u32, be_u64, pad_len};

verus! {

/// `std::str::Utf8Error`, the diagnostic of a failed UTF-8 validation.
#[verifier::external_type_specification]
#[verifier::external_body]
pub struct ExUtf8Error(core::str::Utf8Error);

/// Relies on `std::str::from_utf8`: it succeeds exactly on valid UTF-8, and
/// the string it returns views the same bytes.
#[verifier::external_body]
fn str_from_utf8<'a>(v: &'a [u8]) -> (r: core::result::Result<&'a str, core::str::Utf8Error>)
    ensures
        r is Ok <==> valid_utf8(v@),
        r is Ok ==> r->Ok_0.spec_bytes() == v@,
{
    core::str::from_utf8(v)
}

/// Relies on `char::from_u32`: a character exactly for the Unicode scalar
/// values, with that code point.
#[verifier::external_body]
fn char_from_u32(v: u32) -> (r: Option<char>)
    ensures
        r is Some <==> is_scalar(v),
        r is Some ==> r->0 as u32 == v,
{
    char::from_u32(v)
}

/// Byte count of the padded payload that a length word `n` announces.
pub open spec fn padded_len(n: u32) -> nat {
    n as nat + pad_len(n as nat)
}

/// Whether `input` opens with a length word and at least the padded payload
/// it announces.
pub open spec fn opaque_fits(input: Seq<u8>) -> bool {
    input.len() >= 4 && input.len() - 4 >= padded_len(be_u32(input))
}

/// The payload of the opaque field that opens `input`.
pub open spec fn opaque_payload(input: Seq<u8>) -> Seq<u8> {
    input.subrange(4, 4 + be_u32(input) as int)
}

/// The padding bytes of the opaque field that opens `input`.
pub open spec fn opaque_padding(input: Seq<u8>) -> Seq<u8> {
    input.subrange(4 + be_u32(input) as int, 4 + padded_len(be_u32(input)) as int)
}

/// What is left of `input` after the opaque field that opens it.
pub open spec fn after_opaque(input: Seq<u8>) -> Seq<u8> {
    input.skip(4 + padded_len(be_u32(input)) as int)
}

/// Decoder state: the input not consumed yet, within the input it started
/// from.
pub struct XDRDeserializer<'de> {
    input: &'de [u8],
    start_len: usize,
}

impl<'de> View for XDRDeserializer<'de> {
    type V = Seq<u8>;

    /// The input not consumed yet.
    closed spec fn view(&self) -> Seq<u8> {
        self.input@
    }
}

impl<'de> XDRDeserializer<'de> {
    #[verifier::type_invariant]
    spec fn inv(&self) -> bool {
        self.input@.len() <= self.start_len
    }

    /// Byte length of the input that decoding started from.
    pub closed spec fn start_len(&self) -> nat {
        self.start_len as nat
    }

    /// A decoder at the start of `input`.
    pub fn from_bytes(input: &'de [u8]) -> (r: Self)
        ensures
            r@ == input@,
            r.start_len() == input@.len(),
    {
        XDRDeserializer { input, start_len: input.len() }
    }

    /// The input not consumed yet.
    pub fn input(&self) -> (r: &'de [u8])
        ensures
            r@ == self@,
    {
        self.input
    }

    /// Number of bytes consumed since decoding started.
    pub fn consumed(&self) -> (r: usize)
        ensures
            r == self.start_len() - self@.len(),
    {
        proof {
            use_type_invariant(self);
        }
        self.start_len - self.input.len()
    }

    /// Succeeds exactly when all input has been consumed; a top-level
    /// decode ends with this check.
    pub fn finish(&self) -> (r: Result<()>)
        ensures
            r is Ok <==> self@.len() == 0,
            r is Err ==> r->Err_0 == Error::TrailingBytes,
    {
        if self.input.len() == 0 {
            Ok(())
        } else {
            Err(Error::TrailingBytes)
        }
    }

    /// Consumes the next `n` bytes. Fails, consuming nothing, when fewer
    /// remain.
    fn take(&mut self, n: usize) -> (r: Result<&'de [u8]>)
        ensures
            r is Ok <==> old(self)@.len() >= n,
            r is Ok ==> r->Ok_0@ == old(self)@.take(n as int) && final(self)@ == old(self)@.skip(
                n as int,
            ),
            r is Err ==> r->Err_0 == Error::EndOfFile && final(self)@ == old(self)@,
            final(self).start_len() == old(self).start_len(),
    {
        proof {
            use_type_invariant(&*self);
        }
        let input: &'de [u8] = self.input;
        if input.len() < n {
            return Err(Error::EndOfFile);
        }
        let head = vstd::slice::slice_subrange(input, 0, n);
        self.input = vstd::slice::slice_subrange(input, n, input.len());
        assert(self.input@ =~= old(self)@.skip(n as int));
        Ok(head)
    }

    /// Consumes an unsigned 32-bit integer.
    pub fn parse_u32(&mut self) -> (r: Result<u32>)
        ensures
            r is Ok <==> old(self)@.len() >= 4,
            r is Ok ==> r->Ok_0 == be_u32(old(self)@) && final(self)@ == old(self)@.skip(4),
            r is Err ==> r->Err_0 == Error::EndOfFile && final(self)@ == old(self)@,
            final(self).start_len() == old(self).start_len(),
    {
        let b = self.take(4)?;
        let v = ((b[0] as u32) << 24) | ((b[1] as u32) << 16) | ((b[2] as u32) << 8) | (b[3] as u32);
        Ok(v)
    }

    /// Consumes an unsigned 64-bit integer.
    pub fn parse_u64(&mut self) -> (r: Result<u64>)
        ensures
            r is Ok <==> old(self)@.len() >= 8,
            r is Ok ==> r->Ok_0 == be_u64(old(self)@) && final(self)@ == old(self)@.skip(8),
            r is Err ==> r->Err_0 == Error::EndOfFile && final(self)@ == old(self)@,
            final(self).start_len() == old(self).start_len(),
    {
        let b = self.take(8)?;
        let v = ((b[0] as u64) << 56) | ((b[1] as u64) << 48) | ((b[2] as u64) << 40) | ((
        b[3] as u64) << 32) | ((b[4] as u64) << 24) | ((b[5] as u64) << 16) | ((b[6] as u64)
            << 8) | (b[7] as u64);
        Ok(v)
    }

    /// Consumes a signed 32-bit integer.
    pub fn parse_i32(&mut self) -> (r: Result<i32>)
        ensures
            r is Ok <==> old(self)@.len() >= 4,
            r is Ok ==> r->Ok_0 == be_u32(old(self)@) as i32 && final(self)@ == old(self)@.skip(4),
            r is Err ==> r->Err_0 == Error::EndOfFile && final(self)@ == old(self)@,
            final(self).start_len() == old(self).start_len(),
    {
        let v = self.parse_u32()?;
        Ok(v as i32)
    }

    /// Consumes a signed 64-bit integer.
    pub fn parse_i64(&mut self) -> (r: Result<i64>)
        ensures
            r is Ok <==> old(self)@.len() >= 8,
            r is Ok ==> r->Ok_0 == be_u64(old(self)@) as i64 && final(self)@ == old(self)@.skip(8),
            r is Err ==> r->Err_0 == Error::EndOfFile && final(self)@ == old(self)@,
            final(self).start_len() == old(self).start_len(),
    {
        let v = self.parse_u64()?;
        Ok(v as i64)
    }

    /// Consumes a boolean, or the discriminator of an optional value: the
    /// word must be 0 or 1. A word of any other value fails with a message
    /// that names it.
    pub fn parse_bool(&mut self) -> (r: Result<bool>)
        ensures
            old(self)@.len() < 4 ==> r is Err && r->Err_0 == Error::EndOfFile && final(self)@ == old(
                self,
            )@,
            old(self)@.len() >= 4 ==> final(self)@ == old(self)@.skip(4) && (r is Ok <==> be_u32(
                old(self)@,
            ) <= 1) && (r is Ok ==> r->Ok_0 == (be_u32(old(self)@) == 1)),
            old(self)@.len() >= 4 && r is Err ==> r->Err_0 is Message && r->Err_0->Message_0@ == (
            "Option type descriminator should be 1 or 0 not "@ + decimal(be_u32(old(self)@) as nat)),
            final(self).start_len() == old(self).start_len(),
    {
        let v = self.parse_u32()?;
        match v {
            0 => Ok(false),
            1 => Ok(true),
            _ => {
                let mut text = String::from_str("Option type descriminator should be 1 or 0 not ");
                append_decimal(&mut text, v);
                Err(Error::Message(text))
            },
        }
    }

    /// Consumes a word and narrows it to an unsigned 8-bit integer.
    pub fn parse_u8(&mut self) -> (r: Result<u8>)
        ensures
            old(self)@.len() < 4 ==> r is Err && r->Err_0 == Error::EndOfFile && final(self)@ == old(self)@,
            old(self)@.len() >= 4 ==> final(self)@ == old(self)@.skip(4) && (r is Ok <==> be_u32(
                old(self)@,
            ) <= u8::MAX) && (r is Ok ==> r->Ok_0 == be_u32(old(self)@)) && (r is Err
                ==> r->Err_0 is Message && r->Err_0->Message_0@ == "TryFromIntError(())"@),
            final(self).start_len() == old(self).start_len(),
    {
        let v = self.parse_u32()?;
        if v <= 0xff {
            Ok(v as u8)
        } else {
            Err(Error::message("TryFromIntError(())"))
        }
    }

    /// Consumes a word and narrows it to an unsigned 16-bit integer.
    pub fn parse_u16(&mut self) -> (r: Result<u16>)
        ensures
            old(self)@.len() < 4 ==> r is Err && r->Err_0 == Error::EndOfFile && final(self)@ == old(self)@,
            old(self)@.len() >= 4 ==> final(self)@ == old(self)@.skip(4) && (r is Ok <==> be_u32(
                old(self)@,
            ) <= u16::MAX) && (r is Ok ==> r->Ok_0 == be_u32(old(self)@)) && (r is Err
                ==> r->Err_0 is Message && r->Err_0->Message_0@ == "TryFromIntError(())"@),
            final(self).start_len() == old(self).start_len(),
    {
        let v = self.parse_u32()?;
        if v <= 0xffff {
            Ok(v as u16)
        } else {
            Err(Error::message("TryFromIntError(())"))
        }
    }

    /// Consumes a signed word and narrows it to a signed 8-bit integer.
    pub fn parse_i8(&mut self) -> (r: Result<i8>)
        ensures
            old(self)@.len() < 4 ==> r is Err && r->Err_0 == Error::EndOfFile && final(self)@ == old(self)@,
            old(self)@.len() >= 4 ==> final(self)@ == old(self)@.skip(4) && (r is Ok <==> i8::MIN
                <= be_u32(old(self)@) as i32 <= i8::MAX) && (r is Ok ==> r->Ok_0 == be_u32(
                old(self)@,
            ) as i32) && (r is Err ==> r->Err_0 is Message && r->Err_0->Message_0@
                == "TryFromIntError(())"@),
            final(self).start_len() == old(self).start_len(),
    {
        let v = self.parse_i32()?;
        if -128 <= v && v <= 127 {
            Ok(v as i8)
        } else {
            Err(Error::message("TryFromIntError(())"))
        }
    }

    /// Consumes a signed word and narrows it to a signed 16-bit integer.
    pub fn parse_i16(&mut self) -> (r: Result<i16>)
        ensures
            old(self)@.len() < 4 ==> r is Err && r->Err_0 == Error::EndOfFile && final(self)@ == old(self)@,
            old(self)@.len() >= 4 ==> final(self)@ == old(self)@.skip(4) && (r is Ok <==> i16::MIN
                <= be_u32(old(self)@) as i32 <= i16::MAX) && (r is Ok ==> r->Ok_0 == be_u32(
                old(self)@,
            ) as i32) && (r is Err ==> r->Err_0 is Message && r->Err_0->Message_0@
                == "TryFromIntError(())"@),
            final(self).start_len() == old(self).start_len(),
    {
        let v = self.parse_i32()?;
        if -32768 <= v && v <= 32767 {
            Ok(v as i16)
        } else {
            Err(Error::message("TryFromIntError(())"))
        }
    }

    /// Consumes a word and reads it as a character code point, which must
    /// be a Unicode scalar value.
    pub fn parse_char(&mut self) -> (r: Result<char>)
        ensures
            old(self)@.len() < 4 ==> r is Err && r->Err_0 == Error::EndOfFile && final(self)@ == old(self)@,
            old(self)@.len() >= 4 ==> final(self)@ == old(self)@.skip(4) && (r is Ok <==> is_scalar(
                be_u32(old(self)@),
            )) && (r is Ok ==> r->Ok_0 as u32 == be_u32(old(self)@)) && (r is Err ==> r->Err_0 is Message
                && r->Err_0->Message_0@ == "CharTryFromError(())"@),
            final(self).start_len() == old(self).start_len(),
    {
        let v = self.parse_u32()?;
        match char_from_u32(v) {
            Some(c) => Ok(c),
            None => Err(Error::message("CharTryFromError(())")),
        }
    }

    /// Consumes the discriminant of an enum or union variant.
    pub fn parse_variant_index(&mut self) -> (r: Result<u32>)
        ensures
            r is Ok <==> old(self)@.len() >= 4,
            r is Ok ==> r->Ok_0 == be_u32(old(self)@) && final(self)@ == old(self)@.skip(4),
            r is Err ==> r->Err_0 == Error::EndOfFile && final(self)@ == old(self)@,
            final(self).start_len() == old(self).start_len(),
    {
        self.parse_u32()
    }

    /// Consumes a length word and its padded payload, returning a view of
    /// the payload. Fails at the end of input, or when the padding is not
    /// all zero.
    fn take_opaque(&mut self) -> (r: Result<&'de [u8]>)
        ensures
            r is Ok <==> opaque_fits(old(self)@) && all_zero(opaque_padding(old(self)@)),
            r is Ok ==> r->Ok_0@ == opaque_payload(old(self)@) && final(self)@ == after_opaque(
                old(self)@,
            ),
            r is Err && !opaque_fits(old(self)@) ==> r->Err_0 == Error::EndOfFile,
            r is Err && opaque_fits(old(self)@) ==> r->Err_0 == Error::NonZeroPadding,
            final(self).start_len() == old(self).start_len(),
    {
        let ghost start = self@;
        let len = self.parse_u32()?;
        let pad = padding_len(len as usize);
        if (self.input.len() as u64) < (len as u64) + (pad as u64) {
            return Err(Error::EndOfFile);
        }
        let body = self.take(len as usize + pad)?;
        let payload = vstd::slice::slice_subrange(body, 0, len as usize);
        let ghost padding = opaque_padding(start);
        assert(padding =~= body@.skip(len as int));
        assert(opaque_fits(start));
        let mut i: usize = len as usize;
        while i < body.len()
            invariant
                len as usize <= i <= body@.len(),
                padding == body@.skip(len as int),
                padding == opaque_padding(start),
                opaque_fits(start),
                start == old(self)@,
                self.start_len() == old(self).start_len(),
                forall|k: int| len <= k < i ==> body@[k] == 0,
            decreases body@.len() - i,
        {
            if body[i] != 0 {
                assert(padding[i - len as int] != 0);
                assert(!all_zero(padding));
                return Err(Error::NonZeroPadding);
            }
            i = i + 1;
        }
        assert(self@ =~= after_opaque(start));
        Ok(payload)
    }

    /// Consumes a variable-length opaque field and returns a copy of its
    /// payload.
    pub fn parse_bytes(&mut self) -> (r: Result<Vec<u8>>)
        ensures
            r is Ok <==> opaque_fits(old(self)@) && all_zero(opaque_padding(old(self)@)),
            r is Ok ==> r->Ok_0@ == opaque_payload(old(self)@) && final(self)@ == after_opaque(
                old(self)@,
            ),
            r is Err && !opaque_fits(old(self)@) ==> r->Err_0 == Error::EndOfFile,
            r is Err && opaque_fits(old(self)@) ==> r->Err_0 == Error::NonZeroPadding,
            final(self).start_len() == old(self).start_len(),
    {
        let payload = self.take_opaque()?;
        Ok(vstd::slice::slice_to_vec(payload))
    }

    /// Consumes a string field and returns a view of it within the input.
    /// Beyond the checks of an opaque field, the payload must be valid
    /// UTF-8.
    pub fn parse_str(&mut self) -> (r: Result<&'de str>)
        ensures
            r is Ok <==> opaque_fits(old(self)@) && all_zero(opaque_padding(old(self)@))
                && valid_utf8(opaque_payload(old(self)@)),
            r is Ok ==> r->Ok_0.spec_bytes() == opaque_payload(old(self)@) && final(self)@
                == after_opaque(old(self)@),
            r is Err && !opaque_fits(old(self)@) ==> r->Err_0 == Error::EndOfFile,
            r is Err && opaque_fits(old(self)@) && !all_zero(opaque_padding(old(self)@))
                ==> r->Err_0 == Error::NonZeroPadding,
            r is Err && opaque_fits(old(self)@) && all_zero(opaque_padding(old(self)@))
                ==> r->Err_0 is Utf8Error,
            final(self).start_len() == old(self).start_len(),
    {
        let payload = self.take_opaque()?;
        match str_from_utf8(payload) {
            Ok(s) => Ok(s),
            Err(e) => Err(Error::Utf8Error(e.to_string())),
        }
    }

    /// Consumes a string field and returns an owned copy of it.
    pub fn parse_string(&mut self) -> (r: Result<String>)
        ensures
            r is Ok <==> opaque_fits(old(self)@) && all_zero(opaque_padding(old(self)@))
                && valid_utf8(opaque_payload(old(self)@)),
            r is Ok ==> r->Ok_0@ == vstd::utf8::decode_utf8(opaque_payload(old(self)@))
                && final(self)@ == after_opaque(old(self)@),
            r is Err && !opaque_fits(old(self)@) ==> r->Err_0 == Error::EndOfFile,
            r is Err && opaque_fits(old(self)@) && !all_zero(opaque_padding(old(self)@))
                ==> r->Err_0 == Error::NonZeroPadding,
            r is Err && opaque_fits(old(self)@) && all_zero(opaque_padding(old(self)@))
                ==> r->Err_0 is Utf8Error,
            final(self).start_len() == old(self).start_len(),
    {
        let s = self.parse_str()?;
        proof {
            vstd::utf8::encode_utf8_decode_utf8(s@);
        }
        Ok(s.to_owned())
    }

    /// Consumes the element count of a sequence or map and returns the
    /// state that counts its elements down.
    pub fn parse_seq(&mut self) -> (r: Result<LengthAccessor>)
        ensures
            r is Ok <==> old(self)@.len() >= 4,
            r is Ok ==> r->Ok_0.remaining() == be_u32(old(self)@) && final(self)@ == old(
                self,
            )@.skip(4),
            r is Err ==> r->Err_0 == Error::EndOfFile && final(self)@ == old(self)@,
            final(self).start_len() == old(self).start_len(),
    {
        let len = self.parse_u32()?;
        Ok(LengthAccessor::new(len as usize))
    }
}

/// Counted traversal state, shared by sequences, maps, structs and tuples:
/// the number of elements still to be decoded. Structs and tuples start it
/// from their field count, sequences and maps from the count on the wire.
pub struct LengthAccessor {
    remain_items: usize,
}

impl LengthAccessor {
    /// Number of elements still to be decoded.
    pub closed spec fn remaining(&self) -> nat {
        self.remain_items as nat
    }

    /// Traversal state for `count` elements.
    pub fn new(count: usize) -> (r: Self)
        ensures
            r.remaining() == count,
    {
        LengthAccessor { remain_items: count }
    }

    /// Whether another element is to be decoded; if so, counts it off.
    pub fn next_element(&mut self) -> (r: bool)
        ensures
            r <==> old(self).remaining() > 0,
            r ==> final(self).remaining() == old(self).remaining() - 1,
            !r ==> final(self).remaining() == 0,
    {
        if self.remain_items == 0 {
            false
        } else {
            self.remain_items = self.remain_items - 1;
            true
        }
    }

    /// Number of elements still to be decoded.
    pub fn size_hint(&self) -> (r: usize)
        ensures
            r == self.remaining(),
    {
        self.remain_items
    }
}

} // verus!
