//! A byte array of statically known length that travels as fixed-length
//! opaque data.
use vstd::prelude::*;

use crate::de::XDRDeserializer;
use crate::error::{Error, Result};
use crate::fixed_length_bytes;
use crate::ser::XDRSerializer;
use crate::wire::{fixed_wire, word_count};

verus! {

/// `N` bytes encoded as fixed-length opaque data.
#[derive(Debug, Clone, PartialEq, Eq)]
pub struct FixedLengthBytes<const N: usize> {
    bytes: [u8; N],
}

impl<const N: usize> View for FixedLengthBytes<N> {
    type V = Seq<u8>;

    closed spec fn view(&self) -> Seq<u8> {
        self.bytes@
    }
}

impl<const N: usize> FixedLengthBytes<N> {
    /// Wraps `bytes`.
    pub fn new(bytes: [u8; N]) -> (r: Self)
        ensures
            r@ == bytes@,
    {
        Self { bytes }
    }

    /// Unwraps the bytes.
    pub fn into_inner(self) -> (r: [u8; N])
        ensures
            r@ == self@,
    {
        self.bytes
    }

    /// The wrapped bytes.
    pub fn as_bytes(&self) -> (r: &[u8; N])
        ensures
            r@ == self@,
    {
        &self.bytes
    }

    /// Appends the bytes as fixed-length opaque data.
    pub fn serialize(&self, serializer: &mut XDRSerializer)
        ensures
            final(serializer)@ == old(serializer)@ + fixed_wire(self@),
    {
        fixed_length_bytes::serialize(&self.bytes, serializer)
    }

    /// Consumes fixed-length opaque data of `N` bytes.
    pub fn deserialize(deserializer: &mut XDRDeserializer) -> (r: Result<Self>)
        ensures
            r is Ok <==> old(deserializer)@.len() >= 4 * word_count(N as nat),
            r is Ok ==> r->Ok_0@ == old(deserializer)@.take(N as int) && final(deserializer)@
                == old(deserializer)@.skip((4 * word_count(N as nat)) as int),
            r is Err ==> r->Err_0 == Error::EndOfFile,
            final(deserializer).start_len() == old(deserializer).start_len(),
    {
        let bytes = fixed_length_bytes::deserialize::<N>(deserializer)?;
        Ok(Self { bytes })
    }
}

} // verus!
