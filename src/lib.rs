//! A codec for the External Data Representation (XDR, RFC 4506) wire format.
//!
//! The encoder and decoder engines work one value shape at a time: each call
//! appends (or consumes) exactly the canonical XDR bytes of one primitive,
//! one length prefix, one discriminator or one opaque payload.  A traversal
//! over typed values drives these calls in declaration order.
use vstd::prelude::*;

pub mod canonical;
pub mod de;
pub mod error;
pub mod fixed_length_bytes;
pub mod laws;
pub mod opaque;
pub mod ser;
pub mod wire;

pub use de::{LengthAccessor, XDRDeserializer};
pub use error::{Error, Result};
pub use opaque::FixedLengthBytes;
pub use ser::{MapSerializer, XDRSerializer};

verus! {

/// Byte length of the wire form of a 32-bit quantity.
pub const U32_SIZE: usize = 4;

/// Byte length of the wire form of a 64-bit quantity.
pub const U64_SIZE: usize = 8;

/// Number of zero bytes that follow an opaque payload of `len` bytes.
pub fn padding_len(len: usize) -> (r: usize)
    ensures
        r == wire::pad_len(len as nat),
        r < 4,
        (len + r) % 4 == 0,
{
    (4 - (len % 4)) % 4
}

} // verus!
