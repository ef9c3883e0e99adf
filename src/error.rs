use vstd::prelude::*;

verus! {

/// The ways in which encoding or decoding can fail.
#[derive(Debug, PartialEq, Eq)]
pub enum Error {
    /// A format mismatch: a bad discriminator, an integer out of the target
    /// range, an invalid character, a payload too long for a length prefix.
    Message(String),
    /// The input ended before a required field.
    EndOfFile,
    /// A sequence or map was written without a known element count.
    SequenceWithoutLength,
    /// A top-level decode left input unconsumed.
    TrailingBytes,
    /// A string payload is not valid UTF-8; holds the validator's diagnostic.
    Utf8Error(String),
    /// The padding after an opaque or string payload is not all zero.
    NonZeroPadding,
}

pub type Result<T> = core::result::Result<T, Error>;

impl Error {
    /// The text that describes this error.
    pub fn to_message(&self) -> (r: String)
        ensures
            self is Message ==> r@ == self->Message_0@,
            self is Utf8Error ==> r@ == self->Utf8Error_0@,
            self is EndOfFile ==> r@ == "unexpected end of input"@,
            self is SequenceWithoutLength ==> r@ == "failed to serialise sequence with no length"@,
            self is TrailingBytes ==> r@ == "not all input bytes are comsumed"@,
            self is NonZeroPadding ==> r@ == "padding data is not zero"@,
    {
        match self {
            Error::Message(msg) => msg.clone(),
            Error::EndOfFile => String::from_str("unexpected end of input"),
            Error::SequenceWithoutLength => String::from_str(
                "failed to serialise sequence with no length",
            ),
            Error::TrailingBytes => String::from_str("not all input bytes are comsumed"),
            Error::Utf8Error(msg) => msg.clone(),
            Error::NonZeroPadding => String::from_str("padding data is not zero"),
        }
    }

    /// A format-mismatch error with the given text.
    pub fn message(text: &str) -> (r: Error)
        ensures
            r is Message && r->Message_0@ == text@,
    {
        Error::Message(text.to_owned())
    }
}

/// The character of the decimal digit `d`.
pub open spec fn digit_char(d: nat) -> char {
    if d == 0 {
        '0'
    } else if d == 1 {
        '1'
    } else if d == 2 {
        '2'
    } else if d == 3 {
        '3'
    } else if d == 4 {
        '4'
    } else if d == 5 {
        '5'
    } else if d == 6 {
        '6'
    } else if d == 7 {
        '7'
    } else if d == 8 {
        '8'
    } else {
        '9'
    }
}

/// The decimal digits of `n`, most significant first, without leading
/// zeros.
pub open spec fn decimal(n: nat) -> Seq<char>
    decreases n,
{
    if n < 10 {
        seq![digit_char(n)]
    } else {
        decimal(n / 10).push(digit_char(n % 10))
    }
}

/// The one-character string of the decimal digit `d`.
fn digit_str(d: u32) -> (r: &'static str)
    requires
        d < 10,
    ensures
        r@ == seq![digit_char(d as nat)],
{
    if d == 0 {
        proof {
            reveal_strlit("0");
        }
        "0"
    } else if d == 1 {
        proof {
            reveal_strlit("1");
        }
        "1"
    } else if d == 2 {
        proof {
            reveal_strlit("2");
        }
        "2"
    } else if d == 3 {
        proof {
            reveal_strlit("3");
        }
        "3"
    } else if d == 4 {
        proof {
            reveal_strlit("4");
        }
        "4"
    } else if d == 5 {
        proof {
            reveal_strlit("5");
        }
        "5"
    } else if d == 6 {
        proof {
            reveal_strlit("6");
        }
        "6"
    } else if d == 7 {
        proof {
            reveal_strlit("7");
        }
        "7"
    } else if d == 8 {
        proof {
            reveal_strlit("8");
        }
        "8"
    } else {
        proof {
            reveal_strlit("9");
        }
        "9"
    }
}

/// Appends the decimal digits of `v` to `s`.
pub fn append_decimal(s: &mut String, v: u32)
    ensures
        final(s)@ == old(s)@ + decimal(v as nat),
    decreases v,
{
    if v >= 10 {
        append_decimal(s, v / 10);
    }
    s.append(digit_str(v % 10));
    assert(s@ =~= old(s)@ + decimal(v as nat));
}

} // verus!
