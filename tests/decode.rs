use std::collections::HashMap;

use xdr_codec::{Error, LengthAccessor, XDRDeserializer};

#[test]
fn test_deserialize_void_struct() {
    let data: &[u8] = &[];
    let mut de = XDRDeserializer::from_bytes(data);
    let mut fields = LengthAccessor::new(0);
    assert!(!fields.next_element());
    assert_eq!(de.consumed(), 0);
    de.finish().unwrap();
    // the decoder is still usable and still empty
    assert_eq!(de.parse_u32(), Err(Error::EndOfFile));
}

#[test]
fn test_deserialize_u8() {
    let data: &[u8] = &[0, 0, 0, 42];
    let mut de = XDRDeserializer::from_bytes(data);
    let v: u8 = de.parse_u8().unwrap();
    de.finish().unwrap();
    assert_eq!(v, 42);
}

#[test]
fn test_deserialize_u16() {
    let data: &[u8] = &[0, 0, 1, 1];
    let mut de = XDRDeserializer::from_bytes(data);
    let v: u16 = de.parse_u16().unwrap();
    de.finish().unwrap();
    assert_eq!(v, 257);
}

#[test]
fn test_deserialize_u32() {
    let data: &[u8] = &[1, 2, 3, 4];
    let mut de = XDRDeserializer::from_bytes(data);
    let v: u32 = de.parse_u32().unwrap();
    de.finish().unwrap();
    assert_eq!(v, 16909060);
}

#[test]
fn test_deserialize_simple_vec() {
    let data: &[u8] = &[0, 0, 0, 1, 0, 0, 0, 1];
    let mut de = XDRDeserializer::from_bytes(data);
    let mut elements = de.parse_seq().unwrap();
    let mut v: Vec<u8> = Vec::new();
    while elements.next_element() {
        v.push(de.parse_u8().unwrap());
    }
    de.finish().unwrap();
    assert_eq!(v, vec![1]);
}

#[test]
fn test_deserialize_simple_struct() {
    let data: &[u8] = &[
        0, 0, 0, 42, // u16
        0, 0, 0, 5, // string_len
        b'h', b'e', b'l', b'l', b'o', 0, 0, 0, // string with padding
        63, 0, 0, 0,
    ];
    let mut de = XDRDeserializer::from_bytes(data);
    let mut fields = LengthAccessor::new(3);
    assert!(fields.next_element());
    let a = de.parse_u16().unwrap();
    assert!(fields.next_element());
    let b = de.parse_string().unwrap();
    assert!(fields.next_element());
    let c = f32::from_bits(de.parse_u32().unwrap());
    assert!(!fields.next_element());
    de.finish().unwrap();
    assert_eq!((a, b, c), (42, "hello".to_owned(), 0.5));
}

#[test]
fn test_deserialize_nested_struct() {
    let data: &[u8] = &[
        0, 0, 0, 42, // u16, (42), big-endian
        0, 0, 0, 5, // string_len, (5), big-endian
        b'h', b'e', b'l', b'l', b'o', 0, 0, 0, // string with padding, ("hello")
        63, 0, 0, 0, // f32, (0.5), big-endian
        255, 255, 255, 255, // i8, (-1)
    ];
    let mut de = XDRDeserializer::from_bytes(data);
    let a = de.parse_u16().unwrap();
    let b = de.parse_string().unwrap();
    let c = f32::from_bits(de.parse_u32().unwrap());
    let d = de.parse_i8().unwrap();
    de.finish().unwrap();
    assert_eq!((a, b, (c, (d,))), (42, "hello".to_owned(), (0.5, (-1,))));
}

#[test]
fn test_deserialize_simple_enum() {
    let data: &[u8] = &[
        0, 0, 0, 2, // TWO
    ];
    let mut de = XDRDeserializer::from_bytes(data);
    let e = de.parse_variant_index().unwrap();
    de.finish().unwrap();
    assert_eq!(e, 2);
}

#[test]
fn test_deserialize_bytes() {
    let data: &[u8] = &[0, 0, 0, 3, 1, 2, 3, 0];
    let mut de = XDRDeserializer::from_bytes(data);
    let bytes = de.parse_bytes().unwrap();
    de.finish().unwrap();
    assert_eq!(bytes, vec![1, 2, 3]);
}

#[test]
fn test_deserialize_map() {
    let map_bytes = vec![
        0, 0, 0, 2, // len (u32)
        0, 0, 0, 0, 0, 0, 0, 1, // key 1 (u64)
        0, 0, 0, 2, // value 1 (u16)
        0, 0, 0, 0, 0, 0, 0, 3, // key 2 (u64)
        0, 0, 0, 4, // value 2 (u16)
    ];
    let mut de = XDRDeserializer::from_bytes(&map_bytes);
    let mut entries = de.parse_seq().unwrap();
    let mut map: HashMap<u64, u16> = HashMap::new();
    while entries.next_element() {
        let k = de.parse_u64().unwrap();
        let v = de.parse_u16().unwrap();
        map.insert(k, v);
    }
    de.finish().unwrap();
    let expected_map = HashMap::from([(1, 2), (3, 4)]);
    assert_eq!(map, expected_map);
}

#[test]
fn test_deserialize_len() {
    let data: &[u8] = &[
        0, 0, 0, 3, // real data
        1, 2, 3, 4, // remaining data
    ];
    let mut de = XDRDeserializer::from_bytes(data);
    let _ = de.parse_u32();
    let len = de.consumed();
    assert_eq!(len, 4);

    let data: &[u8] = &[
        0, 0, 0, 5, // len (u32)
        b'h', b'e', b'l', b'l', b'o', 0, 0, 0, // padding to align 4-byte boundary
        0, 0, 0, 42, // (u32)
    ];
    let mut de = XDRDeserializer::from_bytes(data);
    let s = de.parse_str().unwrap();
    let i = de.parse_i32().unwrap();
    assert_eq!((s, i), ("hello", 42));
    let len = de.consumed();
    assert_eq!(len, 16);
}

#[test]
fn probe_counts_bytes_consumed_before_a_failure() {
    // a string followed by a truncated i32: the probe still reports what was read
    let data: &[u8] = &[0, 0, 0, 5, 104, 101, 108, 108, 111, 0, 0, 0, 0, 0];
    let mut de = XDRDeserializer::from_bytes(data);
    let _ = de.parse_str();
    assert_eq!(de.parse_i32(), Err(Error::EndOfFile));
    assert_eq!(de.consumed(), 12);
    assert_eq!(de.input(), &[0u8, 0][..]);
}

#[test]
fn probe_length_of_string_and_i32_with_trailing_content() {
    let data: &[u8] = &[0, 0, 0, 5, 0x68, 0x65, 0x6C, 0x6C, 0x6F, 0, 0, 0, 0, 0, 0, 0x2A, 9, 9];
    let mut de = XDRDeserializer::from_bytes(data);
    let _ = de.parse_str();
    let _ = de.parse_i32();
    assert_eq!(de.consumed(), 16);
    assert_eq!(de.finish(), Err(Error::TrailingBytes));
}

#[test]
fn bool_discriminator_two_is_rejected() {
    let data: &[u8] = &[0, 0, 0, 2];
    let mut de = XDRDeserializer::from_bytes(data);
    assert_eq!(
        de.parse_bool(),
        Err(Error::Message("Option type descriminator should be 1 or 0 not 2".to_owned()))
    );
    let data: &[u8] = &[0, 1, 0xE2, 0x40];
    let mut de = XDRDeserializer::from_bytes(data);
    assert_eq!(
        de.parse_bool(),
        Err(Error::Message("Option type descriminator should be 1 or 0 not 123456".to_owned()))
    );
}

#[test]
fn bool_values_zero_and_one() {
    let data: &[u8] = &[0, 0, 0, 0, 0, 0, 0, 1];
    let mut de = XDRDeserializer::from_bytes(data);
    assert_eq!(de.parse_bool(), Ok(false));
    assert_eq!(de.parse_bool(), Ok(true));
    de.finish().unwrap();
}

#[test]
fn string_with_nonzero_padding_is_rejected() {
    let data: &[u8] = &[0, 0, 0, 5, 104, 101, 108, 108, 111, 0, 1, 0];
    let mut de = XDRDeserializer::from_bytes(data);
    assert_eq!(de.parse_str(), Err(Error::NonZeroPadding));
    let mut de = XDRDeserializer::from_bytes(data);
    assert_eq!(de.parse_string(), Err(Error::NonZeroPadding));
    let mut de = XDRDeserializer::from_bytes(data);
    assert_eq!(de.parse_bytes(), Err(Error::NonZeroPadding));
}

#[test]
fn trailing_bytes_are_rejected() {
    let data: &[u8] = &[0, 0, 0, 7, 0];
    let mut de = XDRDeserializer::from_bytes(data);
    assert_eq!(de.parse_u32(), Ok(7));
    assert_eq!(de.finish(), Err(Error::TrailingBytes));
}

#[test]
fn short_input_fails_end_of_input() {
    let data: &[u8] = &[0, 0, 1];
    assert_eq!(XDRDeserializer::from_bytes(data).parse_u32(), Err(Error::EndOfFile));
    assert_eq!(XDRDeserializer::from_bytes(data).parse_i32(), Err(Error::EndOfFile));
    assert_eq!(XDRDeserializer::from_bytes(data).parse_bool(), Err(Error::EndOfFile));
    assert_eq!(XDRDeserializer::from_bytes(data).parse_u8(), Err(Error::EndOfFile));
    assert_eq!(XDRDeserializer::from_bytes(data).parse_char(), Err(Error::EndOfFile));
    let data: &[u8] = &[0, 0, 0, 0, 0, 0, 1];
    assert_eq!(XDRDeserializer::from_bytes(data).parse_u64(), Err(Error::EndOfFile));
    assert_eq!(XDRDeserializer::from_bytes(data).parse_i64(), Err(Error::EndOfFile));
    // a length that announces more than is there
    let data: &[u8] = &[0, 0, 0, 5, 104, 101, 108, 108, 111, 0, 0];
    assert_eq!(XDRDeserializer::from_bytes(data).parse_bytes(), Err(Error::EndOfFile));
    assert_eq!(XDRDeserializer::from_bytes(data).parse_str(), Err(Error::EndOfFile));
}

#[test]
fn invalid_utf8_is_rejected() {
    let data: &[u8] = &[0, 0, 0, 2, 0xC3, 0x28, 0, 0];
    let mut de = XDRDeserializer::from_bytes(data);
    assert!(matches!(de.parse_str(), Err(Error::Utf8Error(_))));
}

#[test]
fn narrowing_out_of_range_is_rejected() {
    let data: &[u8] = &[0, 0, 1, 0];
    assert_eq!(
        XDRDeserializer::from_bytes(data).parse_u8(),
        Err(Error::Message("TryFromIntError(())".to_owned()))
    );
    assert_eq!(XDRDeserializer::from_bytes(data).parse_u16(), Ok(256));
    let data: &[u8] = &[0, 1, 0, 0];
    assert!(matches!(XDRDeserializer::from_bytes(data).parse_u16(), Err(Error::Message(_))));
    let data: &[u8] = &[255, 255, 255, 127];
    assert!(matches!(XDRDeserializer::from_bytes(data).parse_i8(), Err(Error::Message(_))));
    assert_eq!(XDRDeserializer::from_bytes(data).parse_i16(), Ok(-129));
    let data: &[u8] = &[255, 255, 127, 255];
    assert!(matches!(XDRDeserializer::from_bytes(data).parse_i16(), Err(Error::Message(_))));
}

#[test]
fn char_code_points() {
    let data: &[u8] = &[0, 0, 0, 0x41, 0, 1, 0xF6, 0x00, 0, 0, 0xD8, 0];
    let mut de = XDRDeserializer::from_bytes(data);
    assert_eq!(de.parse_char(), Ok('A'));
    assert_eq!(de.parse_char(), Ok('\u{1F600}'));
    assert_eq!(de.parse_char(), Err(Error::Message("CharTryFromError(())".to_owned())));
}

#[test]
fn signed_and_wide_integers() {
    let data: &[u8] = &[
        255, 255, 255, 254, // -2
        0x80, 0, 0, 0, 0, 0, 0, 0, // i64::MIN
        1, 2, 3, 4, 5, 6, 7, 8, // u64
    ];
    let mut de = XDRDeserializer::from_bytes(data);
    assert_eq!(de.parse_i32(), Ok(-2));
    assert_eq!(de.parse_i64(), Ok(i64::MIN));
    assert_eq!(de.parse_u64(), Ok(0x0102030405060708));
    de.finish().unwrap();
}

#[test]
fn counted_traversal_stops_at_zero() {
    let mut counter = LengthAccessor::new(2);
    assert_eq!(counter.size_hint(), 2);
    assert!(counter.next_element());
    assert!(counter.next_element());
    assert!(!counter.next_element());
    assert!(!counter.next_element());
    assert_eq!(counter.size_hint(), 0);
}

#[test]
fn error_messages() {
    assert_eq!(Error::EndOfFile.to_message(), "unexpected end of input");
    assert_eq!(Error::NonZeroPadding.to_message(), "padding data is not zero");
    assert_eq!(Error::TrailingBytes.to_message(), "not all input bytes are comsumed");
    assert_eq!(
        Error::SequenceWithoutLength.to_message(),
        "failed to serialise sequence with no length"
    );
    assert_eq!(Error::Message("bad".to_owned()).to_message(), "bad");
    let data: &[u8] = &[0, 0, 0, 1, 0xFF, 0, 0, 0];
    match XDRDeserializer::from_bytes(data).parse_str() {
        Err(e @ Error::Utf8Error(_)) => assert!(!e.to_message().is_empty()),
        other => panic!("unexpected {:?}", other),
    }
}
