use xdr_codec::{XDRDeserializer, XDRSerializer};

#[test]
fn primitives_round_trip_in_sequence() {
    let mut ser = XDRSerializer::new();
    ser.serialize_u8(200);
    ser.serialize_u16(65535);
    ser.serialize_u32(u32::MAX);
    ser.serialize_u64(u64::MAX);
    ser.serialize_i8(i8::MIN);
    ser.serialize_i16(i16::MIN);
    ser.serialize_i32(i32::MIN);
    ser.serialize_i64(i64::MIN);
    ser.serialize_bool(true);
    ser.serialize_char('é');
    ser.serialize_str("héllo wörld").unwrap();
    ser.serialize_bytes(&[0, 1, 2, 3, 4, 5, 6]).unwrap();
    ser.serialize_u64(1.25f64.to_bits());
    let bytes = ser.into_bytes();
    assert_eq!(bytes.len() % 4, 0);

    let mut de = XDRDeserializer::from_bytes(&bytes);
    assert_eq!(de.parse_u8(), Ok(200));
    assert_eq!(de.parse_u16(), Ok(65535));
    assert_eq!(de.parse_u32(), Ok(u32::MAX));
    assert_eq!(de.parse_u64(), Ok(u64::MAX));
    assert_eq!(de.parse_i8(), Ok(i8::MIN));
    assert_eq!(de.parse_i16(), Ok(i16::MIN));
    assert_eq!(de.parse_i32(), Ok(i32::MIN));
    assert_eq!(de.parse_i64(), Ok(i64::MIN));
    assert_eq!(de.parse_bool(), Ok(true));
    assert_eq!(de.parse_char(), Ok('é'));
    assert_eq!(de.parse_str(), Ok("héllo wörld"));
    assert_eq!(de.parse_bytes(), Ok(vec![0, 1, 2, 3, 4, 5, 6]));
    assert_eq!(f64::from_bits(de.parse_u64().unwrap()), 1.25);
    assert_eq!(de.consumed(), bytes.len());
    de.finish().unwrap();
}

#[test]
fn optional_values_round_trip() {
    let values: [Option<i32>; 3] = [None, Some(-7), Some(0)];
    let mut ser = XDRSerializer::new();
    for v in values {
        match v {
            None => ser.serialize_none(),
            Some(x) => {
                ser.serialize_some();
                ser.serialize_i32(x);
            }
        }
    }
    let bytes = ser.into_bytes();
    assert_eq!(bytes.len(), 4 + 8 + 8);
    let mut de = XDRDeserializer::from_bytes(&bytes);
    let mut back: Vec<Option<i32>> = Vec::new();
    for _ in 0..3 {
        if de.parse_bool().unwrap() {
            back.push(Some(de.parse_i32().unwrap()));
        } else {
            back.push(None);
        }
    }
    de.finish().unwrap();
    assert_eq!(back, values.to_vec());
}

#[test]
fn empty_string_and_bytes_round_trip() {
    let mut ser = XDRSerializer::new();
    ser.serialize_str("").unwrap();
    ser.serialize_bytes(&[]).unwrap();
    let bytes = ser.into_bytes();
    assert_eq!(bytes, vec![0; 8]);
    let mut de = XDRDeserializer::from_bytes(&bytes);
    assert_eq!(de.parse_string(), Ok(String::new()));
    assert_eq!(de.parse_bytes(), Ok(vec![]));
    de.finish().unwrap();
}
