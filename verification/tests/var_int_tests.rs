use mc_protocol::data_types::{MCDecode, MCEncode};
use mc_protocol::var_int::{decode_varint, encode_varint, VarInt, VarIntParseError};

const SAMPLES: [usize; 14] = [
    0,
    1,
    127,
    128,
    255,
    300,
    16_383,
    16_384,
    2_097_151,
    2_097_152,
    268_435_455,
    268_435_456,
    4_294_967_295,
    34_359_738_367,
];

#[test]
fn varint_round_trip_on_samples() {
    for v in SAMPLES {
        let bytes = encode_varint(v);
        assert_eq!(decode_varint(&bytes), Ok((v, bytes.len())), "value {v}");
    }
}

#[test]
fn varint_round_trip_ignores_what_follows() {
    for v in SAMPLES {
        let mut bytes = encode_varint(v);
        let len = bytes.len();
        bytes.extend_from_slice(&[0xFF, 0x00, 0x80]);
        assert_eq!(decode_varint(&bytes), Ok((v, len)), "value {v}");
    }
}

#[test]
fn varint_encoding_is_minimal() {
    let expected_len = [1, 1, 1, 2, 2, 2, 2, 3, 3, 4, 4, 5, 5, 5];
    for (v, len) in SAMPLES.iter().zip(expected_len) {
        let bytes = encode_varint(*v);
        assert_eq!(bytes.len(), len, "value {v}");
        assert_eq!(bytes.last().unwrap() & 0x80, 0, "value {v}");
        for byte in &bytes[..bytes.len() - 1] {
            assert_eq!(byte & 0x80, 0x80, "value {v}");
        }
    }
}

#[test]
fn varint_exact_encodings() {
    assert_eq!(encode_varint(0), vec![0x00]);
    assert_eq!(encode_varint(127), vec![0x7F]);
    assert_eq!(encode_varint(128), vec![0x80, 0x01]);
    assert_eq!(encode_varint(300), vec![0xAC, 0x02]);
    assert_eq!(encode_varint(25_565), vec![0xDD, 0xC7, 0x01]);
    assert_eq!(encode_varint(2_147_483_647), vec![0xFF, 0xFF, 0xFF, 0xFF, 0x07]);
    assert_eq!(encode_varint(34_359_738_367), vec![0xFF, 0xFF, 0xFF, 0xFF, 0x7F]);
}

#[test]
fn varint_five_continuation_bytes_are_malformed() {
    assert_eq!(
        decode_varint(&[0x80, 0x80, 0x80, 0x80, 0x80]),
        Err(VarIntParseError::WrongSize)
    );
    assert_eq!(
        decode_varint(&[0x80, 0x80, 0x80, 0x80, 0x80, 0x00]),
        Err(VarIntParseError::WrongSize)
    );
    assert_eq!(
        decode_varint(&[0xFF, 0xFF, 0xFF, 0xFF, 0xFF, 0x01]),
        Err(VarIntParseError::WrongSize)
    );
}

#[test]
fn varint_short_input_is_truncated() {
    assert_eq!(decode_varint(&[]), Err(VarIntParseError::NonTerminated));
    assert_eq!(decode_varint(&[0x80]), Err(VarIntParseError::NonTerminated));
    assert_eq!(
        decode_varint(&[0x80, 0x80, 0x80, 0x80]),
        Err(VarIntParseError::NonTerminated)
    );
}

#[test]
fn varint_decode_stops_at_first_terminating_byte() {
    assert_eq!(decode_varint(&[0x2C, 0xFF, 0xFF]), Ok((44, 1)));
    assert_eq!(decode_varint(&[0x9C, 0x2B, 0x01]), Ok((5532, 2)));
}

#[test]
fn varint_decode_accepts_padded_encodings() {
    assert_eq!(decode_varint(&[0x80, 0x00]), Ok((0, 2)));
    assert_eq!(decode_varint(&[0x81, 0x80, 0x80, 0x80, 0x00]), Ok((1, 5)));
}

#[test]
fn var_int_new_refuses_what_needs_six_bytes() {
    assert!(VarInt::new(34_359_738_367).is_ok());
    assert!(VarInt::new(34_359_738_368).is_err());
    assert!(VarInt::new(usize::MAX).is_err());
    assert_eq!(encode_varint(34_359_738_368).len(), 6);
}

#[test]
fn var_int_bytes_counts_wire_bytes() {
    assert_eq!(VarInt::new(0).unwrap().bytes(), 1);
    assert_eq!(VarInt::new(128).unwrap().bytes(), 2);
    assert_eq!(VarInt::new(34_359_738_367).unwrap().bytes(), 5);
}

#[test]
fn var_int_value_and_conversions() {
    let v = VarInt::new(769).unwrap();
    assert_eq!(v.value(), 769);
    assert_eq!(v.to_usize(), Ok(769));
    assert_eq!(v.to_isize(), Ok(769));
    assert_eq!(usize::try_from(v.clone()), Ok(769));
    assert_eq!(isize::try_from(v), Ok(769));
}

#[test]
fn var_int_read_reports_errors() {
    assert_eq!(VarInt::read(&[0x80; 5]).unwrap_err(), VarIntParseError::WrongSize);
    assert_eq!(VarInt::read(&[0x80; 2]).unwrap_err(), VarIntParseError::NonTerminated);
    let (v, used) = VarInt::read(&[0xAC, 0x02, 0x55]).unwrap();
    assert_eq!(used, 2);
    assert_eq!(v.value(), 300);
}

#[test]
fn var_int_field_keeps_the_bytes_it_was_read_from() {
    let (v, used) = VarInt::from_mc_bytes(&[0x80, 0x00, 0x07]).unwrap();
    assert_eq!(used, 2);
    assert_eq!(v.value(), 0);
    assert_eq!(v.clone(), v);
    assert_ne!(v, VarInt::new(0).unwrap());
    assert_eq!(v.into_mc_data(), vec![0x80, 0x00]);
    assert!(VarInt::from_mc_bytes(&[0x80; 5]).is_none());
    assert!(VarInt::from_mc_bytes(&[]).is_none());
}
