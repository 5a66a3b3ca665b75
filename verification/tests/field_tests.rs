use mc_protocol::data_types::{MCDecode, MCEncode, PrefixedArray, PrefixedOptional, Property};
use mc_protocol::numeric::decode_u16_bytes;

#[test]
fn unsigned_integers_are_big_endian() {
    assert_eq!(0x12u8.into_mc_data(), vec![0x12]);
    assert_eq!(0x1234u16.into_mc_data(), vec![0x12, 0x34]);
    assert_eq!(0x1234_5678u32.into_mc_data(), vec![0x12, 0x34, 0x56, 0x78]);
    assert_eq!(
        0x0102_0304_0506_0708u64.into_mc_data(),
        vec![1, 2, 3, 4, 5, 6, 7, 8]
    );
    assert_eq!(
        0x0102_0304_0506_0708_090A_0B0C_0D0E_0F10u128.into_mc_data(),
        vec![1, 2, 3, 4, 5, 6, 7, 8, 9, 10, 11, 12, 13, 14, 15, 16]
    );
    assert_eq!(25_565u16.into_mc_data(), 25_565u16.to_be_bytes().to_vec());
    assert_eq!(u128::MAX.into_mc_data(), vec![0xFF; 16]);
}

#[test]
fn signed_integers_are_twos_complement() {
    assert_eq!((-1i8).into_mc_data(), vec![0xFF]);
    assert_eq!(i8::MIN.into_mc_data(), vec![0x80]);
    assert_eq!((-2i16).into_mc_data(), vec![0xFF, 0xFE]);
    assert_eq!((-2i32).into_mc_data(), vec![0xFF, 0xFF, 0xFF, 0xFE]);
    assert_eq!(i32::MIN.into_mc_data(), i32::MIN.to_be_bytes().to_vec());
    assert_eq!((-3i64).into_mc_data(), (-3i64).to_be_bytes().to_vec());
    assert_eq!(i64::MAX.into_mc_data(), i64::MAX.to_be_bytes().to_vec());
    assert_eq!(i128::MIN.into_mc_data(), i128::MIN.to_be_bytes().to_vec());
    assert_eq!((-1i128).into_mc_data(), vec![0xFF; 16]);
    assert_eq!(77i128.into_mc_data(), 77i128.to_be_bytes().to_vec());
}

#[test]
fn machine_words_take_their_own_width() {
    assert_eq!(258usize.into_mc_data(), 258usize.to_be_bytes().to_vec());
    assert_eq!((-258isize).into_mc_data(), (-258isize).to_be_bytes().to_vec());
    assert_eq!(isize::MIN.into_mc_data(), isize::MIN.to_be_bytes().to_vec());
    let width = std::mem::size_of::<usize>();
    assert_eq!(
        usize::from_mc_bytes(&usize::MAX.to_be_bytes()),
        Some((usize::MAX, width))
    );
    assert_eq!(
        isize::from_mc_bytes(&(-5isize).to_be_bytes()),
        Some((-5, width))
    );
    assert_eq!(usize::from_mc_bytes(&[0, 0, 0]), None);
}

#[test]
fn integers_decode_what_they_encode() {
    assert_eq!(u8::from_mc_bytes(&[0xAB, 1]), Some((0xAB, 1)));
    assert_eq!(i8::from_mc_bytes(&[0xFF]), Some((-1, 1)));
    assert_eq!(u16::from_mc_bytes(&[0x63, 0xDD, 9]), Some((25_565, 2)));
    assert_eq!(i16::from_mc_bytes(&[0x80, 0x00]), Some((i16::MIN, 2)));
    assert_eq!(u32::from_mc_bytes(&[0, 0, 1, 0]), Some((256, 4)));
    assert_eq!(i32::from_mc_bytes(&[0xFF, 0xFF, 0xFF, 0xFE]), Some((-2, 4)));
    assert_eq!(
        u64::from_mc_bytes(&u64::MAX.into_mc_data()),
        Some((u64::MAX, 8))
    );
    assert_eq!(
        i64::from_mc_bytes(&i64::MIN.into_mc_data()),
        Some((i64::MIN, 8))
    );
    assert_eq!(
        u128::from_mc_bytes(&12_345_678_901_234_567_890u128.into_mc_data()),
        Some((12_345_678_901_234_567_890, 16))
    );
    assert_eq!(
        i128::from_mc_bytes(&i128::MIN.into_mc_data()),
        Some((i128::MIN, 16))
    );
    assert_eq!(
        i128::from_mc_bytes(&(-9i128).into_mc_data()),
        Some((-9, 16))
    );
}

#[test]
fn integers_need_their_whole_width() {
    assert_eq!(u8::from_mc_bytes(&[]), None);
    assert_eq!(u16::from_mc_bytes(&[1]), None);
    assert_eq!(i32::from_mc_bytes(&[1, 2, 3]), None);
    assert_eq!(i64::from_mc_bytes(&[0; 7]), None);
    assert_eq!(u128::from_mc_bytes(&[0; 15]), None);
}

#[test]
fn two_bytes_make_a_port() {
    assert_eq!(decode_u16_bytes((0x63, 0xDD)), 25_565);
    assert_eq!(decode_u16_bytes((0, 0)), 0);
    assert_eq!(decode_u16_bytes((0xFF, 0xFF)), u16::MAX);
    assert_eq!(decode_u16_bytes((1, 0)), 256);
}

#[test]
fn bool_is_one_byte() {
    assert_eq!(true.into_mc_data(), vec![1]);
    assert_eq!(false.into_mc_data(), vec![0]);
    assert_eq!(bool::from_mc_bytes(&[1, 7]), Some((true, 1)));
    assert_eq!(bool::from_mc_bytes(&[0]), Some((false, 1)));
    assert_eq!(bool::from_mc_bytes(&[2]), Some((false, 1)));
    assert_eq!(bool::from_mc_bytes(&[]), None);
}

#[test]
fn string_is_length_prefixed_utf8() {
    assert_eq!("abc".to_string().into_mc_data(), vec![3, b'a', b'b', b'c']);
    assert_eq!(String::new().into_mc_data(), vec![0]);
    assert_eq!(
        "h\u{e9}".to_string().into_mc_data(),
        vec![3, b'h', 0xC3, 0xA9]
    );
    let long = "x".repeat(200);
    let bytes = long.clone().into_mc_data();
    assert_eq!(&bytes[..2], &[0xC8, 0x01]);
    assert_eq!(bytes.len(), 202);
    assert_eq!(String::from_mc_bytes(&bytes), Some((long, 202)));
}

#[test]
fn string_decode_checks_length_and_utf8() {
    assert_eq!(
        String::from_mc_bytes(&[3, b'a', b'b', b'c', b'd']),
        Some(("abc".to_string(), 4))
    );
    assert_eq!(String::from_mc_bytes(&[0]), Some((String::new(), 1)));
    assert_eq!(String::from_mc_bytes(&[3, b'a', b'b']), None);
    assert_eq!(String::from_mc_bytes(&[]), None);
    assert_eq!(String::from_mc_bytes(&[0x80]), None);
    assert_eq!(String::from_mc_bytes(&[2, 0xC3, 0x28]), None);
    assert_eq!(String::from_mc_bytes(&[1, 0xFF]), None);
    assert_eq!(
        String::from_mc_bytes(&[3, 0xE2, 0x82, 0xAC]),
        Some(("\u{20ac}".to_string(), 4))
    );
}

#[test]
fn prefixed_array_counts_its_items() {
    let array = PrefixedArray::new(vec![1i8, -1, 0]);
    assert_eq!(array.clone().into_mc_data(), vec![3, 1, 0xFF, 0]);
    assert_eq!(
        PrefixedArray::<i8>::from_mc_bytes(&[3, 1, 0xFF, 0, 9]),
        Some((array, 4))
    );
    let empty: PrefixedArray<i8> = PrefixedArray::new(Vec::new());
    assert_eq!(empty.clone().into_mc_data(), vec![0]);
    assert_eq!(PrefixedArray::<i8>::from_mc_bytes(&[0]), Some((empty, 1)));
}

#[test]
fn prefixed_array_of_wide_items() {
    let array = PrefixedArray::new(vec![0x0102u16, 0x0304]);
    let bytes = array.clone().into_mc_data();
    assert_eq!(bytes, vec![2, 1, 2, 3, 4]);
    assert_eq!(PrefixedArray::<u16>::from_mc_bytes(&bytes), Some((array, 5)));
    let texts = PrefixedArray::new(vec!["ab".to_string(), String::new(), "c".to_string()]);
    let bytes = texts.clone().into_mc_data();
    assert_eq!(bytes, vec![3, 2, b'a', b'b', 0, 1, b'c']);
    assert_eq!(
        PrefixedArray::<String>::from_mc_bytes(&bytes),
        Some((texts.clone(), 7))
    );
    assert_eq!(
        texts.into_inner(),
        vec!["ab".to_string(), String::new(), "c".to_string()]
    );
}

#[test]
fn prefixed_array_fails_with_its_items() {
    assert_eq!(PrefixedArray::<i8>::from_mc_bytes(&[3, 1, 2]), None);
    assert_eq!(PrefixedArray::<u16>::from_mc_bytes(&[1, 1]), None);
    assert_eq!(PrefixedArray::<i8>::from_mc_bytes(&[]), None);
    assert_eq!(PrefixedArray::<i8>::from_mc_bytes(&[0x80; 5]), None);
    assert_eq!(PrefixedArray::<String>::from_mc_bytes(&[1, 1, 0xFF]), None);
}

#[test]
fn byte_vector_is_a_counted_array() {
    assert_eq!(vec![5i8, -6].into_mc_data(), vec![2, 5, 0xFA]);
    assert_eq!(
        Vec::<i8>::from_mc_bytes(&[2, 5, 0xFA, 1]),
        Some((vec![5, -6], 3))
    );
    assert_eq!(Vec::<i8>::from_mc_bytes(&[2, 5]), None);
}

#[test]
fn prefixed_optional_absent() {
    let none: PrefixedOptional<u16> = PrefixedOptional(None);
    let bytes = none.clone().into_mc_data();
    assert_eq!(bytes, vec![0]);
    assert_eq!(PrefixedOptional::<u16>::from_mc_bytes(&bytes), Some((none, 1)));
}

#[test]
fn prefixed_optional_present() {
    let some = PrefixedOptional(Some(0x0102u16));
    let bytes = some.clone().into_mc_data();
    assert_eq!(bytes, vec![1, 1, 2]);
    assert_eq!(
        PrefixedOptional::<u16>::from_mc_bytes(&bytes),
        Some((some, 1 + 0x0102u16.into_mc_data().len()))
    );
    let text = PrefixedOptional(Some("hello".to_string()));
    let bytes = text.clone().into_mc_data();
    assert_eq!(
        PrefixedOptional::<String>::from_mc_bytes(&bytes),
        Some((text, 1 + "hello".to_string().into_mc_data().len()))
    );
}

#[test]
fn prefixed_optional_reads_its_flag() {
    assert_eq!(PrefixedOptional::<u16>::from_mc_bytes(&[]), None);
    assert_eq!(PrefixedOptional::<u16>::from_mc_bytes(&[1, 1]), None);
    assert_eq!(
        PrefixedOptional::<u16>::from_mc_bytes(&[0, 1, 2]),
        Some((PrefixedOptional(None), 1))
    );
    assert_eq!(
        PrefixedOptional::<u16>::from_mc_bytes(&[7, 1, 2]),
        Some((PrefixedOptional(None), 1))
    );
}

#[test]
fn property_is_its_fields_in_order() {
    let signed = Property(
        "textures".to_string(),
        "abc".to_string(),
        PrefixedOptional(Some("sig".to_string())),
    );
    let bytes = signed.clone().into_mc_data();
    let mut expected = vec![8];
    expected.extend_from_slice(b"textures");
    expected.extend_from_slice(&[3, b'a', b'b', b'c', 1, 3, b's', b'i', b'g']);
    assert_eq!(bytes, expected);
    assert_eq!(Property::from_mc_bytes(&bytes), Some((signed, expected.len())));
    let plain = Property("k".to_string(), "v".to_string(), PrefixedOptional(None));
    let bytes = plain.clone().into_mc_data();
    assert_eq!(bytes, vec![1, b'k', 1, b'v', 0]);
    assert_eq!(Property::from_mc_bytes(&bytes), Some((plain, 5)));
    assert_eq!(Property::from_mc_bytes(&[1, b'k', 1, b'v']), None);
    assert_eq!(Property::from_mc_bytes(&[1, b'k']), None);
    assert_eq!(Property::from_mc_bytes(&[]), None);
}
