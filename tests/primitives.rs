use red_asn1::{
    BitString, Boolean, Error, GeneralString, GeneralizedTime, IA5String, Integer, OctetString,
    TagClass, TimeFormat, INTEGER_TAG_NUMBER,
};

fn parse_boolean(raw: &[u8]) -> (Boolean, usize) {
    let (consumed, b) = Boolean::decode(raw).unwrap();
    (b, consumed)
}

fn parse_integer(raw: &[u8]) -> (Integer, usize) {
    let (consumed, i) = Integer::decode(raw).unwrap();
    (i, consumed)
}

fn parse_octet_string(raw: &[u8]) -> (OctetString, usize) {
    let (consumed, o) = OctetString::decode(raw).unwrap();
    (o, consumed)
}

fn parse_bit_string(raw: &[u8]) -> (BitString, usize) {
    let (consumed, b) = BitString::decode(raw).unwrap();
    (b, consumed)
}

fn parse_general_string(raw: &[u8]) -> (GeneralString, usize) {
    let (consumed, s) = GeneralString::decode(raw).unwrap();
    (s, consumed)
}

fn gs(text: &str) -> GeneralString {
    GeneralString::new(text.to_string())
}

// ------------------------------------------------------------------ Boolean

#[test]
fn boolean_test_build() {
    assert_eq!(vec![0x1, 0x1, 0x0], Boolean::new(false).encode());
    assert_eq!(vec![0x1, 0x1, 0xff], Boolean::new(true).encode());
}

#[test]
fn boolean_test_encode() {
    assert_eq!(vec![0x1, 0x1, 0x0], Boolean::new(false).encode());
    assert_eq!(vec![0x1, 0x1, 0xff], Boolean::new(true).encode());
}

#[test]
fn boolean_test_parse() {
    assert_eq!(false, parse_boolean(&[0x1, 0x1, 0x0]).0.value());
    assert_eq!(true, parse_boolean(&[0x1, 0x1, 0xff]).0.value());
    assert_eq!(true, parse_boolean(&[0x1, 0x1, 0x01]).0.value());
    assert_eq!(true, parse_boolean(&[0x1, 0x1, 0x7b]).0.value());
}

#[test]
fn boolean_test_decode() {
    assert_eq!(Boolean::new(false), parse_boolean(&[0x1, 0x1, 0x0]).0);
    assert_eq!(Boolean::new(true), parse_boolean(&[0x1, 0x1, 0xff]).0);
    assert_eq!(Boolean::new(true), parse_boolean(&[0x1, 0x1, 0x01]).0);
    assert_eq!(Boolean::new(true), parse_boolean(&[0x1, 0x1, 0x7b]).0);
}

#[test]
fn boolean_test_parse_with_excesive_bytes() {
    assert_eq!((Boolean::new(false), 3), parse_boolean(&[0x1, 0x1, 0x0, 0x1]));
    assert_eq!((Boolean::new(true), 3), parse_boolean(&[0x1, 0x1, 0xff, 0x0, 0x1, 0x2]));
    assert_eq!((Boolean::new(true), 3), parse_boolean(&[0x1, 0x1, 0x01, 0x0, 0x1]));
    assert_eq!((Boolean::new(true), 3), parse_boolean(&[0x1, 0x1, 0x7b, 0x0]));

    assert_eq!((Boolean::new(false), 4), parse_boolean(&[0x1, 0x2, 0x0, 0x1]));
}

#[test]
fn boolean_test_decode_with_excesive_bytes() {
    assert_eq!((Boolean::new(false), 3), parse_boolean(&[0x1, 0x1, 0x0, 0x1]));
    assert_eq!((Boolean::new(true), 3), parse_boolean(&[0x1, 0x1, 0xff, 0x0, 0x1, 0x2]));
    assert_eq!((Boolean::new(true), 3), parse_boolean(&[0x1, 0x1, 0x01, 0x0, 0x1]));
    assert_eq!((Boolean::new(true), 3), parse_boolean(&[0x1, 0x1, 0x7b, 0x0]));

    assert_eq!((Boolean::new(false), 4), parse_boolean(&[0x1, 0x2, 0x0, 0x1]));
}

#[test]
fn boolean_errors() {
    assert_eq!(Err(Error::UnmatchedTag(TagClass::Universal)), Boolean::decode(&[0x7, 0x1, 0x0]));
    assert_eq!(Err(Error::NoDataForType), Boolean::decode(&[0x1, 0x0]));
    assert_eq!(Err(Error::NoDataForLength), Boolean::decode(&[0x1, 0x3, 0x0]));
    assert_eq!(Err(Error::LengthEmpty), Boolean::decode(&[0x1]));
    assert_eq!(Err(Error::EmptyTag(TagClass::Universal)), Boolean::decode(&[]));
}

// ------------------------------------------------------------------ Integer

#[test]
fn test_integer_value_and_tag() {
    let integer1 = Integer::new(78);
    assert_eq!(78, integer1.value);
    assert_eq!(vec![0x02], Integer::tag().encode());
}

#[test]
fn integer_test_create() {
    let b = Integer::new(78);
    assert_eq!(78, b.value());
}

#[test]
fn test_set_value() {
    let mut b = Integer::new_empty();
    b.set_value(56);
    assert_eq!(56, b.value());
}

fn check_integer_build() {
    assert_eq!(vec![0x2, 0x1, 0x0], Integer::new(0).encode());
    assert_eq!(vec![0x2, 0x1, 0x1], Integer::new(1).encode());
    assert_eq!(vec![0x2, 0x1, 0xff], Integer::new(-1).encode());

    assert_eq!(vec![0x2, 0x1, 0x7F], Integer::new(127).encode());
    assert_eq!(vec![0x2, 0x2, 0x00, 0x80], Integer::new(128).encode());
    assert_eq!(vec![0x2, 0x2, 0x01, 0x00], Integer::new(256).encode());
    assert_eq!(vec![0x2, 0x1, 0x80], Integer::new(-128).encode());
    assert_eq!(vec![0x2, 0x2, 0xFF, 0x7F], Integer::new(-129).encode());
}

fn check_integer_build_wide() {
    assert_eq!(vec![0x2, 0x5, 0x00, 0xF8, 0x45, 0x33, 0x8], Integer::new(4165284616).encode());
    assert_eq!(vec![0x2, 0x5, 0xFF, 0x3A, 0xAC, 0x53, 0xDB], Integer::new(-3310595109).encode());
}

fn check_integer_parse() {
    assert_eq!(Integer::new(0), parse_integer(&[0x2, 0x1, 0x0]).0);
    assert_eq!(Integer::new(1), parse_integer(&[0x2, 0x1, 0x1]).0);
    assert_eq!(Integer::new(-1), parse_integer(&[0x2, 0x1, 0xff]).0);

    assert_eq!(Integer::new(127), parse_integer(&[0x2, 0x1, 0x7F]).0);
    assert_eq!(Integer::new(128), parse_integer(&[0x2, 0x2, 0x00, 0x80]).0);
    assert_eq!(Integer::new(256), parse_integer(&[0x2, 0x2, 0x01, 0x00]).0);
    assert_eq!(Integer::new(-128), parse_integer(&[0x2, 0x1, 0x80]).0);
    assert_eq!(Integer::new(-129), parse_integer(&[0x2, 0x2, 0xFF, 0x7F]).0);
}

fn check_integer_parse_wide() {
    assert_eq!(Integer::new(4165284616), parse_integer(&[0x2, 0x5, 0x00, 0xF8, 0x45, 0x33, 0x8]).0);
    assert_eq!(Integer::new(-3310595109), parse_integer(&[0x2, 0x5, 0xFF, 0x3A, 0xAC, 0x53, 0xDB]).0);
}

fn check_integer_excesive_bytes() {
    assert_eq!((Integer::new(0), 3), parse_integer(&[0x2, 0x1, 0x0, 0x22]));
    assert_eq!((Integer::new(1), 3), parse_integer(&[0x2, 0x1, 0x1, 0x22]));
    assert_eq!((Integer::new(-1), 3), parse_integer(&[0x2, 0x1, 0xff, 0x22]));

    assert_eq!((Integer::new(127), 3), parse_integer(&[0x2, 0x1, 0x7F, 0x22]));
    assert_eq!((Integer::new(128), 4), parse_integer(&[0x2, 0x2, 0x00, 0x80, 0x22]));
    assert_eq!((Integer::new(256), 4), parse_integer(&[0x2, 0x2, 0x01, 0x00, 0x22]));
    assert_eq!((Integer::new(-128), 3), parse_integer(&[0x2, 0x1, 0x80, 0x22]));
    assert_eq!((Integer::new(-129), 4), parse_integer(&[0x2, 0x2, 0xFF, 0x7F, 0x22]));
}

fn check_integer_excesive_bytes_wide() {
    assert_eq!((Integer::new(4165284616), 7), parse_integer(&[0x2, 0x5, 0x00, 0xF8, 0x45, 0x33, 0x8, 0x22]));
    assert_eq!((Integer::new(-3310595109), 7), parse_integer(&[0x2, 0x5, 0xFF, 0x3A, 0xAC, 0x53, 0xDB, 0x22]));
}

#[test]
fn integer_test_build() {
    check_integer_build();
    check_integer_build_wide();
}

#[test]
fn integer_test_encode() {
    check_integer_build();
    check_integer_build_wide();
}

#[test]
fn int128_test_build() {
    check_integer_build();
    check_integer_build_wide();
}

#[test]
fn int32_test_build() {
    check_integer_build();
}

#[test]
fn integer_test_parse() {
    check_integer_parse();
    check_integer_parse_wide();
}

#[test]
fn integer_test_decode() {
    check_integer_parse();
    check_integer_parse_wide();
}

#[test]
fn int128_test_parse() {
    check_integer_parse();
    check_integer_parse_wide();
}

#[test]
fn int32_test_parse() {
    check_integer_parse();
}

#[test]
fn integer_test_parse_with_excesive_bytes() {
    check_integer_excesive_bytes();
    check_integer_excesive_bytes_wide();
}

#[test]
fn integer_test_decode_with_excesive_bytes() {
    check_integer_excesive_bytes();
    check_integer_excesive_bytes_wide();
}

#[test]
fn int128_test_parse_with_excesive_bytes() {
    check_integer_excesive_bytes();
    check_integer_excesive_bytes_wide();
}

#[test]
fn int32_test_parse_with_excesive_bytes() {
    check_integer_excesive_bytes();
}

#[test]
fn integer_errors() {
    assert_eq!(Err(Error::UnmatchedTag(TagClass::Universal)), Integer::decode(&[0x7, 0x1, 0x0]));
    assert_eq!(Err(Error::NoDataForType), Integer::decode(&[0x2, 0x0]));
    assert!(matches!(
        Integer::decode(&[0x2, 20, 0, 0x1, 0x2, 0x3, 0x4, 0x5, 0x6, 0x7, 0x8, 0x9, 0, 1, 2, 3, 4, 5, 6, 7, 8, 9]),
        Err(Error::ImplementationError(_))
    ));
}

#[test]
fn integer_extremes() {
    let mut max = vec![0x2, 0x10, 0x7F];
    max.extend_from_slice(&[0xFF; 15]);
    assert_eq!(max, Integer::new(i128::MAX).encode());
    assert_eq!((Integer::new(i128::MAX), 18), parse_integer(&max));

    let mut min = vec![0x2, 0x10, 0x80];
    min.extend_from_slice(&[0x00; 15]);
    assert_eq!(min, Integer::new(i128::MIN).encode());
    assert_eq!((Integer::new(i128::MIN), 18), parse_integer(&min));
    assert_eq!(16, Integer::new(i128::MIN).encoded_value_size());
    assert_eq!(1, Integer::new(-128).encoded_value_size());
    assert_eq!(INTEGER_TAG_NUMBER, 2);
}

// -------------------------------------------------------------- OctetString

fn check_octet_string_build() {
    assert_eq!(vec![0x4, 0x1, 0x0], OctetString::new(vec![0x0]).encode());
    assert_eq!(
        vec![0x04, 0x08, 0x01, 0x23, 0x45, 0x67, 0x89, 0xab, 0xcd, 0xef],
        OctetString::new(vec![0x01, 0x23, 0x45, 0x67, 0x89, 0xab, 0xcd, 0xef]).encode()
    );
    assert_eq!(vec![0x4, 0x0], OctetString::new(vec![]).encode());
}

fn check_octet_string_parse() {
    assert_eq!(OctetString::new(vec![0x0]), parse_octet_string(&[0x4, 0x1, 0x0]).0);
    assert_eq!(
        OctetString::new(vec![0x01, 0x23, 0x45, 0x67, 0x89, 0xab, 0xcd, 0xef]),
        parse_octet_string(&[0x04, 0x08, 0x01, 0x23, 0x45, 0x67, 0x89, 0xab, 0xcd, 0xef]).0
    );
    assert_eq!(OctetString::new(vec![]), parse_octet_string(&[0x4, 0x0]).0);
}

fn check_octet_string_excesive_bytes() {
    assert_eq!((OctetString::new(vec![0x0]), 3), parse_octet_string(&[0x4, 0x1, 0x0, 0x01, 0x02, 0x03, 0x04]));
    assert_eq!(
        (OctetString::new(vec![0x01, 0x23, 0x45, 0x67, 0x89, 0xab, 0xcd, 0xef]), 0xa),
        parse_octet_string(&[0x04, 0x08, 0x01, 0x23, 0x45, 0x67, 0x89, 0xab, 0xcd, 0xef, 0x01, 0x02, 0x03, 0x04])
    );
    assert_eq!((OctetString::new(vec![]), 2), parse_octet_string(&[0x4, 0x0, 0x01, 0x02, 0x03, 0x04]));
}

#[test]
fn octetstring_test_create() {
    let b = OctetString::new(vec![0x0]);
    assert_eq!(&vec![0x0], b.value());
}

#[test]
fn test_build_octet_string() {
    check_octet_string_build();
}

#[test]
fn octetstring_test_encode_octet_string() {
    check_octet_string_build();
}

#[test]
fn octetstring_test_parse() {
    check_octet_string_parse();
}

#[test]
fn octetstring_test_decode() {
    check_octet_string_parse();
}

#[test]
fn octetstring_test_parse_with_excesive_bytes() {
    check_octet_string_excesive_bytes();
}

#[test]
fn octetstring_test_decode_with_excesive_bytes() {
    check_octet_string_excesive_bytes();
}

#[test]
fn octet_string_errors() {
    assert_eq!(Err(Error::UnmatchedTag(TagClass::Universal)), OctetString::decode(&[0x7, 0x1, 0x0]));
    assert_eq!(Err(Error::NoDataForLength), OctetString::decode(&[0x4, 0x2, 0x0]));
}

#[test]
fn octet_string_long_form_length() {
    let value: Vec<u8> = (0..200u32).map(|i| i as u8).collect();
    let encoded = OctetString::new(value.clone()).encode();
    assert_eq!(&[0x04, 0x81, 200], &encoded[..3]);
    assert_eq!((OctetString::new(value), 203), parse_octet_string(&encoded));
}

// ---------------------------------------------------------------- BitString

#[test]
fn bitstring_test_create() {
    let b = BitString::new(vec![0x0], 0);
    assert_eq!(&vec![0x0], b.get_bytes());
    assert_eq!(0, b.get_padding_length());
}

#[test]
fn bitstring_test_encode_bit_string() {
    assert_eq!(vec![0x3, 0x2, 0x0, 0x0], BitString::new(vec![0x0], 0).encode());
    assert_eq!(vec![0x3, 0x4, 0x6, 0x6e, 0x5d, 0xC0], BitString::new(vec![0x6e, 0x5d, 0xFF], 6).encode());
    assert_eq!(vec![0x3, 0x2, 0x4, 0xF0], BitString::new(vec![0xF0], 4).encode());
    assert_eq!(vec![0x3, 0x1, 0x4], BitString::new(vec![], 4).encode());
}

#[test]
fn bitstring_test_decode() {
    assert_eq!(BitString::new(vec![0x0], 0), parse_bit_string(&[0x3, 0x2, 0x0, 0x0]).0);
    assert_eq!(BitString::new(vec![0x6e, 0x5d, 0xFF], 6), parse_bit_string(&[0x3, 0x4, 0x6, 0x6e, 0x5d, 0xFF]).0);
    assert_eq!(BitString::new(vec![0xF0], 4), parse_bit_string(&[0x3, 0x2, 0x4, 0xF0]).0);
    assert_eq!(BitString::new(vec![], 4), parse_bit_string(&[0x3, 0x1, 0x4]).0);
}

#[test]
fn bitstring_test_decode_boolean_with_excesive_bytes() {
    assert_eq!((BitString::new(vec![0x0], 0), 4), parse_bit_string(&[0x3, 0x2, 0x0, 0x0, 0x11, 0x22]));
    assert_eq!(
        (BitString::new(vec![0x6e, 0x5d, 0xFF], 6), 6),
        parse_bit_string(&[0x3, 0x4, 0x6, 0x6e, 0x5d, 0xFF, 0x11, 0x22])
    );
    assert_eq!((BitString::new(vec![0xF0], 4), 4), parse_bit_string(&[0x3, 0x2, 0x4, 0xF0, 0x11, 0x22]));
    assert_eq!((BitString::new(vec![], 4), 3), parse_bit_string(&[0x3, 0x1, 0x4, 0x11, 0x22]));
}

#[test]
fn bitstring_test_value_get_bytes() {
    let b = BitString::new(vec![0x0, 0x1, 0x2, 0x3], 0);
    assert_eq!(vec![0x0, 0x1, 0x2, 0x3], b.bytes);
}

#[test]
fn bitstring_test_value_padding_length() {
    let b = BitString::new(vec![0x0, 0x1, 0x2, 0x3], 7);
    assert_eq!(7, b.padding_length);
}

#[test]
fn bit_string_errors() {
    assert_eq!(Err(Error::UnmatchedTag(TagClass::Universal)), BitString::decode(&[0x7, 0x1, 0x0]));
    assert_eq!(Err(Error::NoDataForType), BitString::decode(&[0x3, 0x0]));
    assert!(matches!(BitString::decode(&[0x3, 0x2, 0x8, 0xFF]), Err(Error::ConstraintError(_))));
}

#[test]
fn bit_string_padding_is_masked() {
    assert_eq!(vec![0x12, 0x80], BitString::new(vec![0x12, 0xFF], 7).bytes);
    assert_eq!(vec![0x12, 0xFF], BitString::new(vec![0x12, 0xFF], 0).bytes);
    assert_eq!(BitString::new_empty(), BitString::new(vec![], 0));
}

// ------------------------------------------------------------ GeneralString

#[test]
fn generalstring_test_build() {
    assert_eq!(
        vec![0x1b, 0x0d, 0x74, 0x65, 0x73, 0x74, 0x31, 0x40, 0x72, 0x73, 0x61, 0x2e, 0x63, 0x6f, 0x6d],
        gs("test1@rsa.com").encode()
    );
}

#[test]
fn generalstring_test_parse() {
    assert_eq!(
        gs("test1@rsa.com"),
        parse_general_string(&[0x1b, 0x0d, 0x74, 0x65, 0x73, 0x74, 0x31, 0x40, 0x72, 0x73, 0x61, 0x2e, 0x63, 0x6f, 0x6d]).0
    );
}

#[test]
fn generalstring_test_parse_empty_value() {
    assert_eq!(gs(""), parse_general_string(&[0x1b, 0x00]).0);
}

#[test]
fn generalstring_test_parse_with_excesive_bytes() {
    assert_eq!(
        (gs("test1@rsa.com"), 15),
        parse_general_string(&[
            0x1b, 0x0d, 0x74, 0x65, 0x73, 0x74, 0x31, 0x40, 0x72, 0x73, 0x61, 0x2e, 0x63, 0x6f, 0x6d, 0x22, 0x22, 0x22
        ])
    );
}

#[test]
fn general_string_errors() {
    assert_eq!(Err(Error::Utf8Error), GeneralString::decode(&[0x1b, 0x1, 0xff]));
    assert_eq!(Err(Error::UnmatchedTag(TagClass::Universal)), GeneralString::decode(&[0x7, 0x1, 0x0]));
}

#[test]
fn general_string_multibyte_round_trip() {
    let s = gs("año ✓");
    let encoded = s.encode();
    assert_eq!(&[0x1b, 0x08, 0x61, 0xc3, 0xb1, 0x6f, 0x20, 0xe2, 0x9c, 0x93], &encoded[..]);
    assert_eq!((s, 10), parse_general_string(&encoded));
}

// --------------------------------------------------------------- IA5String

#[test]
fn ia5_string_encode_and_decode() {
    let s = IA5String::new(b"test1@rsa.com").unwrap();
    let encoded = s.encode();
    assert_eq!(
        vec![0x16, 0x0d, 0x74, 0x65, 0x73, 0x74, 0x31, 0x40, 0x72, 0x73, 0x61, 0x2e, 0x63, 0x6f, 0x6d],
        encoded
    );
    let (consumed, decoded) = IA5String::decode(&[0x16, 0x02, 0x41, 0x42, 0x00]).unwrap();
    assert_eq!(4, consumed);
    assert_eq!(&vec![0x41, 0x42], decoded.value());
    assert_eq!(&Vec::<u8>::new(), IA5String::new_empty().value());
}

#[test]
fn ia5_string_errors() {
    assert_eq!(Err(Error::AsciiError), IA5String::decode(&[0x16, 0x1, 0xff]));
    assert_eq!(Err(Error::AsciiError), IA5String::new(&[0x41, 0x80]));
    assert_eq!(Err(Error::UnmatchedTag(TagClass::Universal)), IA5String::decode(&[0x7, 0x1, 0x0]));
}

// --------------------------------------------------------- GeneralizedTime

#[test]
fn generalized_time_encode() {
    let t = GeneralizedTime::new(1985, 11, 6, 21, 6, 27, 3).unwrap();
    assert_eq!(
        vec![0x18, 0x11, 0x31, 0x39, 0x38, 0x35, 0x31, 0x31, 0x30, 0x36, 0x32, 0x31, 0x30, 0x36, 0x32, 0x37, 0x2e, 0x33, 0x5a],
        t.encode()
    );
    let mut whole = t;
    whole.set_format(TimeFormat::YYYYmmddHHMMSSZ);
    assert_eq!(b"19851106210627Z".to_vec(), whole.encode_value());
}

#[test]
fn generalized_time_decode() {
    let raw = [
        0x18, 0x11, 0x31, 0x39, 0x38, 0x35, 0x31, 0x31, 0x30, 0x36, 0x32, 0x31, 0x30, 0x36, 0x32, 0x37, 0x2e, 0x33, 0x5a, 0x00,
    ];
    let (consumed, t) = GeneralizedTime::decode(&raw).unwrap();
    assert_eq!(19, consumed);
    assert_eq!(GeneralizedTime::new(1985, 11, 6, 21, 6, 27, 3).unwrap(), t);

    let (_, whole) = GeneralizedTime::decode(&[0x18, 0x0f, b'2', b'0', b'2', b'0', b'0', b'2', b'2', b'9', b'2', b'3', b'5', b'9', b'5', b'9', b'Z']).unwrap();
    assert_eq!(2020, whole.year);
    assert_eq!(29, whole.day);
    assert_eq!(TimeFormat::YYYYmmddHHMMSSZ, whole.format);
}

#[test]
fn generalized_time_errors() {
    assert_eq!(Err(Error::NoDataForType), GeneralizedTime::decode(&[0x18, 0x02, b'1', b'9']));
    assert_eq!(Err(Error::ParseIntError), GeneralizedTime::decode(b"\x18\x0f1985110621062xZ"));
    assert!(matches!(GeneralizedTime::decode(b"\x18\x0f19851106210627+"), Err(Error::ImplementationError(_))));
    assert!(matches!(GeneralizedTime::decode(b"\x18\x0f20190229000000Z"), Err(Error::ConstraintError(_))));
    assert!(matches!(GeneralizedTime::new(2019, 2, 29, 0, 0, 0, 0), Err(Error::ConstraintError(_))));
    assert!(GeneralizedTime::new(2000, 2, 29, 23, 59, 59, 9).is_ok());
    assert!(matches!(GeneralizedTime::new(2001, 4, 31, 0, 0, 0, 0), Err(Error::ConstraintError(_))));
}

#[test]
fn generalized_time_default_is_epoch() {
    let t = GeneralizedTime::new_empty();
    assert_eq!(b"19700101000000.0Z".to_vec(), t.encode_value());
}

#[test]
fn conversions_and_defaults() {
    assert_eq!(Integer::new(9), Integer::from(9));
    assert_eq!(Boolean::new(true), Boolean::from(true));
    assert_eq!(OctetString::new(vec![1, 2]), OctetString::from(vec![1, 2]));
    assert_eq!(gs("John"), GeneralString::from("John".to_string()));
    assert_eq!(Integer::new(0), Integer::default());
    assert_eq!(Boolean::new(false), Boolean::default());
    assert_eq!(OctetString::new_empty(), OctetString::default());
    assert_eq!(gs(""), GeneralString::default());
    assert_eq!(BitString::new_empty(), BitString::default());
    assert_eq!(IA5String::new_empty(), IA5String::default());
    assert_eq!(GeneralizedTime::new_empty(), GeneralizedTime::default());
}
