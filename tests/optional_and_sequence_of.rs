use red_asn1::{
    decode, decode_optional, encode, encode_optional, Asn1Kind, Asn1Value, Error, GeneralString,
    Integer, SequenceOf, TagClass, INTEGER_TAG_NUMBER,
};

fn integer(v: i128) -> Asn1Value {
    Asn1Value::Integer(Integer::new(v))
}

fn integers() -> Asn1Kind {
    Asn1Kind::SequenceOf(Box::new(Asn1Kind::Integer))
}

#[test]
fn test_build_optional_some() {
    assert_eq!(vec![0x2, 0x1, 0x1], encode_optional(&Asn1Kind::Integer, &Some(integer(1))).unwrap());
    assert_eq!(
        vec![0x1b, 0x0d, 0x74, 0x65, 0x73, 0x74, 0x31, 0x40, 0x72, 0x73, 0x61, 0x2e, 0x63, 0x6f, 0x6d],
        encode_optional(
            &Asn1Kind::GeneralString,
            &Some(Asn1Value::GeneralString(GeneralString::new("test1@rsa.com".to_string())))
        )
        .unwrap()
    );
}

#[test]
fn test_build_none() {
    assert_eq!(Vec::<u8>::new(), encode_optional(&Asn1Kind::Integer, &None).unwrap());
}

#[test]
fn test_parse_optional_some() {
    assert_eq!(Some(integer(1)), decode_optional(&Asn1Kind::Integer, &[0x2, 0x1, 0x1]).unwrap().1);
    assert_eq!(
        Some(Asn1Value::GeneralString(GeneralString::new("test1@rsa.com".to_string()))),
        decode_optional(
            &Asn1Kind::GeneralString,
            &[0x1b, 0x0d, 0x74, 0x65, 0x73, 0x74, 0x31, 0x40, 0x72, 0x73, 0x61, 0x2e, 0x63, 0x6f, 0x6d]
        )
        .unwrap()
        .1
    );
}

#[test]
fn test_parse_none_mismatch_tag() {
    assert_eq!((0, None), decode_optional(&Asn1Kind::Integer, &[0x3, 0x0]).unwrap());
}

#[test]
fn test_parse_none_no_data() {
    assert_eq!((0, None), decode_optional(&Asn1Kind::Integer, &[]).unwrap());
}

#[test]
fn optional_errors_after_matched_tag() {
    assert_eq!(Err(Error::NoDataForLength), decode_optional(&Asn1Kind::Integer, &[0x2, 0x3]));
    assert_eq!(Err(Error::NotEnoughLengthOctects), decode_optional(&Asn1Kind::Integer, &[0x2, 0xff]));
}

#[test]
fn sequenceof_test_create() {
    let seq_of = SequenceOf::new();
    assert_eq!(&Vec::<Asn1Value>::new(), seq_of.value());
}

#[test]
fn sequenceof_test_create_default() {
    let seq_of = SequenceOf::new();
    assert_eq!(0, seq_of.len());
}

#[test]
fn sequenceof_test_encode_sequence_of_integers() {
    let mut seq_of = SequenceOf::new();
    seq_of.push(integer(9));
    seq_of.push(integer(1000));

    assert_eq!(
        vec![0x30, 0x7, INTEGER_TAG_NUMBER, 0x1, 0x9, INTEGER_TAG_NUMBER, 0x2, 0x3, 0xe8],
        seq_of.encode(&Asn1Kind::Integer).unwrap()
    );
    assert_eq!(
        vec![0x30, 0x7, INTEGER_TAG_NUMBER, 0x1, 0x9, INTEGER_TAG_NUMBER, 0x2, 0x3, 0xe8],
        encode(&integers(), &seq_of.into_value()).unwrap()
    );
}

#[test]
fn sequenceof_test_encode_empty_sequence_of() {
    let seq_of = SequenceOf::new();
    assert_eq!(vec![0x30, 0x0], seq_of.encode(&Asn1Kind::Integer).unwrap());
}

#[test]
fn sequenceof_test_decode_sequence_of_integers() {
    let (_, seq_of) = SequenceOf::decode(
        &Asn1Kind::Integer,
        &[0x30, 0x7, INTEGER_TAG_NUMBER, 0x1, 0x9, INTEGER_TAG_NUMBER, 0x2, 0x3, 0xe8],
    )
    .unwrap();

    assert_eq!(integer(9), seq_of.items[0]);
    assert_eq!(integer(1000), seq_of.items[1]);
}

#[test]
fn sequenceof_test_decode_empty_sequence() {
    let (_, seq_of) = SequenceOf::decode(&Asn1Kind::Integer, &[0x30, 0x0]).unwrap();
    assert_eq!(0, seq_of.len());
}

#[test]
fn sequenceof_test_decode_integers_with_excesive_bytes() {
    let (consumed_octets, seq_of) = SequenceOf::decode(
        &Asn1Kind::Integer,
        &[0x30, 0x7, INTEGER_TAG_NUMBER, 0x1, 0x9, INTEGER_TAG_NUMBER, 0x2, 0x3, 0xe8, 0xff, 0xff],
    )
    .unwrap();

    assert_eq!(9, consumed_octets);
    assert_eq!(integer(9), seq_of.items[0]);
    assert_eq!(integer(1000), seq_of.items[1]);

    let (consumed_octets, value) =
        decode(&integers(), &[0x30, 0x7, INTEGER_TAG_NUMBER, 0x1, 0x9, INTEGER_TAG_NUMBER, 0x2, 0x3, 0xe8, 0xff, 0xff])
            .unwrap();
    assert_eq!(9, consumed_octets);
    assert_eq!(Asn1Value::SequenceOf(vec![integer(9), integer(1000)]), value);
}

#[test]
fn sequence_of_errors() {
    assert_eq!(Err(Error::UnmatchedTag(TagClass::Universal)), decode(&integers(), &[0xff, 0x0]).map(|_| ()));
    assert_eq!(
        Err(Error::UnmatchedTag(TagClass::Universal)),
        decode(&integers(), &[0x30, 0x3, 0xff, 0x1, 0x9]).map(|_| ())
    );
    assert!(matches!(
        encode(&integers(), &Asn1Value::SequenceOf(vec![Asn1Value::GeneralString(GeneralString::new("x".to_string()))])),
        Err(Error::ConstraintError(_))
    ));
}

#[test]
fn nested_sequence_of() {
    let kind = Asn1Kind::SequenceOf(Box::new(integers()));
    let value = Asn1Value::SequenceOf(vec![Asn1Value::SequenceOf(vec![integer(1)]), Asn1Value::SequenceOf(vec![])]);
    let encoded = encode(&kind, &value).unwrap();
    assert_eq!(vec![0x30, 0x07, 0x30, 0x03, 0x02, 0x01, 0x01, 0x30, 0x00], encoded);
    assert_eq!((9, value), decode(&kind, &encoded).unwrap());
}
