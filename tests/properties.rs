use red_asn1::{
    decode, encode, encode_length, Asn1Kind, Asn1Value, BitString, Boolean, Error, FieldSchema,
    GeneralString, GeneralizedTime, IA5String, Integer, OctetString, SequenceSchema, TagClass,
};

fn primitive_samples() -> Vec<(Asn1Kind, Asn1Value)> {
    vec![
        (Asn1Kind::Boolean, Asn1Value::Boolean(Boolean::new(true))),
        (Asn1Kind::Integer, Asn1Value::Integer(Integer::new(-3310595109))),
        (Asn1Kind::OctetString, Asn1Value::OctetString(OctetString::new(vec![1, 2, 3]))),
        (Asn1Kind::BitString, Asn1Value::BitString(BitString::new(vec![0x6e, 0xFF], 3))),
        (Asn1Kind::GeneralString, Asn1Value::GeneralString(GeneralString::new("héllo".to_string()))),
        (Asn1Kind::IA5String, Asn1Value::IA5String(IA5String::new(b"abc").unwrap())),
        (
            Asn1Kind::GeneralizedTime,
            Asn1Value::GeneralizedTime(GeneralizedTime::new(2024, 2, 29, 12, 0, 1, 7).unwrap()),
        ),
    ]
}

#[test]
fn round_trip_of_primitives() {
    for (kind, value) in primitive_samples() {
        let encoded = encode(&kind, &value).unwrap();
        let (n, decoded) = decode(&kind, &encoded).unwrap();
        assert_eq!(encoded.len(), n);
        assert_eq!(value, decoded);
    }
}

#[test]
fn prefix_tolerance_of_primitives() {
    for (kind, value) in primitive_samples() {
        let encoded = encode(&kind, &value).unwrap();
        let mut longer = encoded.clone();
        longer.extend_from_slice(&[0x00, 0xFF, 0x30]);
        let (n, decoded) = decode(&kind, &longer).unwrap();
        assert_eq!(encoded.len(), n);
        assert_eq!(value, decoded);
    }
}

#[test]
fn tag_discrimination() {
    let samples = primitive_samples();
    for (kind, value) in &samples {
        let encoded = encode(kind, value).unwrap();
        for (other, _) in &samples {
            if std::mem::discriminant(kind) != std::mem::discriminant(other) {
                assert_eq!(Err(Error::UnmatchedTag(TagClass::Universal)), decode(other, &encoded).map(|_| ()));
            }
        }
        let seq = Asn1Kind::Sequence(Box::new(SequenceSchema::new("S".to_string(), None, vec![])));
        assert_eq!(
            Err(Error::SequenceError("S".to_string(), Box::new(Error::UnmatchedTag(TagClass::Universal)))),
            decode(&seq, &encoded).map(|_| ())
        );
    }
}

#[test]
fn length_canonicity() {
    assert_eq!(1, encode_length(127).len());
    assert_eq!(2, encode_length(128).len());
    assert_eq!(2, encode_length(255).len());
    assert_eq!(3, encode_length(256).len());
    assert_eq!(vec![0x83, 0x01, 0x00, 0x00], encode_length(65536));
}

#[test]
fn integer_canonicity() {
    for v in [-129i128, -128, -1, 0, 127, 128, 255, 256, 32767, 32768, -32768, -32769, i128::MAX, i128::MIN] {
        let value = Integer::new(v).encode_value();
        if value.len() >= 2 {
            assert!(!(value[0] == 0x00 && value[1] < 0x80), "{:?}", value);
            assert!(!(value[0] == 0xFF && value[1] >= 0x80), "{:?}", value);
        }
        assert_eq!(Integer::new(v), Integer::decode_value(&value).unwrap());
    }
    assert_eq!(vec![0x00, 0x80], Integer::new(128).encode_value());
    assert_eq!(vec![0xFF, 0x7F], Integer::new(-129).encode_value());
}

#[test]
fn bit_string_padding() {
    for p in 0..=7u8 {
        let b = 0xB7u8;
        let encoded = BitString::new(vec![0x01, b], p).encode_value();
        assert_eq!(b & (0xFFu8 << p), *encoded.last().unwrap());
        assert_eq!(p, encoded[0]);
    }
}

#[test]
fn optional_absence() {
    let with_optional = Asn1Kind::Sequence(Box::new(SequenceSchema::new(
        "S".to_string(),
        None,
        vec![
            FieldSchema::new("a".to_string(), Asn1Kind::Integer, Some(0), true),
            FieldSchema::new("b".to_string(), Asn1Kind::Integer, Some(1), false),
        ],
    )));
    let without = Asn1Kind::Sequence(Box::new(SequenceSchema::new(
        "S".to_string(),
        None,
        vec![FieldSchema::new("b".to_string(), Asn1Kind::Integer, Some(1), false)],
    )));
    let value = Asn1Value::Sequence(vec![None, Some(Asn1Value::Integer(Integer::new(5)))]);
    let shorter = Asn1Value::Sequence(vec![Some(Asn1Value::Integer(Integer::new(5)))]);
    assert_eq!(encode(&without, &shorter).unwrap(), encode(&with_optional, &value).unwrap());
    assert_eq!(vec![0x30, 0x05, 0xa1, 0x03, 0x02, 0x01, 0x05], encode(&with_optional, &value).unwrap());
}

#[test]
fn ambiguous_optional_field_does_not_round_trip() {
    let kind = Asn1Kind::Sequence(Box::new(SequenceSchema::new(
        "S".to_string(),
        None,
        vec![
            FieldSchema::new("a".to_string(), Asn1Kind::Integer, None, true),
            FieldSchema::new("b".to_string(), Asn1Kind::Integer, None, false),
        ],
    )));
    let value = Asn1Value::Sequence(vec![None, Some(Asn1Value::Integer(Integer::new(5)))]);
    let encoded = encode(&kind, &value).unwrap();
    assert_eq!(vec![0x30, 0x03, 0x02, 0x01, 0x05], encoded);
    assert_eq!(
        Err(Error::SequenceFieldError(
            "S".to_string(),
            "b".to_string(),
            Box::new(Error::EmptyTag(TagClass::Universal))
        )),
        decode(&kind, &encoded).map(|_| ())
    );
}

#[test]
fn round_trip_of_sequence_of_primitives() {
    let kind = Asn1Kind::SequenceOf(Box::new(Asn1Kind::BitString));
    let value = Asn1Value::SequenceOf(vec![
        Asn1Value::BitString(BitString::new(vec![0xFF], 4)),
        Asn1Value::BitString(BitString::new(vec![], 0)),
    ]);
    let mut encoded = encode(&kind, &value).unwrap();
    assert_eq!(vec![0x30, 0x07, 0x03, 0x02, 0x04, 0xF0, 0x03, 0x01, 0x00], encoded);
    encoded.push(0x99);
    assert_eq!((9, value), decode(&kind, &encoded).unwrap());
}

#[test]
fn round_trip_of_unambiguous_sequence() {
    let kind = Asn1Kind::Sequence(Box::new(SequenceSchema::new(
        "Person".to_string(),
        Some(1),
        vec![
            FieldSchema::new("name".to_string(), Asn1Kind::GeneralString, Some(0), false),
            FieldSchema::new("age".to_string(), Asn1Kind::Integer, Some(1), false),
            FieldSchema::new("address".to_string(), Asn1Kind::GeneralString, Some(2), true),
            FieldSchema::new("flag".to_string(), Asn1Kind::Boolean, None, false),
        ],
    )));
    for address in [None, Some(Asn1Value::GeneralString(GeneralString::new("Hawaii".to_string())))] {
        let value = Asn1Value::Sequence(vec![
            Some(Asn1Value::GeneralString(GeneralString::new("Rachel".to_string()))),
            Some(Asn1Value::Integer(Integer::new(30))),
            address,
            Some(Asn1Value::Boolean(Boolean::new(false))),
        ]);
        let mut encoded = encode(&kind, &value).unwrap();
        let len = encoded.len();
        encoded.extend_from_slice(&[0x30, 0x00]);
        assert_eq!((len, value), decode(&kind, &encoded).unwrap());
    }
}

#[test]
fn errors_clone_to_equal_values() {
    let e = Error::SequenceFieldError(
        "S".to_string(),
        "f".to_string(),
        Box::new(Error::SequenceError("T".to_string(), Box::new(Error::NoAllDataConsumed))),
    );
    assert_eq!(e, e.clone());
}

#[test]
fn round_trip_of_nested_values() {
    let inner = Asn1Kind::Sequence(Box::new(SequenceSchema::new(
        "Inner".to_string(),
        Some(3),
        vec![
            FieldSchema::new("id".to_string(), Asn1Kind::Integer, Some(0), false),
            FieldSchema::new("tags".to_string(), Asn1Kind::SequenceOf(Box::new(Asn1Kind::IA5String)), Some(1), true),
        ],
    )));
    let outer = Asn1Kind::Sequence(Box::new(SequenceSchema::new(
        "Outer".to_string(),
        None,
        vec![
            FieldSchema::new("payload".to_string(), inner, None, false),
            FieldSchema::new("extra".to_string(), Asn1Kind::OctetString, Some(0), true),
        ],
    )));
    let value = Asn1Value::Sequence(vec![
        Some(Asn1Value::Sequence(vec![
            Some(Asn1Value::Integer(Integer::new(-5))),
            Some(Asn1Value::SequenceOf(vec![Asn1Value::IA5String(IA5String::new(b"a").unwrap())])),
        ])),
        None,
    ]);
    let mut encoded = encode(&outer, &value).unwrap();
    assert_eq!(
        vec![0x30, 0x10, 0x63, 0x0e, 0x30, 0x0c, 0xa0, 0x03, 0x02, 0x01, 0xfb, 0xa1, 0x05, 0x30, 0x03, 0x16, 0x01, 0x61],
        encoded
    );
    encoded.push(0x00);
    assert_eq!((18, value), decode(&outer, &encoded).unwrap());
}
