use red_asn1::{
    encode, parse_field_attributes, parse_sequence, parse_sequence_attributes, Asn1Kind, Asn1Value,
    Attribute, AttributeValue, FieldDeclaration, GeneralString, Integer, ParseError,
    SequenceDeclaration,
};

fn attr(key: &str, value: AttributeValue) -> Attribute {
    Attribute { key: key.to_string(), value }
}

fn declared(name: &str, kind: Option<Asn1Kind>, attributes: Option<Vec<Attribute>>) -> FieldDeclaration {
    FieldDeclaration { name: name.to_string(), kind, attributes }
}

#[test]
fn derive_sequence_test_test_define_with_not_all_sequence_fields() {
    let decl = SequenceDeclaration {
        name: "TestSequence".to_string(),
        attributes: None,
        fields: Some(vec![declared("id", Some(Asn1Kind::Integer), None), declared("_flag", None, None)]),
    };
    let schema = parse_sequence(decl).unwrap();
    assert_eq!("TestSequence", schema.name);
    assert_eq!(None, schema.application_tag);
    assert_eq!(1, schema.fields.len());
    assert_eq!("id", schema.fields[0].name);
}

#[test]
fn person_schema_from_attributes() {
    let decl = SequenceDeclaration {
        name: "Person".to_string(),
        attributes: Some(vec![attr("application_tag", AttributeValue::Integer(1))]),
        fields: Some(vec![
            declared("name", Some(Asn1Kind::GeneralString), Some(vec![attr("context_tag", AttributeValue::Integer(0))])),
            declared("age", Some(Asn1Kind::Integer), Some(vec![attr("context_tag", AttributeValue::Integer(1))])),
            declared(
                "address",
                Some(Asn1Kind::GeneralString),
                Some(vec![attr("context_tag", AttributeValue::Integer(2)), attr("optional", AttributeValue::Flag)]),
            ),
        ]),
    };
    let schema = parse_sequence(decl).unwrap();
    assert_eq!(Some(1), schema.application_tag);
    assert_eq!(Some(2), schema.fields[2].context_tag);
    assert!(schema.fields[2].optional);
    assert!(!schema.fields[0].optional);
    let john = Asn1Value::Sequence(vec![
        Some(Asn1Value::GeneralString(GeneralString::new("John".to_string()))),
        Some(Asn1Value::Integer(Integer::new(18))),
        None,
    ]);
    assert_eq!(
        vec![0x61, 0xf, 0x30, 0xd, 0xa0, 0x6, 0x1b, 0x4, 0x4a, 0x6f, 0x68, 0x6e, 0xa1, 0x3, 0x2, 0x1, 0x12],
        encode(&Asn1Kind::Sequence(Box::new(schema)), &john).unwrap()
    );
}

#[test]
fn field_attribute_rules() {
    assert_eq!(Ok((false, None)), parse_field_attributes(&vec![]));
    assert_eq!(Ok((true, Some(255))), parse_field_attributes(&vec![
        attr("optional", AttributeValue::Flag),
        attr("context_tag", AttributeValue::Integer(255)),
    ]));
    assert_eq!(
        Err(ParseError::InvalidTagNumberValue),
        parse_field_attributes(&vec![attr("context_tag", AttributeValue::Integer(256))])
    );
    assert_eq!(
        Err(ParseError::InvalidTagNumberValue),
        parse_field_attributes(&vec![attr("context_tag", AttributeValue::Other)])
    );
    assert_eq!(
        Err(ParseError::UnknownAttribute),
        parse_field_attributes(&vec![attr("context_tag", AttributeValue::Flag)])
    );
    assert_eq!(
        Err(ParseError::UnknownAttribute),
        parse_field_attributes(&vec![attr("optional", AttributeValue::Integer(1))])
    );
    assert_eq!(Err(ParseError::UnknownAttribute), parse_field_attributes(&vec![attr("default", AttributeValue::Flag)]));
}

#[test]
fn sequence_attribute_rules() {
    assert_eq!(Ok(None), parse_sequence_attributes(&vec![]));
    assert_eq!(Ok(Some(7)), parse_sequence_attributes(&vec![attr("application_tag", AttributeValue::Integer(7))]));
    assert_eq!(
        Err(ParseError::InvalidTagNumberValue),
        parse_sequence_attributes(&vec![attr("application_tag", AttributeValue::Integer(300))])
    );
    assert_eq!(
        Err(ParseError::UnknownAttribute),
        parse_sequence_attributes(&vec![attr("context_tag", AttributeValue::Integer(1))])
    );
}

#[test]
fn declaration_errors() {
    let not_struct = SequenceDeclaration { name: "E".to_string(), attributes: None, fields: None };
    assert_eq!(ParseError::NotStruct, parse_sequence(not_struct).err().unwrap());

    let bad_field = SequenceDeclaration {
        name: "S".to_string(),
        attributes: Some(vec![attr("bogus", AttributeValue::Flag)]),
        fields: Some(vec![declared("id", Some(Asn1Kind::Integer), Some(vec![attr("context_tag", AttributeValue::Other)]))]),
    };
    assert_eq!(ParseError::InvalidTagNumberValue, parse_sequence(bad_field).err().unwrap());

    let bad_sequence = SequenceDeclaration {
        name: "S".to_string(),
        attributes: Some(vec![attr("bogus", AttributeValue::Flag)]),
        fields: Some(vec![declared("skipped", None, Some(vec![attr("bogus", AttributeValue::Flag)]))]),
    };
    assert_eq!(ParseError::UnknownAttribute, parse_sequence(bad_sequence).err().unwrap());
}
