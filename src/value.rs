//! Kinds, schemas and values of the supported types.

use vstd::prelude::*;

use crate::bitstring::BitString;
use crate::boolean::Boolean;
use crate::generalstring::GeneralString;
use crate::ia5string::IA5String;
use crate::integer::Integer;
use crate::octetstring::OctetString;
use crate::tag::{Tag, TagClass, TagType};
use crate::time::GeneralizedTime;

verus! {

/// Tag number of SEQUENCE and SEQUENCE OF.
pub const SEQUENCE_TAG_NUMBER: u8 = 0x10;

/// The ASN.1 type of a value, as a schema for decoding it.
pub enum Asn1Kind {
    Boolean,
    Integer,
    OctetString,
    BitString,
    GeneralString,
    IA5String,
    GeneralizedTime,
    /// SEQUENCE OF elements of the inner kind.
    SequenceOf(Box<Asn1Kind>),
    /// A SEQUENCE described field by field.
    Sequence(Box<SequenceSchema>),
}

/// One field of a SEQUENCE: its name, type, optional `[n]` context tag and
/// whether it may be absent.
pub struct FieldSchema {
    pub name: String,
    pub kind: Asn1Kind,
    pub context_tag: Option<u8>,
    pub optional: bool,
}

/// A SEQUENCE: its name, optional `[APPLICATION n]` wrapping and its fields
/// in order.
pub struct SequenceSchema {
    pub name: String,
    pub application_tag: Option<u8>,
    pub fields: Vec<FieldSchema>,
}

/// A value of one of the supported ASN.1 types.
#[derive(Debug, PartialEq)]
pub enum Asn1Value {
    Boolean(Boolean),
    Integer(Integer),
    OctetString(OctetString),
    BitString(BitString),
    GeneralString(GeneralString),
    IA5String(IA5String),
    GeneralizedTime(GeneralizedTime),
    /// The elements of a SEQUENCE OF, in order.
    SequenceOf(Vec<Asn1Value>),
    /// The field values of a SEQUENCE in the order of its schema; `None` for
    /// an absent optional field.
    Sequence(Vec<Option<Asn1Value>>),
}

/// What a value holds, as mathematical objects.
pub enum ValueModel {
    Boolean(bool),
    Integer(int),
    OctetString(Seq<u8>),
    BitString(Seq<u8>, u8),
    GeneralString(Seq<char>),
    IA5String(Seq<u8>),
    GeneralizedTime(GeneralizedTime),
    SequenceOf(Seq<ValueModel>),
    Sequence(Seq<Option<ValueModel>>),
}

pub open spec fn value_model(v: Asn1Value) -> ValueModel
    decreases v,
{
    match v {
        Asn1Value::Boolean(b) => ValueModel::Boolean(b.value),
        Asn1Value::Integer(i) => ValueModel::Integer(i.value as int),
        Asn1Value::OctetString(o) => ValueModel::OctetString(o@),
        Asn1Value::BitString(b) => ValueModel::BitString(b.bytes@, b.padding_length),
        Asn1Value::GeneralString(g) => ValueModel::GeneralString(g@),
        Asn1Value::IA5String(s) => ValueModel::IA5String(s@),
        Asn1Value::GeneralizedTime(t) => ValueModel::GeneralizedTime(t),
        Asn1Value::SequenceOf(items) => ValueModel::SequenceOf(items_model(items@)),
        Asn1Value::Sequence(fields) => ValueModel::Sequence(fields_model(fields@)),
    }
}

pub open spec fn items_model(s: Seq<Asn1Value>) -> Seq<ValueModel>
    decreases s,
{
    if s.len() == 0 {
        seq![]
    } else {
        items_model(s.drop_last()).push(value_model(s.last()))
    }
}

pub open spec fn field_model(f: Option<Asn1Value>) -> Option<ValueModel>
    decreases f,
{
    match f {
        Some(v) => Some(value_model(v)),
        None => None,
    }
}

pub open spec fn fields_model(s: Seq<Option<Asn1Value>>) -> Seq<Option<ValueModel>>
    decreases s,
{
    if s.len() == 0 {
        seq![]
    } else {
        fields_model(s.drop_last()).push(field_model(s.last()))
    }
}

impl View for Asn1Value {
    type V = ValueModel;

    open spec fn view(&self) -> ValueModel {
        value_model(*self)
    }
}

/// The tag that starts the encoding of a value of `kind`.
pub open spec fn spec_kind_tag(kind: Asn1Kind) -> Tag {
    match kind {
        Asn1Kind::Boolean => Boolean::spec_tag(),
        Asn1Kind::Integer => Integer::spec_tag(),
        Asn1Kind::OctetString => OctetString::spec_tag(),
        Asn1Kind::BitString => BitString::spec_tag(),
        Asn1Kind::GeneralString => GeneralString::spec_tag(),
        Asn1Kind::IA5String => IA5String::spec_tag(),
        Asn1Kind::GeneralizedTime => GeneralizedTime::spec_tag(),
        Asn1Kind::SequenceOf(_) => sequence_tag(),
        Asn1Kind::Sequence(s) => match s.application_tag {
            Some(a) => application_tag(a),
            None => sequence_tag(),
        },
    }
}

pub open spec fn sequence_tag() -> Tag {
    Tag::spec_new(SEQUENCE_TAG_NUMBER, TagType::Constructed, TagClass::Universal)
}

pub open spec fn application_tag(a: u8) -> Tag {
    Tag::spec_new(a, TagType::Constructed, TagClass::Application)
}

pub open spec fn context_tag(c: u8) -> Tag {
    Tag::spec_new(c, TagType::Constructed, TagClass::Context)
}

/// The tag that starts the encoding of a value of `kind`.
pub fn kind_tag(kind: &Asn1Kind) -> (r: Tag)
    ensures
        r == spec_kind_tag(*kind),
{
    match kind {
        Asn1Kind::Boolean => Boolean::tag(),
        Asn1Kind::Integer => Integer::tag(),
        Asn1Kind::OctetString => OctetString::tag(),
        Asn1Kind::BitString => BitString::tag(),
        Asn1Kind::GeneralString => GeneralString::tag(),
        Asn1Kind::IA5String => IA5String::tag(),
        Asn1Kind::GeneralizedTime => GeneralizedTime::tag(),
        Asn1Kind::SequenceOf(_) => Tag::new_constructed_universal(SEQUENCE_TAG_NUMBER),
        Asn1Kind::Sequence(s) => match s.application_tag {
            Some(a) => Tag::new(a, TagType::Constructed, TagClass::Application),
            None => Tag::new_constructed_universal(SEQUENCE_TAG_NUMBER),
        },
    }
}

impl FieldSchema {
    pub fn new(name: String, kind: Asn1Kind, context_tag: Option<u8>, optional: bool) -> (r:
        FieldSchema)
        ensures
            r.name == name,
            r.kind == kind,
            r.context_tag == context_tag,
            r.optional == optional,
    {
        FieldSchema { name, kind, context_tag, optional }
    }
}

impl SequenceSchema {
    pub fn new(name: String, application_tag: Option<u8>, fields: Vec<FieldSchema>) -> (r:
        SequenceSchema)
        ensures
            r.name == name,
            r.application_tag == application_tag,
            r.fields@ == fields@,
    {
        SequenceSchema { name, application_tag, fields }
    }
}

} // verus!
