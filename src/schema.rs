//! Building a SEQUENCE schema from declared fields and attributes.

use vstd::prelude::*;
use vstd::utf8::encode_utf8_decode_utf8;

use crate::error::ParseError;
use crate::value::{Asn1Kind, FieldSchema, SequenceSchema};

verus! {

/// Key of the sequence attribute that wraps it in `[APPLICATION n]`.
pub const APPLICATION_TAG_KEY: &'static str = "application_tag";

/// Key of the field attribute that frames it in `[n]`.
pub const CONTEXT_TAG_KEY: &'static str = "context_tag";

/// Key of the field attribute that lets it be absent.
pub const OPTIONAL_KEY: &'static str = "optional";

/// What an attribute key is given.
pub enum AttributeValue {
    /// The key alone, as in `optional`.
    Flag,
    /// An integer literal, as in `context_tag = 3`.
    Integer(u128),
    /// A literal of another kind.
    Other,
}

/// One `key` or `key = value` item of an attribute list.
pub struct Attribute {
    pub key: String,
    pub value: AttributeValue,
}

/// A field as declared: its name, its type when recognised, and its
/// attribute list when it has one.
pub struct FieldDeclaration {
    pub name: String,
    pub kind: Option<Asn1Kind>,
    pub attributes: Option<Vec<Attribute>>,
}

/// A record as declared: its name, its attribute list when it has one, and
/// its named fields (`None` when it is not a record with named fields).
pub struct SequenceDeclaration {
    pub name: String,
    pub attributes: Option<Vec<Attribute>>,
    pub fields: Option<Vec<FieldDeclaration>>,
}

/// A tag number literal: an integer below 256.
pub open spec fn spec_tag_number(v: AttributeValue) -> Result<u8, ParseError> {
    match v {
        AttributeValue::Integer(n) => if n < 256 {
            Ok(n as u8)
        } else {
            Err(ParseError::InvalidTagNumberValue)
        },
        AttributeValue::Other => Err(ParseError::InvalidTagNumberValue),
        AttributeValue::Flag => Err(ParseError::UnknownAttribute),
    }
}

/// The application tag that the attribute list of a sequence gives; the
/// last one given counts.
pub open spec fn spec_sequence_attributes(attrs: Seq<Attribute>) -> Result<Option<u8>, ParseError>
    decreases attrs.len(),
{
    if attrs.len() == 0 {
        Ok(None)
    } else {
        match spec_sequence_attributes(attrs.drop_last()) {
            Err(e) => Err(e),
            Ok(tag) => {
                let a = attrs.last();
                if a.key@ == APPLICATION_TAG_KEY@ {
                    match spec_tag_number(a.value) {
                        Ok(n) => Ok(Some(n)),
                        Err(e) => Err(e),
                    }
                } else {
                    Err(ParseError::UnknownAttribute)
                }
            },
        }
    }
}

/// Whether a field is optional and its context tag, as its attribute list
/// gives them; the last tag given counts.
pub open spec fn spec_field_attributes(attrs: Seq<Attribute>) -> Result<(bool, Option<u8>), ParseError>
    decreases attrs.len(),
{
    if attrs.len() == 0 {
        Ok((false, None))
    } else {
        match spec_field_attributes(attrs.drop_last()) {
            Err(e) => Err(e),
            Ok((optional, tag)) => {
                let a = attrs.last();
                if a.key@ == CONTEXT_TAG_KEY@ {
                    match spec_tag_number(a.value) {
                        Ok(n) => Ok((optional, Some(n))),
                        Err(e) => Err(e),
                    }
                } else if a.key@ == OPTIONAL_KEY@ && a.value is Flag {
                    Ok((true, tag))
                } else {
                    Err(ParseError::UnknownAttribute)
                }
            },
        }
    }
}

pub open spec fn spec_field_attribute_list(attrs: Option<Vec<Attribute>>) -> Result<
    (bool, Option<u8>),
    ParseError,
> {
    match attrs {
        None => Ok((false, None)),
        Some(a) => spec_field_attributes(a@),
    }
}

/// The fields of a schema built from declared fields: a field whose type
/// is not recognised is left out, a bad attribute list fails.
pub open spec fn spec_parse_fields(decls: Seq<FieldDeclaration>) -> Result<Seq<FieldSchema>, ParseError>
    decreases decls.len(),
{
    if decls.len() == 0 {
        Ok(seq![])
    } else {
        match spec_parse_fields(decls.drop_last()) {
            Err(e) => Err(e),
            Ok(done) => {
                let d = decls.last();
                match d.kind {
                    None => Ok(done),
                    Some(kind) => match spec_field_attribute_list(d.attributes) {
                        Err(e) => Err(e),
                        Ok((optional, tag)) => Ok(
                            done.push(
                                FieldSchema { name: d.name, kind, context_tag: tag, optional },
                            ),
                        ),
                    },
                }
            },
        }
    }
}

/// Whether `key` is the text `name`.
#[verifier::loop_isolation(false)]
fn key_is(key: &String, name: &str) -> (r: bool)
    ensures
        r == (key@ == name@),
{
    let a = key.as_str().as_bytes();
    let b = name.as_bytes();
    proof {
        encode_utf8_decode_utf8(key@);
        encode_utf8_decode_utf8(name@);
    }
    if a.len() != b.len() {
        return false;
    }
    let mut i: usize = 0;
    while i < a.len()
        invariant
            i <= a.len() == b.len(),
            forall|j: int| 0 <= j < i ==> a@[j] == b@[j],
        decreases a.len() - i,
    {
        if a[i] != b[i] {
            return false;
        }
        i = i + 1;
    }
    proof {
        assert(a@ =~= b@);
    }
    true
}

fn tag_number(v: &AttributeValue) -> (r: Result<u8, ParseError>)
    ensures
        r == spec_tag_number(*v),
{
    match v {
        AttributeValue::Integer(n) => {
            if *n < 256 {
                Ok(*n as u8)
            } else {
                Err(ParseError::InvalidTagNumberValue)
            }
        },
        AttributeValue::Other => Err(ParseError::InvalidTagNumberValue),
        AttributeValue::Flag => Err(ParseError::UnknownAttribute),
    }
}

/// Reads the attribute list of a sequence: its application tag, if any.
pub fn parse_sequence_attributes(attrs: &Vec<Attribute>) -> (r: Result<Option<u8>, ParseError>)
    ensures
        r == spec_sequence_attributes(attrs@),
{
    let mut tag: Option<u8> = None;
    let mut i: usize = 0;
    while i < attrs.len()
        invariant
            i <= attrs.len(),
            spec_sequence_attributes(attrs@.subrange(0, i as int)) == Ok::<Option<u8>, ParseError>(
                tag,
            ),
        decreases attrs.len() - i,
    {
        let ghost next = attrs@.subrange(0, i + 1);
        proof {
            assert(next.drop_last() =~= attrs@.subrange(0, i as int));
        }
        let a = &attrs[i];
        if !key_is(&a.key, APPLICATION_TAG_KEY) {
            proof {
                lemma_sequence_attributes_prefix_error(attrs@, i + 1);
            }
            return Err(ParseError::UnknownAttribute);
        }
        match tag_number(&a.value) {
            Ok(n) => {
                tag = Some(n);
            },
            Err(e) => {
                proof {
                    lemma_sequence_attributes_prefix_error(attrs@, i + 1);
                }
                return Err(e);
            },
        }
        i = i + 1;
    }
    proof {
        assert(attrs@.subrange(0, i as int) =~= attrs@);
    }
    Ok(tag)
}

/// Reads the attribute list of a field: whether it is optional and its
/// context tag, if any.
pub fn parse_field_attributes(attrs: &Vec<Attribute>) -> (r: Result<(bool, Option<u8>), ParseError>)
    ensures
        r == spec_field_attributes(attrs@),
{
    let mut optional = false;
    let mut tag: Option<u8> = None;
    let mut i: usize = 0;
    while i < attrs.len()
        invariant
            i <= attrs.len(),
            spec_field_attributes(attrs@.subrange(0, i as int)) == Ok::<
                (bool, Option<u8>),
                ParseError,
            >((optional, tag)),
        decreases attrs.len() - i,
    {
        let ghost next = attrs@.subrange(0, i + 1);
        proof {
            assert(next.drop_last() =~= attrs@.subrange(0, i as int));
        }
        let a = &attrs[i];
        if key_is(&a.key, CONTEXT_TAG_KEY) {
            match tag_number(&a.value) {
                Ok(n) => {
                    tag = Some(n);
                },
                Err(e) => {
                    proof {
                        lemma_field_attributes_prefix_error(attrs@, i + 1);
                    }
                    return Err(e);
                },
            }
        } else if key_is(&a.key, OPTIONAL_KEY) && matches!(a.value, AttributeValue::Flag) {
            optional = true;
        } else {
            proof {
                lemma_field_attributes_prefix_error(attrs@, i + 1);
            }
            return Err(ParseError::UnknownAttribute);
        }
        i = i + 1;
    }
    proof {
        assert(attrs@.subrange(0, i as int) =~= attrs@);
    }
    Ok((optional, tag))
}

/// Builds the schema of a declared record: the fields whose type is
/// recognised, with their attributes, then the record's own attributes.
#[verifier::loop_isolation(false)]
pub fn parse_sequence(decl: SequenceDeclaration) -> (r: Result<SequenceSchema, ParseError>)
    ensures
        match decl.fields {
            None => r == Err::<SequenceSchema, ParseError>(ParseError::NotStruct),
            Some(fs) => match spec_parse_fields(fs@) {
                Err(e) => r == Err::<SequenceSchema, ParseError>(e),
                Ok(schemas) => {
                    let app = match decl.attributes {
                        None => Ok(None),
                        Some(a) => spec_sequence_attributes(a@),
                    };
                    match app {
                        Err(e) => r == Err::<SequenceSchema, ParseError>(e),
                        Ok(tag) => r matches Ok(s) && s.name == decl.name && s.application_tag
                            == tag && s.fields@ == schemas,
                    }
                },
            },
        },
{
    let SequenceDeclaration { name, attributes, fields } = decl;
    let mut decls = match fields {
        None => return Err(ParseError::NotStruct),
        Some(f) => f,
    };
    let ghost all = decls@;
    assert(all.len() == decls.len());
    let mut schemas: Vec<FieldSchema> = Vec::new();
    let mut i: usize = 0;
    while decls.len() > 0
        invariant
            i + decls@.len() == all.len() <= usize::MAX,
            decls@ == all.subrange(i as int, all.len() as int),
            spec_parse_fields(all.subrange(0, i as int)) == Ok::<Seq<FieldSchema>, ParseError>(
                schemas@,
            ),
        decreases decls.len(),
    {
        let d = decls.remove(0);
        proof {
            assert(all.subrange(0, i + 1).drop_last() =~= all.subrange(0, i as int));
            assert(all.subrange(0, i + 1).last() == d);
        }
        let FieldDeclaration { name: field_name, kind, attributes: field_attrs } = d;
        match kind {
            None => {},
            Some(kind) => {
                let parsed = match &field_attrs {
                    None => Ok((false, None)),
                    Some(a) => parse_field_attributes(a),
                };
                match parsed {
                    Ok((optional, tag)) => {
                        schemas.push(
                            FieldSchema { name: field_name, kind, context_tag: tag, optional },
                        );
                    },
                    Err(e) => {
                        proof {
                            lemma_parse_fields_prefix_error(all, i + 1);
                        }
                        return Err(e);
                    },
                }
            },
        }
        i = i + 1;
    }
    proof {
        assert(all.subrange(0, i as int) =~= all);
    }
    let application_tag = match &attributes {
        None => None,
        Some(a) => match parse_sequence_attributes(a) {
            Ok(t) => t,
            Err(e) => return Err(e),
        },
    };
    Ok(SequenceSchema { name, application_tag, fields: schemas })
}

pub proof fn lemma_sequence_attributes_prefix_error(attrs: Seq<Attribute>, j: int)
    requires
        0 <= j <= attrs.len(),
        spec_sequence_attributes(attrs.subrange(0, j)) is Err,
    ensures
        spec_sequence_attributes(attrs) == spec_sequence_attributes(attrs.subrange(0, j)),
    decreases attrs.len() - j,
{
    if j < attrs.len() {
        assert(attrs.drop_last().subrange(0, j) =~= attrs.subrange(0, j));
        lemma_sequence_attributes_prefix_error(attrs.drop_last(), j);
    } else {
        assert(attrs.subrange(0, j) =~= attrs);
    }
}

pub proof fn lemma_field_attributes_prefix_error(attrs: Seq<Attribute>, j: int)
    requires
        0 <= j <= attrs.len(),
        spec_field_attributes(attrs.subrange(0, j)) is Err,
    ensures
        spec_field_attributes(attrs) == spec_field_attributes(attrs.subrange(0, j)),
    decreases attrs.len() - j,
{
    if j < attrs.len() {
        assert(attrs.drop_last().subrange(0, j) =~= attrs.subrange(0, j));
        lemma_field_attributes_prefix_error(attrs.drop_last(), j);
    } else {
        assert(attrs.subrange(0, j) =~= attrs);
    }
}

pub proof fn lemma_parse_fields_prefix_error(decls: Seq<FieldDeclaration>, j: int)
    requires
        0 <= j <= decls.len(),
        spec_parse_fields(decls.subrange(0, j)) is Err,
    ensures
        spec_parse_fields(decls) == spec_parse_fields(decls.subrange(0, j)),
    decreases decls.len() - j,
{
    if j < decls.len() {
        assert(decls.drop_last().subrange(0, j) =~= decls.subrange(0, j));
        lemma_parse_fields_prefix_error(decls.drop_last(), j);
    } else {
        assert(decls.subrange(0, j) =~= decls);
    }
}

} // verus!
