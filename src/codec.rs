//! Encoding and decoding of any value by its kind, SEQUENCE fields included.

use vstd::prelude::*;

use crate::bitstring::BitString;
use crate::boolean::Boolean;
use crate::error::Error;
use crate::frame::{decode_frame, encode_frame, slice_from, slice_range, spec_decode_frame, spec_frame};
use crate::generalstring::GeneralString;
use crate::ia5string::IA5String;
use crate::integer::Integer;
use crate::octetstring::OctetString;
use crate::tag::{Tag, TagClass, TagType};
use crate::time::GeneralizedTime;
use crate::value::{
    application_tag, context_tag, field_model, fields_model, items_model, kind_tag,
    sequence_tag, spec_kind_tag, Asn1Kind, Asn1Value, FieldSchema, SequenceSchema,
    ValueModel, SEQUENCE_TAG_NUMBER,
};

verus! {

/// Message for a value whose variant is not the one its kind names.
pub const VALUE_KIND_MISMATCH: &'static str = "value does not match its kind";

/// Message for a sequence value with another count of fields than its schema.
pub const FIELD_COUNT_MISMATCH: &'static str = "field values do not match the schema";

pub open spec fn sequence_error(name: String, e: Error) -> Error {
    Error::SequenceError(name, Box::new(e))
}

pub open spec fn field_error(seq_name: String, field_name: String, e: Error) -> Error {
    Error::SequenceFieldError(seq_name, field_name, Box::new(e))
}

/// A tag error that a context-tagged field reports in the context class.
pub open spec fn in_context(e: Error) -> Error {
    match e {
        Error::EmptyTag(_) => Error::EmptyTag(TagClass::Context),
        Error::NotEnoughTagOctets(_) => Error::NotEnoughTagOctets(TagClass::Context),
        _ => e,
    }
}

/// A tag error of a class other than Context: for an optional field
/// without context tag it means that the field is absent.
pub open spec fn is_absence_error(e: Error) -> bool {
    match e {
        Error::EmptyTag(c) => c != TagClass::Context,
        Error::NotEnoughTagOctets(c) => c != TagClass::Context,
        Error::UnmatchedTag(c) => c != TagClass::Context,
        _ => false,
    }
}

// ---------------------------------------------------------------- encoding

/// The encoding of `v` as a value of `kind`.
pub open spec fn spec_encode(kind: Asn1Kind, v: Asn1Value) -> Result<Seq<u8>, Error>
    decreases v, 2int,
{
    match v {
        Asn1Value::Boolean(b) => match kind {
            Asn1Kind::Boolean => Ok(b.spec_encode()),
            _ => Err(Error::ConstraintError(VALUE_KIND_MISMATCH)),
        },
        Asn1Value::Integer(i) => match kind {
            Asn1Kind::Integer => Ok(i.spec_encode()),
            _ => Err(Error::ConstraintError(VALUE_KIND_MISMATCH)),
        },
        Asn1Value::OctetString(o) => match kind {
            Asn1Kind::OctetString => Ok(o.spec_encode()),
            _ => Err(Error::ConstraintError(VALUE_KIND_MISMATCH)),
        },
        Asn1Value::BitString(b) => match kind {
            Asn1Kind::BitString => Ok(b.spec_encode()),
            _ => Err(Error::ConstraintError(VALUE_KIND_MISMATCH)),
        },
        Asn1Value::GeneralString(g) => match kind {
            Asn1Kind::GeneralString => Ok(g.spec_encode()),
            _ => Err(Error::ConstraintError(VALUE_KIND_MISMATCH)),
        },
        Asn1Value::IA5String(s) => match kind {
            Asn1Kind::IA5String => Ok(s.spec_encode()),
            _ => Err(Error::ConstraintError(VALUE_KIND_MISMATCH)),
        },
        Asn1Value::GeneralizedTime(t) => match kind {
            Asn1Kind::GeneralizedTime => Ok(t.spec_encode()),
            _ => Err(Error::ConstraintError(VALUE_KIND_MISMATCH)),
        },
        Asn1Value::SequenceOf(items) => match kind {
            Asn1Kind::SequenceOf(k) => match spec_encode_items(*k, items@) {
                Ok(c) => Ok(spec_frame(sequence_tag(), c)),
                Err(e) => Err(e),
            },
            _ => Err(Error::ConstraintError(VALUE_KIND_MISMATCH)),
        },
        Asn1Value::Sequence(fields) => match kind {
            Asn1Kind::Sequence(schema) => spec_encode_sequence(*schema, fields@),
            _ => Err(Error::ConstraintError(VALUE_KIND_MISMATCH)),
        },
    }
}

/// The concatenated encodings of the elements of a SEQUENCE OF.
pub open spec fn spec_encode_items(k: Asn1Kind, s: Seq<Asn1Value>) -> Result<Seq<u8>, Error>
    decreases s, 1int,
{
    if s.len() == 0 {
        Ok(seq![])
    } else {
        match spec_encode_items(k, s.drop_last()) {
            Err(e) => Err(e),
            Ok(a) => match spec_encode(k, s.last()) {
                Err(e) => Err(e),
                Ok(b) => Ok(a + b),
            },
        }
    }
}

/// The encoding of a SEQUENCE: its fields framed as SEQUENCE, then wrapped
/// in its application tag if it has one.
pub open spec fn spec_encode_sequence(schema: SequenceSchema, vs: Seq<Option<Asn1Value>>) -> Result<
    Seq<u8>,
    Error,
>
    decreases vs, 1int,
{
    if schema.fields@.len() != vs.len() {
        Err(Error::ConstraintError(FIELD_COUNT_MISMATCH))
    } else {
        match spec_encode_fields(schema.fields@, vs) {
            Err(e) => Err(e),
            Ok(c) => {
                let inner = spec_frame(sequence_tag(), c);
                match schema.application_tag {
                    Some(a) => Ok(spec_frame(application_tag(a), inner)),
                    None => Ok(inner),
                }
            },
        }
    }
}

/// The concatenated encodings of the fields of a SEQUENCE.
pub open spec fn spec_encode_fields(fs: Seq<FieldSchema>, vs: Seq<Option<Asn1Value>>) -> Result<
    Seq<u8>,
    Error,
>
    decreases vs, 0int,
{
    if vs.len() == 0 {
        Ok(seq![])
    } else {
        match spec_encode_fields(fs.drop_last(), vs.drop_last()) {
            Err(e) => Err(e),
            Ok(a) => match spec_encode_field(fs.last(), vs.last()) {
                Err(e) => Err(e),
                Ok(b) => Ok(a + b),
            },
        }
    }
}

/// The encoding of one field: nothing for an absent optional field, else
/// the value's encoding, framed by the context tag if the field has one.
pub open spec fn spec_encode_field(f: FieldSchema, v: Option<Asn1Value>) -> Result<Seq<u8>, Error>
    decreases v, 0int,
{
    match v {
        None => if f.optional {
            Ok(seq![])
        } else {
            Err(Error::NoValue)
        },
        Some(x) => match spec_encode(f.kind, x) {
            Err(e) => Err(e),
            Ok(c) => match f.context_tag {
                Some(t) => Ok(spec_frame(context_tag(t), c)),
                None => Ok(c),
            },
        },
    }
}

// ---------------------------------------------------------------- decoding

/// What decoding a value of `kind` at the start of `raw` gives: the octets
/// read and the value.
pub open spec fn spec_decode(kind: Asn1Kind, raw: Seq<u8>) -> Result<(int, ValueModel), Error>
    decreases raw.len(), 3int, 0int,
{
    match kind {
        Asn1Kind::Boolean => match Boolean::spec_decode(raw) {
            Ok((n, b)) => Ok((n, ValueModel::Boolean(b))),
            Err(e) => Err(e),
        },
        Asn1Kind::Integer => match Integer::spec_decode(raw) {
            Ok((n, i)) => Ok((n, ValueModel::Integer(i))),
            Err(e) => Err(e),
        },
        Asn1Kind::OctetString => match OctetString::spec_decode(raw) {
            Ok((n, o)) => Ok((n, ValueModel::OctetString(o))),
            Err(e) => Err(e),
        },
        Asn1Kind::BitString => match BitString::spec_decode(raw) {
            Ok((n, b)) => Ok((n, ValueModel::BitString(b.0, b.1))),
            Err(e) => Err(e),
        },
        Asn1Kind::GeneralString => match GeneralString::spec_decode(raw) {
            Ok((n, g)) => Ok((n, ValueModel::GeneralString(g))),
            Err(e) => Err(e),
        },
        Asn1Kind::IA5String => match IA5String::spec_decode(raw) {
            Ok((n, s)) => Ok((n, ValueModel::IA5String(s))),
            Err(e) => Err(e),
        },
        Asn1Kind::GeneralizedTime => match GeneralizedTime::spec_decode(raw) {
            Ok((n, t)) => Ok((n, ValueModel::GeneralizedTime(t))),
            Err(e) => Err(e),
        },
        Asn1Kind::SequenceOf(k) => match spec_decode_frame(raw, sequence_tag(), TagClass::Universal) {
            Err(e) => Err(e),
            Ok((h, l)) => if h < 1 || h + l > raw.len() {
                Err(Error::NoDataForLength)
            } else {
                match spec_decode_items(*k, raw.subrange(h, h + l), 0) {
                    Err(e) => Err(e),
                    Ok(items) => Ok((h + l, ValueModel::SequenceOf(items))),
                }
            },
        },
        Asn1Kind::Sequence(schema) => spec_decode_sequence(*schema, raw),
    }
}

/// Elements of kind `k` read one after the other from `cursor` to the end
/// of `region`.
pub open spec fn spec_decode_items(k: Asn1Kind, region: Seq<u8>, cursor: int) -> Result<
    Seq<ValueModel>,
    Error,
>
    decreases region.len(), 5int, region.len() - cursor,
{
    if cursor < 0 || cursor >= region.len() {
        Ok(seq![])
    } else {
        match spec_decode(k, region.subrange(cursor, region.len() as int)) {
            Err(e) => Err(e),
            Ok((n, v)) => if n < 1 || cursor + n > region.len() {
                // every value takes at least one of the octets it is read from
                Err(Error::NoDataForType)
            } else {
                match spec_decode_items(k, region, cursor + n) {
                    Err(e) => Err(e),
                    Ok(rest) => Ok(seq![v] + rest),
                }
            },
        }
    }
}

/// A SEQUENCE read at the start of `raw`, unwrapping its application tag
/// first if it has one.
pub open spec fn spec_decode_sequence(schema: SequenceSchema, raw: Seq<u8>) -> Result<
    (int, ValueModel),
    Error,
>
    decreases raw.len(), 2int, 0int,
{
    match schema.application_tag {
        None => spec_decode_sequence_body(schema, raw),
        Some(a) => match spec_decode_frame(raw, application_tag(a), TagClass::Application) {
            Err(e) => Err(sequence_error(schema.name, e)),
            Ok((h, l)) => if h < 1 || h + l > raw.len() {
                Err(Error::NoDataForLength)
            } else {
                match spec_decode_sequence_body(schema, raw.subrange(h, h + l)) {
                    Err(e) => Err(e),
                    Ok((_, v)) => Ok((h + l, v)),
                }
            },
        },
    }
}

/// The SEQUENCE frame at the start of `raw` and its fields, which must use
/// up all of its value octets.
pub open spec fn spec_decode_sequence_body(schema: SequenceSchema, raw: Seq<u8>) -> Result<
    (int, ValueModel),
    Error,
>
    decreases raw.len(), 1int, 0int,
{
    match spec_decode_frame(raw, sequence_tag(), TagClass::Universal) {
        Err(e) => Err(sequence_error(schema.name, e)),
        Ok((h, l)) => if h < 1 || h + l > raw.len() {
            Err(Error::NoDataForLength)
        } else {
            let region = raw.subrange(h, h + l);
            match spec_decode_fields(schema, region, 0, 0) {
                Err(e) => Err(e),
                Ok((c, ms)) => if c < region.len() {
                    Err(sequence_error(schema.name, Error::NoAllDataConsumed))
                } else {
                    Ok((h + l, ValueModel::Sequence(ms)))
                },
            }
        },
    }
}

/// Fields `i` onwards read from `cursor` in `region`: where the cursor ends
/// and the field values.
pub open spec fn spec_decode_fields(schema: SequenceSchema, region: Seq<u8>, i: int, cursor: int) -> Result<
    (int, Seq<Option<ValueModel>>),
    Error,
>
    decreases region.len(), 5int, schema.fields@.len() - i,
{
    if i < 0 || i >= schema.fields@.len() || cursor < 0 || cursor > region.len() {
        Ok((cursor, seq![]))
    } else {
        match spec_decode_field(
            schema.name,
            schema.fields@[i],
            region.subrange(cursor, region.len() as int),
        ) {
            Err(e) => Err(e),
            Ok((n, m)) => match spec_decode_fields(schema, region, i + 1, cursor + n) {
                Err(e) => Err(e),
                Ok((c, rest)) => Ok((c, seq![m] + rest)),
            },
        }
    }
}

/// One field read at the start of `raw`: the octets read and the value,
/// `None` when an optional field is absent.
pub open spec fn spec_decode_field(seq_name: String, f: FieldSchema, raw: Seq<u8>) -> Result<
    (int, Option<ValueModel>),
    Error,
>
    decreases raw.len(), 4int, 0int,
{
    match f.context_tag {
        None => match spec_decode(f.kind, raw) {
            Ok((n, v)) => Ok((n, Some(v))),
            Err(e) => if f.optional && is_absence_error(e) {
                Ok((0, None))
            } else {
                Err(field_error(seq_name, f.name, e))
            },
        },
        Some(c) => {
            let present = match Tag::spec_decode(raw) {
                Ok((_, t)) => t == context_tag(c),
                Err(_) => false,
            };
            if f.optional && !present {
                Ok((0, None))
            } else {
                match spec_decode_frame(raw, context_tag(c), TagClass::Context) {
                    Err(e) => Err(field_error(seq_name, f.name, in_context(e))),
                    Ok((h, l)) => if h < 1 || h + l > raw.len() {
                        Err(Error::NoDataForLength)
                    } else {
                        let inner = raw.subrange(h, h + l);
                        let inner_tag = Tag::spec_decode(inner);
                        if f.optional && inner_tag is Err {
                            Err(field_error(seq_name, f.name, inner_tag->Err_0))
                        } else if f.optional && inner_tag->Ok_0.1 != spec_kind_tag(f.kind) {
                            Err(field_error(seq_name, f.name, Error::UnmatchedTag(TagClass::Universal)))
                        } else {
                            match spec_decode(f.kind, inner) {
                                Err(e) => Err(field_error(seq_name, f.name, e)),
                                Ok((_, v)) => Ok((h + l, Some(v))),
                            }
                        }
                    },
                }
            }
        },
    }
}

// ------------------------------------------------------------ executable

pub open spec fn prepend_items(p: Seq<ValueModel>, r: Result<Seq<ValueModel>, Error>) -> Result<
    Seq<ValueModel>,
    Error,
> {
    match r {
        Ok(s) => Ok(p + s),
        Err(e) => Err(e),
    }
}

pub open spec fn prepend_fields(
    p: Seq<Option<ValueModel>>,
    r: Result<(int, Seq<Option<ValueModel>>), Error>,
) -> Result<(int, Seq<Option<ValueModel>>), Error> {
    match r {
        Ok((c, s)) => Ok((c, p + s)),
        Err(e) => Err(e),
    }
}

fn to_context(e: Error) -> (r: Error)
    ensures
        r == in_context(e),
{
    match e {
        Error::EmptyTag(_) => Error::EmptyTag(TagClass::Context),
        Error::NotEnoughTagOctets(_) => Error::NotEnoughTagOctets(TagClass::Context),
        _ => e,
    }
}

fn is_absence(e: &Error) -> (r: bool)
    ensures
        r == is_absence_error(*e),
{
    match e {
        Error::EmptyTag(c) => *c != TagClass::Context,
        Error::NotEnoughTagOctets(c) => *c != TagClass::Context,
        Error::UnmatchedTag(c) => *c != TagClass::Context,
        _ => false,
    }
}

/// Encodes `value` as a value of `kind`: tag, length and value octets.
#[verifier::loop_isolation(false)]
pub fn encode(kind: &Asn1Kind, value: &Asn1Value) -> (r: Result<Vec<u8>, Error>)
    ensures
        match (r, spec_encode(*kind, *value)) {
            (Ok(b), Ok(s)) => b@ == s,
            (Err(e), Err(f)) => e == f,
            _ => false,
        },
    decreases value,
{
    match value {
        Asn1Value::Boolean(b) => match kind {
            Asn1Kind::Boolean => Ok(b.encode()),
            _ => Err(Error::ConstraintError(VALUE_KIND_MISMATCH)),
        },
        Asn1Value::Integer(i) => match kind {
            Asn1Kind::Integer => Ok(i.encode()),
            _ => Err(Error::ConstraintError(VALUE_KIND_MISMATCH)),
        },
        Asn1Value::OctetString(o) => match kind {
            Asn1Kind::OctetString => Ok(o.encode()),
            _ => Err(Error::ConstraintError(VALUE_KIND_MISMATCH)),
        },
        Asn1Value::BitString(b) => match kind {
            Asn1Kind::BitString => Ok(b.encode()),
            _ => Err(Error::ConstraintError(VALUE_KIND_MISMATCH)),
        },
        Asn1Value::GeneralString(g) => match kind {
            Asn1Kind::GeneralString => Ok(g.encode()),
            _ => Err(Error::ConstraintError(VALUE_KIND_MISMATCH)),
        },
        Asn1Value::IA5String(x) => match kind {
            Asn1Kind::IA5String => Ok(x.encode()),
            _ => Err(Error::ConstraintError(VALUE_KIND_MISMATCH)),
        },
        Asn1Value::GeneralizedTime(t) => match kind {
            Asn1Kind::GeneralizedTime => Ok(t.encode()),
            _ => Err(Error::ConstraintError(VALUE_KIND_MISMATCH)),
        },
        Asn1Value::SequenceOf(items) => match kind {
            Asn1Kind::SequenceOf(k) => {
                let k: &Asn1Kind = &**k;
                let mut content: Vec<u8> = Vec::new();
                let mut i: usize = 0;
                while i < items.len()
                    invariant
                        i <= items.len(),
                        spec_encode_items(*k, items@.subrange(0, i as int)) == Ok::<
                            Seq<u8>,
                            Error,
                        >(content@),
                    decreases items.len() - i,
                {
                    proof {
                        assert(items@.subrange(0, i + 1).drop_last() =~= items@.subrange(
                            0,
                            i as int,
                        ));
                        assert(items@.subrange(0, i + 1).last() == items@[i as int]);
                        vstd::std_specs::vec::axiom_vec_index_decreases(*items, i as int);
                    }
                    match encode(k, &items[i]) {
                        Ok(b) => {
                            let mut b = b;
                            content.append(&mut b);
                        },
                        Err(e) => {
                            proof {
                                lemma_items_prefix_error(*k, items@, i + 1);
                            }
                            return Err(e);
                        },
                    }
                    i = i + 1;
                }
                proof {
                    assert(items@.subrange(0, items.len() as int) =~= items@);
                }
                Ok(encode_frame(Tag::new_constructed_universal(SEQUENCE_TAG_NUMBER), content))
            },
            _ => Err(Error::ConstraintError(VALUE_KIND_MISMATCH)),
        },
        Asn1Value::Sequence(fields) => match kind {
            Asn1Kind::Sequence(schema) => {
                let schema: &SequenceSchema = &**schema;
                if schema.fields.len() != fields.len() {
                    return Err(Error::ConstraintError(FIELD_COUNT_MISMATCH));
                }
                let mut content: Vec<u8> = Vec::new();
                let mut i: usize = 0;
                while i < fields.len()
                    invariant
                        i <= fields.len() == schema.fields.len(),
                        spec_encode_fields(
                            schema.fields@.subrange(0, i as int),
                            fields@.subrange(0, i as int),
                        ) == Ok::<Seq<u8>, Error>(content@),
                    decreases fields.len() - i,
                {
                    proof {
                        assert(fields@.subrange(0, i + 1).drop_last() =~= fields@.subrange(
                            0,
                            i as int,
                        ));
                        assert(schema.fields@.subrange(0, i + 1).drop_last()
                            =~= schema.fields@.subrange(0, i as int));
                        assert(fields@.subrange(0, i + 1).last() == fields@[i as int]);
                        assert(schema.fields@.subrange(0, i + 1).last() == schema.fields@[i as int]);
                        vstd::std_specs::vec::axiom_vec_index_decreases(*fields, i as int);
                    }
                    let f = &schema.fields[i];
                    match &fields[i] {
                        None => {
                            if !f.optional {
                                proof {
                                    assert(spec_encode_field(schema.fields@[i as int], fields@[i as int])
                                        == Err::<Seq<u8>, Error>(Error::NoValue));
                                    assert(spec_encode_fields(
                                        schema.fields@.subrange(0, i + 1),
                                        fields@.subrange(0, i + 1),
                                    ) is Err);
                                    lemma_fields_prefix_error(schema.fields@, fields@, i + 1);
                                }
                                return Err(Error::NoValue);
                            }
                        },
                        Some(x) => {
                            match encode(&f.kind, x) {
                                Ok(c) => {
                                    let mut framed = match f.context_tag {
                                        Some(t) => encode_frame(
                                            Tag::new(t, TagType::Constructed, TagClass::Context),
                                            c,
                                        ),
                                        None => c,
                                    };
                                    content.append(&mut framed);
                                },
                                Err(e) => {
                                    proof {
                                        lemma_fields_prefix_error(
                                            schema.fields@,
                                            fields@,
                                            i + 1,
                                        );
                                    }
                                    return Err(e);
                                },
                            }
                        },
                    }
                    proof {
                        assert(content@ + Seq::<u8>::empty() =~= content@);
                    }
                    i = i + 1;
                }
                proof {
                    assert(fields@.subrange(0, i as int) =~= fields@);
                    assert(schema.fields@.subrange(0, i as int) =~= schema.fields@);
                }
                let inner = encode_frame(Tag::new_constructed_universal(SEQUENCE_TAG_NUMBER), content);
                match schema.application_tag {
                    Some(a) => Ok(
                        encode_frame(Tag::new(a, TagType::Constructed, TagClass::Application), inner),
                    ),
                    None => Ok(inner),
                }
            },
            _ => Err(Error::ConstraintError(VALUE_KIND_MISMATCH)),
        },
    }
}

/// An element that fails to encode makes the whole list fail with it.
pub proof fn lemma_items_prefix_error(k: Asn1Kind, s: Seq<Asn1Value>, j: int)
    requires
        0 <= j <= s.len(),
        spec_encode_items(k, s.subrange(0, j)) is Err,
    ensures
        spec_encode_items(k, s) == spec_encode_items(k, s.subrange(0, j)),
    decreases s.len() - j,
{
    if j < s.len() {
        assert(s.drop_last().subrange(0, j) =~= s.subrange(0, j));
        lemma_items_prefix_error(k, s.drop_last(), j);
    } else {
        assert(s.subrange(0, j) =~= s);
    }
}

/// A field that fails to encode makes the whole sequence fail with it.
pub proof fn lemma_fields_prefix_error(fs: Seq<FieldSchema>, vs: Seq<Option<Asn1Value>>, j: int)
    requires
        0 <= j <= vs.len() == fs.len(),
        spec_encode_fields(fs.subrange(0, j), vs.subrange(0, j)) is Err,
    ensures
        spec_encode_fields(fs, vs) == spec_encode_fields(fs.subrange(0, j), vs.subrange(0, j)),
    decreases vs.len() - j,
{
    if j < vs.len() {
        assert(vs.drop_last().subrange(0, j) =~= vs.subrange(0, j));
        assert(fs.drop_last().subrange(0, j) =~= fs.subrange(0, j));
        lemma_fields_prefix_error(fs.drop_last(), vs.drop_last(), j);
    } else {
        assert(vs.subrange(0, j) =~= vs);
        assert(fs.subrange(0, j) =~= fs);
    }
}

/// Decodes a value of `kind` at the start of `raw`; gives the octets read
/// and the value.
pub fn decode(kind: &Asn1Kind, raw: &[u8]) -> (r: Result<(usize, Asn1Value), Error>)
    ensures
        match (r, spec_decode(*kind, raw@)) {
            (Ok((n, v)), Ok((m, w))) => n == m && v@ == w && 1 <= n <= raw.len(),
            (Err(e), Err(f)) => e == f,
            _ => false,
        },
    decreases raw.len(), 3int, 0int,
{
    match kind {
        Asn1Kind::Boolean => match Boolean::decode(raw) {
            Ok((n, b)) => Ok((n, Asn1Value::Boolean(b))),
            Err(e) => Err(e),
        },
        Asn1Kind::Integer => match Integer::decode(raw) {
            Ok((n, i)) => Ok((n, Asn1Value::Integer(i))),
            Err(e) => Err(e),
        },
        Asn1Kind::OctetString => match OctetString::decode(raw) {
            Ok((n, o)) => Ok((n, Asn1Value::OctetString(o))),
            Err(e) => Err(e),
        },
        Asn1Kind::BitString => match BitString::decode(raw) {
            Ok((n, b)) => Ok((n, Asn1Value::BitString(b))),
            Err(e) => Err(e),
        },
        Asn1Kind::GeneralString => match GeneralString::decode(raw) {
            Ok((n, g)) => Ok((n, Asn1Value::GeneralString(g))),
            Err(e) => Err(e),
        },
        Asn1Kind::IA5String => match IA5String::decode(raw) {
            Ok((n, x)) => Ok((n, Asn1Value::IA5String(x))),
            Err(e) => Err(e),
        },
        Asn1Kind::GeneralizedTime => match GeneralizedTime::decode(raw) {
            Ok((n, t)) => Ok((n, Asn1Value::GeneralizedTime(t))),
            Err(e) => Err(e),
        },
        Asn1Kind::SequenceOf(k) => {
            let (h, l) = match decode_frame(
                raw,
                Tag::new_constructed_universal(SEQUENCE_TAG_NUMBER),
                TagClass::Universal,
            ) {
                Ok(p) => p,
                Err(e) => return Err(e),
            };
            match decode_items(&**k, slice_range(raw, h, l)) {
                Ok(items) => Ok((h + l, Asn1Value::SequenceOf(items))),
                Err(e) => Err(e),
            }
        },
        Asn1Kind::Sequence(schema) => decode_sequence(&**schema, raw),
    }
}

pub(crate) fn decode_items(k: &Asn1Kind, region: &[u8]) -> (r: Result<Vec<Asn1Value>, Error>)
    ensures
        match (r, spec_decode_items(*k, region@, 0)) {
            (Ok(v), Ok(w)) => items_model(v@) == w,
            (Err(e), Err(f)) => e == f,
            _ => false,
        },
    decreases region.len(), 5int, 0int,
{
    let mut items: Vec<Asn1Value> = Vec::new();
    let mut cursor: usize = 0;
    proof {
        assert(items_model(items@) + Seq::<ValueModel>::empty() =~= Seq::<ValueModel>::empty());
        match spec_decode_items(*k, region@, 0) {
            Ok(w) => {
                assert(items_model(items@) + w =~= w);
            },
            Err(_) => {},
        }
    }
    while cursor < region.len()
        invariant
            cursor <= region.len(),
            spec_decode_items(*k, region@, 0) == prepend_items(
                items_model(items@),
                spec_decode_items(*k, region@, cursor as int),
            ),
        decreases region.len() - cursor,
    {
        let rest = slice_from(region, cursor);
        match decode(k, rest) {
            Ok((n, v)) => {
                let ghost before = items@;
                let ghost w = v@;
                items.push(v);
                proof {
                    assert(items@.drop_last() =~= before);
                    assert(items_model(items@) == items_model(before).push(w));
                    match spec_decode_items(*k, region@, cursor + n) {
                        Ok(tail) => {
                            assert(items_model(before) + (seq![w] + tail) =~= items_model(items@)
                                + tail);
                        },
                        Err(_) => {},
                    }
                }
                cursor = cursor + n;
            },
            Err(e) => {
                return Err(e);
            },
        }
    }
    proof {
        assert(items_model(items@) + Seq::<ValueModel>::empty() =~= items_model(items@));
    }
    Ok(items)
}

fn decode_sequence(schema: &SequenceSchema, raw: &[u8]) -> (r: Result<(usize, Asn1Value), Error>)
    ensures
        match (r, spec_decode_sequence(*schema, raw@)) {
            (Ok((n, v)), Ok((m, w))) => n == m && v@ == w && 1 <= n <= raw.len(),
            (Err(e), Err(f)) => e == f,
            _ => false,
        },
    decreases raw.len(), 2int, 0int,
{
    match schema.application_tag {
        None => decode_sequence_body(schema, raw),
        Some(a) => {
            let (h, l) = match decode_frame(
                raw,
                Tag::new(a, TagType::Constructed, TagClass::Application),
                TagClass::Application,
            ) {
                Ok(p) => p,
                Err(e) => return Err(Error::SequenceError(schema.name.clone(), Box::new(e))),
            };
            match decode_sequence_body(schema, slice_range(raw, h, l)) {
                Ok((_, v)) => Ok((h + l, v)),
                Err(e) => Err(e),
            }
        },
    }
}

fn decode_sequence_body(schema: &SequenceSchema, raw: &[u8]) -> (r: Result<(usize, Asn1Value), Error>)
    ensures
        match (r, spec_decode_sequence_body(*schema, raw@)) {
            (Ok((n, v)), Ok((m, w))) => n == m && v@ == w && 1 <= n <= raw.len(),
            (Err(e), Err(f)) => e == f,
            _ => false,
        },
    decreases raw.len(), 1int, 0int,
{
    let (h, l) = match decode_frame(
        raw,
        Tag::new_constructed_universal(SEQUENCE_TAG_NUMBER),
        TagClass::Universal,
    ) {
        Ok(p) => p,
        Err(e) => return Err(Error::SequenceError(schema.name.clone(), Box::new(e))),
    };
    let region = slice_range(raw, h, l);
    match decode_fields(schema, region) {
        Ok((c, fields)) => {
            if c < region.len() {
                Err(Error::SequenceError(schema.name.clone(), Box::new(Error::NoAllDataConsumed)))
            } else {
                Ok((h + l, Asn1Value::Sequence(fields)))
            }
        },
        Err(e) => Err(e),
    }
}

fn decode_fields(schema: &SequenceSchema, region: &[u8]) -> (r: Result<
    (usize, Vec<Option<Asn1Value>>),
    Error,
>)
    ensures
        match (r, spec_decode_fields(*schema, region@, 0, 0)) {
            (Ok((c, v)), Ok((d, w))) => c == d && fields_model(v@) == w && c <= region.len(),
            (Err(e), Err(f)) => e == f,
            _ => false,
        },
    decreases region.len(), 5int, 0int,
{
    let mut fields: Vec<Option<Asn1Value>> = Vec::new();
    let mut cursor: usize = 0;
    let mut i: usize = 0;
    proof {
        match spec_decode_fields(*schema, region@, 0, 0) {
            Ok((c, w)) => {
                assert(fields_model(fields@) + w =~= w);
            },
            Err(_) => {},
        }
    }
    while i < schema.fields.len()
        invariant
            i <= schema.fields.len(),
            cursor <= region.len(),
            spec_decode_fields(*schema, region@, 0, 0) == prepend_fields(
                fields_model(fields@),
                spec_decode_fields(*schema, region@, i as int, cursor as int),
            ),
        decreases schema.fields.len() - i,
    {
        let rest = slice_from(region, cursor);
        match decode_field(&schema.name, &schema.fields[i], rest) {
            Ok((n, v)) => {
                let ghost before = fields@;
                let ghost w = field_model(v);
                fields.push(v);
                proof {
                    assert(fields@.drop_last() =~= before);
                    assert(fields_model(fields@) == fields_model(before).push(w));
                    match spec_decode_fields(*schema, region@, i + 1, cursor + n) {
                        Ok((c, tail)) => {
                            assert(fields_model(before) + (seq![w] + tail) =~= fields_model(
                                fields@,
                            ) + tail);
                        },
                        Err(_) => {},
                    }
                }
                cursor = cursor + n;
            },
            Err(e) => {
                return Err(e);
            },
        }
        i = i + 1;
    }
    proof {
        assert(fields_model(fields@) + Seq::<Option<ValueModel>>::empty() =~= fields_model(
            fields@,
        ));
    }
    Ok((cursor, fields))
}

fn decode_field(seq_name: &String, f: &FieldSchema, raw: &[u8]) -> (r: Result<
    (usize, Option<Asn1Value>),
    Error,
>)
    ensures
        match (r, spec_decode_field(*seq_name, *f, raw@)) {
            (Ok((n, v)), Ok((m, w))) => n == m && field_model(v) == w && n <= raw.len(),
            (Err(e), Err(g)) => e == g,
            _ => false,
        },
    decreases raw.len(), 4int, 0int,
{
    match f.context_tag {
        None => match decode(&f.kind, raw) {
            Ok((n, v)) => Ok((n, Some(v))),
            Err(e) => {
                if f.optional && is_absence(&e) {
                    Ok((0, None))
                } else {
                    Err(Error::SequenceFieldError(seq_name.clone(), f.name.clone(), Box::new(e)))
                }
            },
        },
        Some(c) => {
            let expected = Tag::new(c, TagType::Constructed, TagClass::Context);
            let present = match Tag::decode(raw) {
                Ok((_, t)) => t == expected,
                Err(_) => false,
            };
            if f.optional && !present {
                return Ok((0, None));
            }
            let (h, l) = match decode_frame(raw, expected, TagClass::Context) {
                Ok(p) => p,
                Err(e) => {
                    return Err(
                        Error::SequenceFieldError(
                            seq_name.clone(),
                            f.name.clone(),
                            Box::new(to_context(e)),
                        ),
                    )
                },
            };
            let inner = slice_range(raw, h, l);
            if f.optional {
                match Tag::decode(inner) {
                    Err(e) => {
                        return Err(
                            Error::SequenceFieldError(seq_name.clone(), f.name.clone(), Box::new(e)),
                        );
                    },
                    Ok((_, t)) => {
                        if t != kind_tag(&f.kind) {
                            return Err(
                                Error::SequenceFieldError(
                                    seq_name.clone(),
                                    f.name.clone(),
                                    Box::new(Error::UnmatchedTag(TagClass::Universal)),
                                ),
                            );
                        }
                    },
                }
            }
            match decode(&f.kind, inner) {
                Ok((_, v)) => Ok((h + l, Some(v))),
                Err(e) => Err(
                    Error::SequenceFieldError(seq_name.clone(), f.name.clone(), Box::new(e)),
                ),
            }
        },
    }
}

/// What decoding an optional value of `kind` at the start of `raw` gives:
/// absent, reading nothing, unless the octets start with the tag of `kind`.
pub open spec fn spec_decode_optional(kind: Asn1Kind, raw: Seq<u8>) -> Result<
    (int, Option<ValueModel>),
    Error,
> {
    match Tag::spec_decode(raw) {
        Err(_) => Ok((0, None)),
        Ok((_, t)) => if t != spec_kind_tag(kind) {
            Ok((0, None))
        } else {
            match spec_decode(kind, raw) {
                Ok((n, v)) => Ok((n, Some(v))),
                Err(e) => Err(e),
            }
        },
    }
}

/// Encodes an optional value: the value's encoding, or nothing when absent.
pub fn encode_optional(kind: &Asn1Kind, value: &Option<Asn1Value>) -> (r: Result<Vec<u8>, Error>)
    ensures
        match value {
            None => r matches Ok(b) && b@.len() == 0,
            Some(v) => match (r, spec_encode(*kind, *v)) {
                (Ok(b), Ok(s)) => b@ == s,
                (Err(e), Err(f)) => e == f,
                _ => false,
            },
        },
{
    match value {
        None => Ok(Vec::new()),
        Some(v) => encode(kind, v),
    }
}

/// Decodes an optional value of `kind` at the start of `raw`: absent, having
/// read nothing, when `raw` does not start with the tag of `kind`.
pub fn decode_optional(kind: &Asn1Kind, raw: &[u8]) -> (r: Result<(usize, Option<Asn1Value>), Error>)
    ensures
        match (r, spec_decode_optional(*kind, raw@)) {
            (Ok((n, v)), Ok((m, w))) => n == m && field_model(v) == w && n <= raw.len(),
            (Err(e), Err(f)) => e == f,
            _ => false,
        },
{
    match Tag::decode(raw) {
        Err(_) => Ok((0, None)),
        Ok((_, t)) => {
            if t != kind_tag(kind) {
                Ok((0, None))
            } else {
                match decode(kind, raw) {
                    Ok((n, v)) => Ok((n, Some(v))),
                    Err(e) => Err(e),
                }
            }
        },
    }
}

} // verus!
