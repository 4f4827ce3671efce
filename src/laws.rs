//! Properties that hold across the codecs.

use vstd::prelude::*;
use vstd::utf8::{encode_utf8, encode_utf8_decode_utf8, encode_utf8_valid_utf8};

use crate::bitstring::{pad_last, spec_bit_string_value, BitString};
use crate::codec::{
    sequence_error, spec_decode, spec_decode_items, spec_encode, spec_encode_field,
    spec_encode_fields, spec_encode_items,
};
use crate::error::Error;
use crate::frame::{lemma_frame_other_tag, lemma_object_round_trip, spec_decode_frame, spec_frame};
use crate::ia5string::{spec_decode_ia5_string_value, IA5String};
use crate::integer::{
    int_len, lemma_int_len_bound, lemma_integer_value_round_trip, spec_integer_value, twos_bytes,
};
use crate::length::pow256;
use crate::tag::TagClass;
use crate::time::lemma_time_value_round_trip;
use crate::value::{
    application_tag, field_model, fields_model, items_model, sequence_tag, spec_kind_tag,
    value_model, Asn1Kind, Asn1Value, FieldSchema, SequenceSchema,
};

verus! {

/// A well-formed value of a primitive type, taken as the kind of that type.
pub open spec fn is_primitive_of(kind: Asn1Kind, v: Asn1Value) -> bool {
    match v {
        Asn1Value::Boolean(_) => kind is Boolean,
        Asn1Value::Integer(_) => kind is Integer,
        Asn1Value::OctetString(_) => kind is OctetString,
        Asn1Value::BitString(b) => kind is BitString && b.wf(),
        Asn1Value::GeneralString(_) => kind is GeneralString,
        Asn1Value::IA5String(s) => kind is IA5String && s.wf(),
        Asn1Value::GeneralizedTime(t) => kind is GeneralizedTime && t.wf(),
        _ => false,
    }
}

/// Values that read back as they were written: primitive values as above,
/// SEQUENCE OF values whose elements conform to the element kind, and
/// SEQUENCE values of an unambiguous schema whose fields conform.
pub open spec fn conforms(kind: Asn1Kind, v: Asn1Value) -> bool
    decreases v,
{
    match v {
        Asn1Value::SequenceOf(items) => match kind {
            Asn1Kind::SequenceOf(k) => forall|i: int|
                0 <= i < items@.len() ==> conforms(*k, #[trigger] items@[i]),
            _ => false,
        },
        Asn1Value::Sequence(fields) => match kind {
            Asn1Kind::Sequence(schema) => unambiguous_schema(schema.fields@) && fields_conform(
                schema.fields@,
                fields@,
            ),
            _ => false,
        },
        _ => is_primitive_of(kind, v),
    }
}

/// A primitive value encoded and decoded back, whatever octets follow its
/// encoding, gives the value and the length of the encoding.
#[verifier::rlimit(50)]
pub proof fn lemma_primitive_round_trip(kind: Asn1Kind, v: Asn1Value, rest: Seq<u8>)
    requires
        is_primitive_of(kind, v),
        spec_encode(kind, v) is Ok ==> spec_encode(kind, v)->Ok_0.len() <= usize::MAX,
    ensures
        spec_encode(kind, v) is Ok,
        spec_decode(kind, spec_encode(kind, v)->Ok_0 + rest) == Ok::<(int, _), Error>(
            (spec_encode(kind, v)->Ok_0.len() as int, value_model(v)),
        ),
{
    match v {
        Asn1Value::Boolean(b) => {
            lemma_object_round_trip(
                crate::boolean::Boolean::spec_tag(),
                crate::boolean::spec_boolean_value(b.value),
                |s| crate::boolean::spec_decode_boolean_value(s),
                b.value,
                rest,
            );
        },
        Asn1Value::Integer(i) => {
            let x = i.value as int;
            reveal_with_fuel(pow256, 16);
            lemma_int_len_bound(x, 16);
            lemma_integer_value_round_trip(x);
            lemma_object_round_trip(
                crate::integer::Integer::spec_tag(),
                spec_integer_value(x),
                |s| crate::integer::spec_decode_integer_value(s),
                x,
                rest,
            );
        },
        Asn1Value::OctetString(o) => {
            assert(spec_frame(crate::octetstring::OctetString::spec_tag(), o@).len() >= o@.len());
            lemma_object_round_trip(
                crate::octetstring::OctetString::spec_tag(),
                o@,
                |s| crate::octetstring::spec_decode_octet_string_value(s),
                o@,
                rest,
            );
        },
        Asn1Value::BitString(b) => {
            let value = spec_bit_string_value(b.bytes@, b.padding_length);
            assert(value.drop_first() =~= b.bytes@);
            assert(spec_frame(BitString::spec_tag(), value).len() >= value.len());
            lemma_object_round_trip(
                BitString::spec_tag(),
                value,
                |s| crate::bitstring::spec_decode_bit_string_value(s),
                (b.bytes@, b.padding_length),
                rest,
            );
        },
        Asn1Value::GeneralString(g) => {
            encode_utf8_valid_utf8(g@);
            encode_utf8_decode_utf8(g@);
            assert(spec_frame(crate::generalstring::GeneralString::spec_tag(), encode_utf8(g@)).len()
                >= encode_utf8(g@).len());
            lemma_object_round_trip(
                crate::generalstring::GeneralString::spec_tag(),
                encode_utf8(g@),
                |s| crate::generalstring::spec_decode_general_string_value(s),
                g@,
                rest,
            );
        },
        Asn1Value::IA5String(s) => {
            s.lemma_wf();
            assert(spec_decode_ia5_string_value(s@) == Ok::<Seq<u8>, Error>(s@));
            assert(spec_frame(IA5String::spec_tag(), s@).len() >= s@.len());
            lemma_object_round_trip(
                IA5String::spec_tag(),
                s@,
                |x| spec_decode_ia5_string_value(x),
                s@,
                rest,
            );
        },
        Asn1Value::GeneralizedTime(t) => {
            lemma_time_value_round_trip(t);
            assert(spec_frame(crate::time::GeneralizedTime::spec_tag(), t.spec_value()).len()
                >= t.spec_value().len());
            lemma_object_round_trip(
                crate::time::GeneralizedTime::spec_tag(),
                t.spec_value(),
                |x| crate::time::GeneralizedTime::spec_decode_value(x),
                t,
                rest,
            );
        },
        _ => {},
    }
}

/// Every successful encoding starts with the tag of its kind.
pub proof fn lemma_encoding_starts_with_kind_tag(kind: Asn1Kind, v: Asn1Value)
    requires
        spec_encode(kind, v) is Ok,
    ensures
        exists|c: Seq<u8>| spec_encode(kind, v)->Ok_0 == spec_frame(spec_kind_tag(kind), c),
{
    match v {
        Asn1Value::Boolean(b) => {
            assert(spec_encode(kind, v)->Ok_0 == spec_frame(
                spec_kind_tag(kind),
                crate::boolean::spec_boolean_value(b.value),
            ));
        },
        Asn1Value::Integer(i) => {
            assert(spec_encode(kind, v)->Ok_0 == spec_frame(
                spec_kind_tag(kind),
                spec_integer_value(i.value as int),
            ));
        },
        Asn1Value::OctetString(o) => {
            assert(spec_encode(kind, v)->Ok_0 == spec_frame(spec_kind_tag(kind), o@));
        },
        Asn1Value::BitString(b) => {
            assert(spec_encode(kind, v)->Ok_0 == spec_frame(
                spec_kind_tag(kind),
                spec_bit_string_value(b.bytes@, b.padding_length),
            ));
        },
        Asn1Value::GeneralString(g) => {
            assert(spec_encode(kind, v)->Ok_0 == spec_frame(spec_kind_tag(kind), encode_utf8(g@)));
        },
        Asn1Value::IA5String(s) => {
            assert(spec_encode(kind, v)->Ok_0 == spec_frame(spec_kind_tag(kind), s@));
        },
        Asn1Value::GeneralizedTime(t) => {
            assert(spec_encode(kind, v)->Ok_0 == spec_frame(spec_kind_tag(kind), t.spec_value()));
        },
        Asn1Value::SequenceOf(items) => {
            let c = crate::codec::spec_encode_items(*kind->SequenceOf_0, items@)->Ok_0;
            assert(spec_encode(kind, v)->Ok_0 == spec_frame(spec_kind_tag(kind), c));
        },
        Asn1Value::Sequence(fields) => {
            let schema = *kind->Sequence_0;
            let c = spec_encode_fields(schema.fields@, fields@)->Ok_0;
            let inner = spec_frame(sequence_tag(), c);
            match schema.application_tag {
                Some(a) => {
                    assert(spec_encode(kind, v)->Ok_0 == spec_frame(spec_kind_tag(kind), inner));
                },
                None => {
                    assert(spec_encode(kind, v)->Ok_0 == spec_frame(spec_kind_tag(kind), c));
                },
            }
        },
    }
}

/// Tag discrimination: the encoding of a value of one kind, read as a kind
/// with another leading tag, fails with `UnmatchedTag`; a sequence reports
/// it inside `SequenceError` with the class of the tag it expected.
#[verifier::rlimit(50)]
pub proof fn lemma_tag_discrimination(kind: Asn1Kind, v: Asn1Value, other: Asn1Kind, rest: Seq<u8>)
    requires
        spec_encode(kind, v) is Ok,
        spec_kind_tag(kind) != spec_kind_tag(other),
    ensures
        ({
            let r = spec_decode(other, spec_encode(kind, v)->Ok_0 + rest);
            match other {
                Asn1Kind::Sequence(schema) => match schema.application_tag {
                    Some(_) => r == Err::<(int, crate::value::ValueModel), Error>(
                        sequence_error(schema.name, Error::UnmatchedTag(TagClass::Application)),
                    ),
                    None => r == Err::<(int, crate::value::ValueModel), Error>(
                        sequence_error(schema.name, Error::UnmatchedTag(TagClass::Universal)),
                    ),
                },
                _ => r == Err::<(int, crate::value::ValueModel), Error>(
                    Error::UnmatchedTag(TagClass::Universal),
                ),
            }
        }),
{
    lemma_encoding_starts_with_kind_tag(kind, v);
    let c = choose|c: Seq<u8>| spec_encode(kind, v)->Ok_0 == spec_frame(spec_kind_tag(kind), c);
    let t = spec_kind_tag(kind);
    let u = spec_kind_tag(other);
    let raw = spec_frame(t, c) + rest;
    lemma_frame_other_tag(t, u, c, rest, TagClass::Universal);
    lemma_frame_other_tag(t, u, c, rest, TagClass::Application);
    match other {
        Asn1Kind::Sequence(schema) => {
            match schema.application_tag {
                Some(a) => {
                    assert(u == application_tag(a));
                    assert(spec_decode_frame(raw, application_tag(a), TagClass::Application)
                        == Err::<(int, int), Error>(Error::UnmatchedTag(TagClass::Application)));
                    assert(crate::codec::spec_decode_sequence(*schema, raw) == Err::<(int, crate::value::ValueModel), Error>(
                        sequence_error(schema.name, Error::UnmatchedTag(TagClass::Application))));
                },
                None => {
                    assert(u == sequence_tag());
                    assert(spec_decode_frame(raw, sequence_tag(), TagClass::Universal) == Err::<
                        (int, int),
                        Error,
                    >(Error::UnmatchedTag(TagClass::Universal)));
                    assert(crate::codec::spec_decode_sequence_body(*schema, raw) == Err::<(int, crate::value::ValueModel), Error>(
                        sequence_error(schema.name, Error::UnmatchedTag(TagClass::Universal))));
                    assert(crate::codec::spec_decode_sequence(*schema, raw) == Err::<(int, crate::value::ValueModel), Error>(
                        sequence_error(schema.name, Error::UnmatchedTag(TagClass::Universal))));
                },
            }
        },
        Asn1Kind::SequenceOf(_) => {
            assert(u == sequence_tag());
            assert(spec_decode(other, raw) == Err::<(int, crate::value::ValueModel), Error>(Error::UnmatchedTag(TagClass::Universal)));
        },
        _ => {
            assert(spec_decode_frame(raw, u, TagClass::Universal) == Err::<(int, int), Error>(
                Error::UnmatchedTag(TagClass::Universal),
            ));
        },
    }
}

/// Integer canonicity: the value octets of an integer never begin with a
/// `00` octet followed by one below `80`, nor with `FF` followed by one of
/// `80` or more; either leading octet could be dropped without changing the
/// two's complement value.
pub proof fn lemma_integer_canonical(v: int)
    ensures
        spec_integer_value(v).len() >= 2 ==> {
            let s = spec_integer_value(v);
            &&& (s[0] == 0 ==> s[1] >= 128)
            &&& (s[0] == 255 ==> s[1] < 128)
        },
    decreases (if v < 0 {
        -v
    } else {
        v
    }),
{
    lemma_integer_value_round_trip(v);
    if !(-128 <= v < 128) {
        let w = v / 256;
        let s = twos_bytes(v, int_len(v));
        let t = twos_bytes(w, int_len(w));
        lemma_integer_value_round_trip(w);
        assert(s == t.push((v % 256) as u8));
        if int_len(w) >= 2 {
            lemma_integer_canonical(w);
            assert(s[0] == t[0] && s[1] == t[1]);
        } else {
            reveal_with_fuel(twos_bytes, 2);
            assert(t =~= seq![(w % 256) as u8]);
            assert(s.len() == 2);
            assert(s[0] == (w % 256) as u8);
            assert(s[1] == (v % 256) as u8);
            assert(v == 256 * w + v % 256);
            reveal_with_fuel(int_len, 2);
            assert(-128 <= w < 128);
            assert(w >= 0 ==> w % 256 == w) by (nonlinear_arith)
                requires
                    -128 <= w < 128,
            ;
            assert(w < 0 ==> w % 256 == w + 256) by (nonlinear_arith)
                requires
                    -128 <= w < 128,
            ;
            if s[0] == 0 {
                assert(w == 0);
            }
            if s[0] == 255 {
                assert(w == -1);
            }
        }
    }
}

/// BitString padding: the last encoded octet of a bit string built from
/// octets ending in `b` with `p` unused bits is `b & (0xFF << p)`.
pub proof fn lemma_bit_string_padding(bytes: Seq<u8>, p: u8)
    requires
        bytes.len() > 0,
        p <= 7,
    ensures
        spec_bit_string_value(pad_last(bytes, p), p).last() == bytes.last() & (0xFFu8 << p),
{
}

/// Optional absence: an absent optional field adds no octets to the value
/// of its SEQUENCE; the fields encode as if it were not declared.
pub proof fn lemma_optional_absence(fs: Seq<FieldSchema>, vs: Seq<Option<Asn1Value>>, i: int)
    requires
        fs.len() == vs.len(),
        0 <= i < vs.len(),
        vs[i] is None,
        fs[i].optional,
    ensures
        spec_encode_field(fs[i], vs[i]) == Ok::<Seq<u8>, Error>(seq![]),
        spec_encode_fields(fs, vs) == spec_encode_fields(fs.remove(i), vs.remove(i)),
    decreases vs.len(),
{
    if i == vs.len() - 1 {
        assert(fs.remove(i) =~= fs.drop_last());
        assert(vs.remove(i) =~= vs.drop_last());
        match spec_encode_fields(fs.drop_last(), vs.drop_last()) {
            Ok(a) => {
                assert(a + seq![] =~= a);
            },
            Err(_) => {},
        }
    } else {
        lemma_optional_absence(fs.drop_last(), vs.drop_last(), i);
        assert(fs.remove(i).drop_last() =~= fs.drop_last().remove(i));
        assert(vs.remove(i).drop_last() =~= vs.drop_last().remove(i));
        assert(fs.remove(i).last() == fs.last());
        assert(vs.remove(i).last() == vs.last());
    }
}

/// The model of a list of values is the list of their models.
pub proof fn lemma_items_model_map(s: Seq<Asn1Value>)
    ensures
        items_model(s) =~= s.map_values(|v: Asn1Value| value_model(v)),
    decreases s.len(),
{
    if s.len() > 0 {
        lemma_items_model_map(s.drop_last());
    }
}

/// The encodings of the first `j` elements are a prefix of the encodings of
/// all of them.
pub proof fn lemma_items_encoding_prefix(k: Asn1Kind, s: Seq<Asn1Value>, j: int)
    requires
        0 <= j <= s.len(),
        forall|i: int| 0 <= i < s.len() ==> conforms(k, #[trigger] s[i]),
    ensures
        spec_encode_items(k, s.subrange(0, j)) is Ok,
        spec_encode_items(k, s) is Ok,
        spec_encode_items(k, s.subrange(0, j))->Ok_0.len() <= spec_encode_items(k, s)->Ok_0.len(),
        spec_encode_items(k, s)->Ok_0.subrange(0, spec_encode_items(k, s.subrange(0, j))->Ok_0.len() as int)
            == spec_encode_items(k, s.subrange(0, j))->Ok_0,
    decreases s,
{
    if s.len() == 0 {
        assert(s.subrange(0, j) =~= s);
    } else {
        let p = s.drop_last();
        assert forall|i: int| 0 <= i < p.len() implies conforms(k, #[trigger] p[i]) by {
            assert(p[i] == s[i]);
        }
        assert(conforms(k, s[s.len() - 1]));
        lemma_conforming_encodes(k, s.last());
        if j == s.len() {
            lemma_items_encoding_prefix(k, p, 0);
            assert(s.subrange(0, j) =~= s);
            let c = spec_encode_items(k, s)->Ok_0;
            assert(c.subrange(0, c.len() as int) =~= c);
        } else {
            lemma_items_encoding_prefix(k, p, j);
            assert(p.subrange(0, j) =~= s.subrange(0, j));
            let a = spec_encode_items(k, p)->Ok_0;
            let b = spec_encode(k, s.last())->Ok_0;
            let q = spec_encode_items(k, s.subrange(0, j))->Ok_0;
            assert((a + b).subrange(0, q.len() as int) =~= a.subrange(0, q.len() as int));
        }
    }
}

/// A value that conforms to its kind always encodes, into at least two
/// octets.
pub proof fn lemma_conforming_encodes(kind: Asn1Kind, v: Asn1Value)
    requires
        conforms(kind, v),
    ensures
        spec_encode(kind, v) is Ok,
        spec_encode(kind, v)->Ok_0.len() >= 2,
    decreases v,
{
    match v {
        Asn1Value::SequenceOf(items) => {
            let k = *kind->SequenceOf_0;
            lemma_items_encoding_prefix(k, items@, 0);
            let c = spec_encode_items(k, items@)->Ok_0;
            assert(spec_encode(kind, v) == Ok::<Seq<u8>, Error>(spec_frame(sequence_tag(), c)));
            crate::frame::lemma_frame_len(sequence_tag(), c);
        },
        Asn1Value::Sequence(fields) => {
            let schema = *kind->Sequence_0;
            lemma_fields_encoding_prefix(schema.fields@, fields@, 0);
            let c = spec_encode_fields(schema.fields@, fields@)->Ok_0;
            let inner = spec_frame(sequence_tag(), c);
            crate::frame::lemma_frame_len(sequence_tag(), c);
            match schema.application_tag {
                Some(a) => {
                    crate::frame::lemma_frame_len(application_tag(a), inner);
                },
                None => {},
            }
        },
        _ => {
            assert(is_primitive_of(kind, v));
            lemma_encoding_starts_with_kind_tag(kind, v);
            let c = choose|c: Seq<u8>| spec_encode(kind, v)->Ok_0 == spec_frame(spec_kind_tag(kind), c);
            crate::frame::lemma_frame_len(spec_kind_tag(kind), c);
        },
    }
}

/// Round trip with prefix tolerance: a value that conforms to its kind,
/// encoded and decoded back, whatever octets follow its encoding, gives the
/// same value and the length of the encoding. With nothing after it this is
/// the plain round trip. Conformance leaves out, among others, schemas with
/// an optional field without context tag: with `a` such a field before a
/// required `b` of the same type, an absent `a` is read back from `b`'s
/// octets and `b` is then missing.
pub proof fn lemma_round_trip(kind: Asn1Kind, v: Asn1Value, rest: Seq<u8>)
    requires
        conforms(kind, v),
        spec_encode(kind, v) is Ok ==> spec_encode(kind, v)->Ok_0.len() <= usize::MAX,
    ensures
        spec_encode(kind, v) is Ok,
        spec_decode(kind, spec_encode(kind, v)->Ok_0 + rest) == Ok::<(int, _), Error>(
            (spec_encode(kind, v)->Ok_0.len() as int, value_model(v)),
        ),
    decreases v, 1int,
{
    lemma_conforming_encodes(kind, v);
    match v {
        Asn1Value::SequenceOf(items) => {
            let k = *kind->SequenceOf_0;
            let s = items@;
            lemma_items_encoding_prefix(k, s, 0);
            let c = spec_encode_items(k, s)->Ok_0;
            assert(spec_encode(kind, v) == Ok::<Seq<u8>, Error>(spec_frame(sequence_tag(), c)));
            crate::frame::lemma_frame_round_trip(sequence_tag(), c, rest, TagClass::Universal);
            lemma_decode_items_from(k, s, 0, c);
            lemma_items_model_map(s);
            assert(s.subrange(0, s.len() as int) =~= s);
        },
        Asn1Value::Sequence(fields) => {
            assert(Asn1Kind::Sequence(Box::new(*kind->Sequence_0)) == kind);
            lemma_sequence_round_trip(*kind->Sequence_0, v, rest);
        },
        _ => {
            lemma_primitive_round_trip(kind, v, rest);
        },
    }
}

/// Decoding the concatenated encodings from the end of the first `j` of
/// them gives the models of the others.
proof fn lemma_decode_items_from(k: Asn1Kind, s: Seq<Asn1Value>, j: int, c: Seq<u8>)
    requires
        0 <= j <= s.len(),
        forall|i: int| 0 <= i < s.len() ==> conforms(k, #[trigger] s[i]),
        spec_encode_items(k, s) == Ok::<Seq<u8>, Error>(c),
        c.len() <= usize::MAX,
    ensures
        spec_decode_items(k, c, spec_encode_items(k, s.subrange(0, j))->Ok_0.len() as int)
            == Ok::<Seq<crate::value::ValueModel>, Error>(
            s.subrange(j, s.len() as int).map_values(|v: Asn1Value| value_model(v)),
        ),
    decreases s, s.len() - j,
{
    lemma_items_encoding_prefix(k, s, j);
    let cur = spec_encode_items(k, s.subrange(0, j))->Ok_0.len() as int;
    if j == s.len() {
        assert(s.subrange(0, j) =~= s);
        assert(s.subrange(j, s.len() as int).map_values(|v: Asn1Value| value_model(v)) =~= Seq::<
            crate::value::ValueModel,
        >::empty());
    } else {
        lemma_items_encoding_prefix(k, s, j + 1);
        let next = spec_encode_items(k, s.subrange(0, j + 1))->Ok_0;
        let pre = spec_encode_items(k, s.subrange(0, j))->Ok_0;
        assert(s.subrange(0, j + 1).drop_last() =~= s.subrange(0, j));
        assert(s.subrange(0, j + 1).last() == s[j]);
        assert(conforms(k, s[j]));
        lemma_conforming_encodes(k, s[j]);
        let e = spec_encode(k, s[j])->Ok_0;
        assert(next == pre + e);
        let after = c.subrange(next.len() as int, c.len() as int);
        let lhs = c.subrange(cur, c.len() as int);
        assert(c.subrange(0, next.len() as int) == next);
        assert(next.len() == cur + e.len());
        assert forall|i: int| 0 <= i < lhs.len() implies lhs[i] == (e + after)[i] by {
            assert(lhs[i] == c[cur + i]);
            if i < e.len() {
                assert(c.subrange(0, next.len() as int)[cur + i] == c[cur + i]);
                assert(next[cur + i] == e[i]);
            } else {
                assert(after[i - e.len()] == c[next.len() + i - e.len()]);
            }
        }
        assert(lhs =~= e + after);
        lemma_round_trip(k, s[j], after);
        lemma_decode_items_from(k, s, j + 1, c);
        assert(s.subrange(j, s.len() as int).map_values(|v: Asn1Value| value_model(v)) =~= seq![
            value_model(s[j]),
        ] + s.subrange(j + 1, s.len() as int).map_values(|v: Asn1Value| value_model(v)));
    }
}

/// The tag that starts the encoding of a present field.
pub open spec fn field_leading_tag(f: FieldSchema) -> crate::tag::Tag {
    match f.context_tag {
        Some(c) => crate::value::context_tag(c),
        None => spec_kind_tag(f.kind),
    }
}

/// A schema whose encodings read back unambiguously: every optional field
/// has a context tag, and no two fields share one.
pub open spec fn unambiguous_schema(fs: Seq<FieldSchema>) -> bool {
    &&& forall|i: int| 0 <= i < fs.len() && #[trigger] fs[i].optional ==> fs[i].context_tag is Some
    &&& forall|i: int, j: int|
        0 <= i < j < fs.len() && (#[trigger] fs[i]).context_tag is Some && (#[trigger] fs[j]).context_tag
            is Some ==> fs[i].context_tag != fs[j].context_tag
}

/// Field values that fit the schema: one per field, absent only where the
/// field is optional, and present ones conforming to their kind.
pub open spec fn fields_conform(fs: Seq<FieldSchema>, vs: Seq<Option<Asn1Value>>) -> bool
    decreases vs,
{
    &&& fs.len() == vs.len()
    &&& forall|i: int|
        0 <= i < vs.len() ==> match #[trigger] vs[i] {
            None => fs[i].optional,
            Some(x) => conforms(fs[i].kind, x),
        }
}

/// Encoding of the first `j` fields.
pub open spec fn fields_prefix(fs: Seq<FieldSchema>, vs: Seq<Option<Asn1Value>>, j: int) -> Seq<u8> {
    spec_encode_fields(fs.subrange(0, j), vs.subrange(0, j))->Ok_0
}

proof fn lemma_field_encodes(f: FieldSchema, v: Option<Asn1Value>)
    requires
        match v {
            None => f.optional,
            Some(x) => conforms(f.kind, x),
        },
    ensures
        spec_encode_field(f, v) is Ok,
        v is None ==> spec_encode_field(f, v)->Ok_0.len() == 0,
        v is Some ==> spec_encode_field(f, v)->Ok_0.len() >= 2,
    decreases v,
{
    match v {
        None => {},
        Some(x) => {
            lemma_conforming_encodes(f.kind, x);
            match f.context_tag {
                Some(c) => {
                    crate::frame::lemma_frame_len(
                        crate::value::context_tag(c),
                        spec_encode(f.kind, x)->Ok_0,
                    );
                },
                None => {},
            }
        },
    }
}

/// The encodings of the first `j` fields are a prefix of those of all of
/// them, and adding field `j` appends its own encoding.
proof fn lemma_fields_encoding_prefix(fs: Seq<FieldSchema>, vs: Seq<Option<Asn1Value>>, j: int)
    requires
        0 <= j <= vs.len(),
        fields_conform(fs, vs),
    ensures
        spec_encode_fields(fs.subrange(0, j), vs.subrange(0, j)) is Ok,
        spec_encode_fields(fs, vs) is Ok,
        fields_prefix(fs, vs, j).len() <= spec_encode_fields(fs, vs)->Ok_0.len(),
        spec_encode_fields(fs, vs)->Ok_0.subrange(0, fields_prefix(fs, vs, j).len() as int)
            == fields_prefix(fs, vs, j),
        j < vs.len() ==> fields_prefix(fs, vs, j + 1) == fields_prefix(fs, vs, j)
            + spec_encode_field(fs[j], vs[j])->Ok_0,
    decreases vs,
{
    if vs.len() == 0 {
        assert(vs.subrange(0, j) =~= vs);
        assert(fs.subrange(0, j) =~= fs);
    } else {
        let p = vs.drop_last();
        let q = fs.drop_last();
        assert(fields_conform(q, p)) by {
            assert forall|i: int| 0 <= i < p.len() implies match #[trigger] p[i] {
                None => q[i].optional,
                Some(x) => conforms(q[i].kind, x),
            } by {
                assert(p[i] == vs[i]);
                assert(q[i] == fs[i]);
            }
        }
        let last = vs.len() - 1;
        assert(match vs[last] {
            None => fs[last].optional,
            Some(x) => conforms(fs[last].kind, x),
        });
        lemma_field_encodes(fs.last(), vs.last());
        if j == vs.len() {
            lemma_fields_encoding_prefix(q, p, 0);
            assert(vs.subrange(0, j) =~= vs);
            assert(fs.subrange(0, j) =~= fs);
            let c = spec_encode_fields(fs, vs)->Ok_0;
            assert(c.subrange(0, c.len() as int) =~= c);
        } else {
            lemma_fields_encoding_prefix(q, p, j);
            assert(p.subrange(0, j) =~= vs.subrange(0, j));
            assert(q.subrange(0, j) =~= fs.subrange(0, j));
            let a = spec_encode_fields(q, p)->Ok_0;
            let b = spec_encode_field(fs.last(), vs.last())->Ok_0;
            let pre = fields_prefix(fs, vs, j);
            assert((a + b).subrange(0, pre.len() as int) =~= a.subrange(0, pre.len() as int));
            if j + 1 < vs.len() {
                assert(p.subrange(0, j + 1) =~= vs.subrange(0, j + 1));
                assert(q.subrange(0, j + 1) =~= fs.subrange(0, j + 1));
                assert(p[j] == vs[j] && q[j] == fs[j]);
            } else {
                assert(vs.subrange(0, j + 1) =~= vs);
                assert(fs.subrange(0, j + 1) =~= fs);
                assert(vs.drop_last() =~= vs.subrange(0, j));
                assert(fs.drop_last() =~= fs.subrange(0, j));
            }
        }
    }
}

/// The encoding of a value, whatever follows it, starts with the tag of its
/// kind.
proof fn lemma_value_leading_tag(kind: Asn1Kind, x: Asn1Value, after: Seq<u8>)
    requires
        spec_encode(kind, x) is Ok,
    ensures
        crate::tag::Tag::spec_decode(spec_encode(kind, x)->Ok_0 + after) is Ok,
        crate::tag::Tag::spec_decode(spec_encode(kind, x)->Ok_0 + after)->Ok_0.1 == spec_kind_tag(
            kind,
        ),
{
    lemma_encoding_starts_with_kind_tag(kind, x);
    let body = spec_encode(kind, x)->Ok_0;
    let kt = spec_kind_tag(kind);
    let inner = choose|cc: Seq<u8>| body == spec_frame(kt, cc);
    assert(body + after =~= kt.spec_encode() + (crate::length::spec_encode_length(inner.len())
        + inner + after));
    crate::tag::lemma_tag_round_trip(
        kt,
        crate::length::spec_encode_length(inner.len()) + inner + after,
    );
}

/// The encoding of a present field, whatever follows it, starts with the
/// field's leading tag.
proof fn lemma_field_leading_tag(f: FieldSchema, x: Asn1Value, after: Seq<u8>)
    requires
        conforms(f.kind, x),
    ensures
        spec_encode_field(f, Some(x)) is Ok,
        crate::tag::Tag::spec_decode(spec_encode_field(f, Some(x))->Ok_0 + after) is Ok,
        crate::tag::Tag::spec_decode(spec_encode_field(f, Some(x))->Ok_0 + after)->Ok_0.1
            == field_leading_tag(f),
{
    lemma_conforming_encodes(f.kind, x);
    let body = spec_encode(f.kind, x)->Ok_0;
    let e = spec_encode_field(f, Some(x))->Ok_0;
    match f.context_tag {
        Some(t) => {
            let ct = crate::value::context_tag(t);
            assert(e == spec_frame(ct, body));
            assert(e + after =~= ct.spec_encode() + (crate::length::spec_encode_length(body.len())
                + body + after));
            crate::tag::lemma_tag_round_trip(
                ct,
                crate::length::spec_encode_length(body.len()) + body + after,
            );
        },
        None => {
            assert(e == body);
            lemma_value_leading_tag(f.kind, x, after);
        },
    }
}

/// What follows the first `k` fields is empty or starts with the tag of a
/// later present field.
proof fn lemma_rest_leading_tag(
    fs: Seq<FieldSchema>,
    vs: Seq<Option<Asn1Value>>,
    k: int,
    c: Seq<u8>,
)
    requires
        0 <= k <= vs.len(),
        fields_conform(fs, vs),
        spec_encode_fields(fs, vs) == Ok::<Seq<u8>, Error>(c),
    ensures
        ({
            let rest = c.subrange(fields_prefix(fs, vs, k).len() as int, c.len() as int);
            rest.len() == 0 || exists|m: int|
                k <= m < vs.len() && (#[trigger] vs[m]) is Some && crate::tag::Tag::spec_decode(
                    rest,
                ) is Ok && crate::tag::Tag::spec_decode(rest)->Ok_0.1 == field_leading_tag(fs[m])
        }),
    decreases vs.len() - k,
{
    lemma_fields_encoding_prefix(fs, vs, k);
    let cur = fields_prefix(fs, vs, k).len() as int;
    let rest = c.subrange(cur, c.len() as int);
    if k == vs.len() {
        assert(vs.subrange(0, k) =~= vs);
        assert(fs.subrange(0, k) =~= fs);
        assert(rest.len() == 0);
    } else {
        lemma_fields_encoding_prefix(fs, vs, k + 1);
        let e = spec_encode_field(fs[k], vs[k])->Ok_0;
        let next = fields_prefix(fs, vs, k + 1);
        let after = c.subrange(next.len() as int, c.len() as int);
        assert(c.subrange(0, next.len() as int) == next);
        assert(rest =~= e + after) by {
            assert forall|i: int| 0 <= i < rest.len() implies rest[i] == (e + after)[i] by {
                assert(rest[i] == c[cur + i]);
                if i < e.len() {
                    assert(c.subrange(0, next.len() as int)[cur + i] == c[cur + i]);
                    assert(next[cur + i] == e[i]);
                }
            }
        }
        match vs[k] {
            None => {
                assert(e.len() == 0) by {
                    assert(fs[k].optional);
                }
                assert(rest =~= after);
                lemma_rest_leading_tag(fs, vs, k + 1, c);
            },
            Some(x) => {
                assert(conforms(fs[k].kind, x));
                lemma_field_leading_tag(fs[k], x, after);
                assert(e == spec_encode_field(fs[k], Some(x))->Ok_0);
                assert(vs[k] is Some);
                assert(crate::tag::Tag::spec_decode(rest)->Ok_0.1 == field_leading_tag(fs[k]));
            },
        }
    }
}

/// The model of a list of field values is the list of their models.
pub proof fn lemma_fields_model_map(s: Seq<Option<Asn1Value>>)
    ensures
        fields_model(s) =~= s.map_values(|f: Option<Asn1Value>| field_model(f)),
    decreases s.len(),
{
    if s.len() > 0 {
        lemma_fields_model_map(s.drop_last());
    }
}

/// The octets after the first `j` fields are those of field `j`, then those
/// of the fields after it.
proof fn lemma_fields_split(fs: Seq<FieldSchema>, vs: Seq<Option<Asn1Value>>, j: int, c: Seq<u8>)
    requires
        0 <= j < vs.len(),
        fields_conform(fs, vs),
        spec_encode_fields(fs, vs) == Ok::<Seq<u8>, Error>(c),
    ensures
        c.subrange(fields_prefix(fs, vs, j).len() as int, c.len() as int) =~= spec_encode_field(
            fs[j],
            vs[j],
        )->Ok_0 + c.subrange(fields_prefix(fs, vs, j + 1).len() as int, c.len() as int),
        fields_prefix(fs, vs, j + 1).len() == fields_prefix(fs, vs, j).len() + spec_encode_field(
            fs[j],
            vs[j],
        )->Ok_0.len(),
{
    lemma_fields_encoding_prefix(fs, vs, j);
    lemma_fields_encoding_prefix(fs, vs, j + 1);
    let cur = fields_prefix(fs, vs, j).len() as int;
    let e = spec_encode_field(fs[j], vs[j])->Ok_0;
    let next = fields_prefix(fs, vs, j + 1);
    let after = c.subrange(next.len() as int, c.len() as int);
    let rest = c.subrange(cur, c.len() as int);
    assert(c.subrange(0, next.len() as int) == next);
    assert forall|i: int| 0 <= i < rest.len() implies rest[i] == (e + after)[i] by {
        assert(rest[i] == c[cur + i]);
        if i < e.len() {
            assert(c.subrange(0, next.len() as int)[cur + i] == c[cur + i]);
            assert(next[cur + i] == e[i]);
        }
    }
}

/// No kind starts with a context-class tag.
proof fn lemma_kind_tag_not_context(kind: Asn1Kind)
    ensures
        spec_kind_tag(kind).tag_class != TagClass::Context,
{
}

/// One field read back from its encoding followed by those of the later
/// fields.
proof fn lemma_decode_one_field(
    name: String,
    fs: Seq<FieldSchema>,
    vs: Seq<Option<Asn1Value>>,
    j: int,
    c: Seq<u8>,
)
    requires
        0 <= j < vs.len(),
        fields_conform(fs, vs),
        unambiguous_schema(fs),
        spec_encode_fields(fs, vs) == Ok::<Seq<u8>, Error>(c),
        c.len() <= usize::MAX,
    ensures
        crate::codec::spec_decode_field(
            name,
            fs[j],
            c.subrange(fields_prefix(fs, vs, j).len() as int, c.len() as int),
        ) == Ok::<(int, Option<crate::value::ValueModel>), Error>(
            (spec_encode_field(fs[j], vs[j])->Ok_0.len() as int, field_model(vs[j])),
        ),
    decreases vs, 0int,
{
    lemma_fields_split(fs, vs, j, c);
    lemma_fields_encoding_prefix(fs, vs, j + 1);
    let f = fs[j];
    let e = spec_encode_field(f, vs[j])->Ok_0;
    let after = c.subrange(fields_prefix(fs, vs, j + 1).len() as int, c.len() as int);
    let rem = c.subrange(fields_prefix(fs, vs, j).len() as int, c.len() as int);
    assert(rem == e + after);
    assert(match vs[j] {
        None => f.optional,
        Some(x) => conforms(f.kind, x),
    });
    lemma_field_encodes(f, vs[j]);
    assert(e.len() <= c.len());
    match vs[j] {
        Some(x) => {
            let body = spec_encode(f.kind, x)->Ok_0;
            lemma_conforming_encodes(f.kind, x);
            match f.context_tag {
                None => {
                    assert(e == body);
                    lemma_round_trip(f.kind, x, after);
                },
                Some(t) => {
                    let ct = crate::value::context_tag(t);
                    assert(e == spec_frame(ct, body));
                    lemma_field_leading_tag(f, x, after);
                    crate::frame::lemma_frame_round_trip(ct, body, after, TagClass::Context);
                    crate::frame::lemma_frame_len(ct, body);
                    let inner_tag = crate::tag::Tag::spec_decode(body);
                    lemma_value_leading_tag(f.kind, x, Seq::<u8>::empty());
                    assert(body + Seq::<u8>::empty() =~= body);
                    lemma_round_trip(f.kind, x, Seq::<u8>::empty());
                },
            }
        },
        None => {
            assert(f.context_tag is Some);
            let t = f.context_tag->Some_0;
            assert(e.len() == 0);
            assert(rem =~= after);
            lemma_rest_leading_tag(fs, vs, j + 1, c);
            if after.len() != 0 {
                let m = choose|m: int|
                    j + 1 <= m < vs.len() && (#[trigger] vs[m]) is Some
                        && crate::tag::Tag::spec_decode(after) is Ok
                        && crate::tag::Tag::spec_decode(after)->Ok_0.1 == field_leading_tag(fs[m]);
                match fs[m].context_tag {
                    Some(u) => {
                        assert(fs[j].context_tag != fs[m].context_tag);
                    },
                    None => {
                        lemma_kind_tag_not_context(fs[m].kind);
                    },
                }
            }
        },
    }
}

/// The fields from `j` on read back from the encodings that follow the
/// first `j` fields, using up the region.
proof fn lemma_decode_fields_from(
    schema: SequenceSchema,
    vs: Seq<Option<Asn1Value>>,
    j: int,
    c: Seq<u8>,
)
    requires
        0 <= j <= vs.len(),
        fields_conform(schema.fields@, vs),
        unambiguous_schema(schema.fields@),
        spec_encode_fields(schema.fields@, vs) == Ok::<Seq<u8>, Error>(c),
        c.len() <= usize::MAX,
    ensures
        crate::codec::spec_decode_fields(
            schema,
            c,
            j,
            fields_prefix(schema.fields@, vs, j).len() as int,
        ) == Ok::<(int, Seq<Option<crate::value::ValueModel>>), Error>(
            (c.len() as int, vs.subrange(j, vs.len() as int).map_values(|f: Option<Asn1Value>| field_model(f))),
        ),
    decreases vs, vs.len() - j + 1,
{
    let fs = schema.fields@;
    lemma_fields_encoding_prefix(fs, vs, j);
    if j == vs.len() {
        assert(vs.subrange(0, j) =~= vs);
        assert(fs.subrange(0, j) =~= fs);
        assert(vs.subrange(j, vs.len() as int).map_values(|f: Option<Asn1Value>| field_model(f))
            =~= Seq::<Option<crate::value::ValueModel>>::empty());
    } else {
        lemma_fields_split(fs, vs, j, c);
        lemma_decode_one_field(schema.name, fs, vs, j, c);
        lemma_fields_encoding_prefix(fs, vs, j + 1);
        lemma_decode_fields_from(schema, vs, j + 1, c);
        assert(vs.subrange(j, vs.len() as int).map_values(|f: Option<Asn1Value>| field_model(f))
            =~= seq![field_model(vs[j])] + vs.subrange(j + 1, vs.len() as int).map_values(
            |f: Option<Asn1Value>| field_model(f),
        ));
    }
}

/// Round trip of a SEQUENCE whose schema is unambiguous and whose fields
/// conform, whatever follows its encoding.
#[verifier::rlimit(60)]
proof fn lemma_sequence_round_trip(schema: SequenceSchema, v: Asn1Value, rest: Seq<u8>)
    requires
        v is Sequence,
        fields_conform(schema.fields@, v->Sequence_0@),
        unambiguous_schema(schema.fields@),
        spec_encode(Asn1Kind::Sequence(Box::new(schema)), v) is Ok ==> spec_encode(
            Asn1Kind::Sequence(Box::new(schema)),
            v,
        )->Ok_0.len() <= usize::MAX,
    ensures
        spec_encode(Asn1Kind::Sequence(Box::new(schema)), v) is Ok,
        spec_decode(
            Asn1Kind::Sequence(Box::new(schema)),
            spec_encode(Asn1Kind::Sequence(Box::new(schema)), v)->Ok_0 + rest,
        ) == Ok::<(int, _), Error>(
            (spec_encode(Asn1Kind::Sequence(Box::new(schema)), v)->Ok_0.len() as int, value_model(v)),
        ),
    decreases v, 0int,
{
    let vs = v->Sequence_0@;
    let fs = schema.fields@;
    let kind = Asn1Kind::Sequence(Box::new(schema));
    lemma_fields_encoding_prefix(fs, vs, 0);
    let c = spec_encode_fields(fs, vs)->Ok_0;
    let inner = spec_frame(sequence_tag(), c);
    crate::frame::lemma_frame_len(sequence_tag(), c);
    lemma_fields_model_map(vs);
    assert(vs.subrange(0, vs.len() as int) =~= vs);
    assert(vs.subrange(0, 0) =~= Seq::<Option<Asn1Value>>::empty());
    assert(fs.subrange(0, 0) =~= Seq::<FieldSchema>::empty());
    assert(fields_prefix(fs, vs, 0) =~= Seq::<u8>::empty());
    let models = vs.map_values(|f: Option<Asn1Value>| field_model(f));
    assert(value_model(v) == crate::value::ValueModel::Sequence(models));
    lemma_decode_fields_from(schema, vs, 0, c);
    assert(crate::codec::spec_decode_fields(schema, c, 0, 0) == Ok::<
        (int, Seq<Option<crate::value::ValueModel>>),
        Error,
    >((c.len() as int, models)));
    crate::frame::lemma_frame_round_trip(sequence_tag(), c, rest, TagClass::Universal);
    crate::frame::lemma_frame_round_trip(sequence_tag(), c, Seq::<u8>::empty(), TagClass::Universal);
    assert(inner + Seq::<u8>::empty() =~= inner);
    assert(crate::codec::spec_decode_sequence_body(schema, inner + rest) == Ok::<
        (int, crate::value::ValueModel),
        Error,
    >((inner.len() as int, value_model(v))));
    assert(crate::codec::spec_decode_sequence_body(schema, inner) == Ok::<
        (int, crate::value::ValueModel),
        Error,
    >((inner.len() as int, value_model(v))));
    match schema.application_tag {
        None => {
            assert(spec_encode(kind, v) == Ok::<Seq<u8>, Error>(inner));
        },
        Some(a) => {
            let outer = spec_frame(application_tag(a), inner);
            assert(spec_encode(kind, v) == Ok::<Seq<u8>, Error>(outer));
            crate::frame::lemma_frame_len(application_tag(a), inner);
            crate::frame::lemma_frame_round_trip(application_tag(a), inner, rest, TagClass::Application);
        },
    }
}

} // verus!
