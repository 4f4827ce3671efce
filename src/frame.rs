//! Tag, length and value framing shared by every type.

use vstd::prelude::*;

use crate::error::Error;
use crate::length::{
    decode_length, encode_length, lemma_length_round_trip, spec_decode_length, spec_encode_length,
};
use crate::tag::{lemma_tag_round_trip, Tag, TagClass};

verus! {

/// Tag, length and value octets of a value.
pub open spec fn spec_frame(tag: Tag, value: Seq<u8>) -> Seq<u8> {
    tag.spec_encode() + spec_encode_length(value.len()) + value
}

/// What reading a frame with tag `expected` at the start of `raw` gives: the
/// count of header octets and the length of the value that follows them.
/// A tag other than `expected` is reported as `UnmatchedTag(mismatch)`.
pub open spec fn spec_decode_frame(raw: Seq<u8>, expected: Tag, mismatch: TagClass) -> Result<
    (int, int),
    Error,
> {
    match Tag::spec_decode(raw) {
        Err(e) => Err(e),
        Ok((n, t)) => {
            if t != expected {
                Err(Error::UnmatchedTag(mismatch))
            } else {
                match spec_decode_length(raw.subrange(n, raw.len() as int)) {
                    Err(e) => Err(e),
                    Ok((l, m)) => {
                        if l > raw.len() - n - m {
                            Err(Error::NoDataForLength)
                        } else {
                            Ok((n + m, l))
                        }
                    },
                }
            }
        },
    }
}

/// What decoding a value of tag `tag` at the start of `raw` gives, when its
/// value octets decode as `decode_value` says: octets read and value.
pub open spec fn spec_decode_object<V>(
    raw: Seq<u8>,
    tag: Tag,
    decode_value: spec_fn(Seq<u8>) -> Result<V, Error>,
) -> Result<(int, V), Error> {
    match spec_decode_frame(raw, tag, TagClass::Universal) {
        Err(e) => Err(e),
        Ok((h, l)) => match decode_value(raw.subrange(h, h + l)) {
            Err(e) => Err(e),
            Ok(v) => Ok((h + l, v)),
        },
    }
}

/// Frames `value` with the identifier of `tag` and its length.
pub fn encode_frame(tag: Tag, value: Vec<u8>) -> (r: Vec<u8>)
    ensures
        r@ == spec_frame(tag, value@),
{
    let mut encoded = tag.encode();
    let mut length = encode_length(value.len());
    let mut value = value;
    encoded.append(&mut length);
    encoded.append(&mut value);
    encoded
}

/// Reads the header of a frame with tag `expected` at the start of `raw`;
/// gives the count of header octets and the length of the value.
pub fn decode_frame(raw: &[u8], expected: Tag, mismatch: TagClass) -> (r: Result<
    (usize, usize),
    Error,
>)
    ensures
        match (r, spec_decode_frame(raw@, expected, mismatch)) {
            (Ok((h, l)), Ok((i, m))) => h == i && l == m && 2 <= h && h + l <= raw.len(),
            (Err(e), Err(f)) => e == f,
            _ => false,
        },
{
    let (n, t) = match Tag::decode(raw) {
        Ok(p) => p,
        Err(e) => return Err(e),
    };
    if t != expected {
        return Err(Error::UnmatchedTag(mismatch));
    }
    let rest = slice_from(raw, n);
    let (l, m) = match decode_length(rest) {
        Ok(p) => p,
        Err(e) => return Err(e),
    };
    if l > raw.len() - n - m {
        return Err(Error::NoDataForLength);
    }
    Ok((n + m, l))
}

/// The octets of `raw` from `start` on.
pub(crate) fn slice_from(raw: &[u8], start: usize) -> (r: &[u8])
    requires
        start <= raw.len(),
    ensures
        r@ == raw@.subrange(start as int, raw.len() as int),
{
    let (_, rest) = raw.split_at(start);
    rest
}

/// The `len` octets of `raw` from `start` on.
pub(crate) fn slice_range(raw: &[u8], start: usize, len: usize) -> (r: &[u8])
    requires
        start + len <= raw.len(),
    ensures
        r@ == raw@.subrange(start as int, start + len),
{
    let (_, rest) = raw.split_at(start);
    let (mid, _) = rest.split_at(len);
    proof {
        assert(mid@ =~= raw@.subrange(start as int, start + len));
    }
    mid
}

/// A frame read back, whatever follows it, gives its own header size and
/// value length.
pub proof fn lemma_frame_round_trip(tag: Tag, value: Seq<u8>, rest: Seq<u8>, mismatch: TagClass)
    requires
        value.len() <= usize::MAX,
    ensures
        ({
            let header = tag.spec_encode().len() + spec_encode_length(value.len()).len() as int;
            &&& spec_decode_frame(spec_frame(tag, value) + rest, tag, mismatch) == Ok::<
                (int, int),
                Error,
            >((header, value.len() as int))
            &&& (spec_frame(tag, value) + rest).subrange(header, header + value.len() as int) == value
            &&& spec_frame(tag, value).len() == header + value.len()
        }),
{
    let t = tag.spec_encode();
    let l = spec_encode_length(value.len());
    let raw = spec_frame(tag, value) + rest;
    assert(raw =~= t + (l + value + rest));
    lemma_tag_round_trip(tag, l + value + rest);
    assert(raw.subrange(t.len() as int, raw.len() as int) =~= l + (value + rest));
    lemma_length_round_trip(value.len(), value + rest);
    assert(raw.subrange(t.len() + l.len() as int, t.len() + l.len() + value.len() as int) =~= value);
}

/// A frame holds at least an identifier octet and a length octet.
pub proof fn lemma_frame_len(tag: Tag, value: Seq<u8>)
    ensures
        spec_frame(tag, value).len() >= 2 + value.len(),
{
    if value.len() >= 128 {
        crate::length::lemma_be_bytes_len(value.len(), crate::length::byte_count(value.len()));
    }
}

/// A value framed with its tag decodes back, whatever follows it, when its
/// value octets do.
pub proof fn lemma_object_round_trip<V>(
    tag: Tag,
    value: Seq<u8>,
    decode_value: spec_fn(Seq<u8>) -> Result<V, Error>,
    v: V,
    rest: Seq<u8>,
)
    requires
        value.len() <= usize::MAX,
        decode_value(value) == Ok::<V, Error>(v),
    ensures
        spec_decode_object(spec_frame(tag, value) + rest, tag, decode_value) == Ok::<(int, V), Error>(
            (spec_frame(tag, value).len() as int, v),
        ),
{
    lemma_frame_round_trip(tag, value, rest, TagClass::Universal);
}

/// A frame whose tag differs from the expected one is refused as such.
pub proof fn lemma_frame_other_tag(tag: Tag, expected: Tag, value: Seq<u8>, rest: Seq<u8>, mismatch: TagClass)
    requires
        tag != expected,
    ensures
        spec_decode_frame(spec_frame(tag, value) + rest, expected, mismatch) == Err::<(int, int), Error>(
            Error::UnmatchedTag(mismatch),
        ),
{
    let t = tag.spec_encode();
    let raw = spec_frame(tag, value) + rest;
    assert(raw =~= t + (spec_encode_length(value.len()) + value + rest));
    lemma_tag_round_trip(tag, spec_encode_length(value.len()) + value + rest);
}

} // verus!
