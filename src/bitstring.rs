//! BIT STRING with its count of unused bits.

use vstd::prelude::*;
use vstd::slice::slice_to_vec;

use crate::error::Error;
use crate::frame::{
    decode_frame, encode_frame, slice_from, slice_range, spec_decode_object, spec_frame,
};
use crate::tag::{Tag, TagClass, TagType};

verus! {

pub const BIT_STRING_TAG_NUMBER: u8 = 3;

/// Message for a padding count above seven.
pub const PADDING_TOO_LONG: &'static str = "bit string padding above 7";

/// ASN.1 BIT STRING: octets and the count of unused low bits of the last one.
#[derive(Clone, Debug, PartialEq, Eq)]
pub struct BitString {
    pub bytes: Vec<u8>,
    pub padding_length: u8,
}

impl View for BitString {
    type V = (Seq<u8>, u8);

    open spec fn view(&self) -> (Seq<u8>, u8) {
        (self.bytes@, self.padding_length)
    }
}

/// `b` with its `p` low bits cleared.
pub open spec fn mask_padding(b: u8, p: u8) -> u8 {
    b & (0xFFu8 << p)
}

/// `bytes` with the `p` low bits of the last octet cleared.
pub open spec fn pad_last(bytes: Seq<u8>, p: u8) -> Seq<u8> {
    if bytes.len() == 0 {
        bytes
    } else {
        bytes.update(bytes.len() - 1, mask_padding(bytes.last(), p))
    }
}

/// Value octets of a bit string: the padding count, then the octets.
pub open spec fn spec_bit_string_value(bytes: Seq<u8>, p: u8) -> Seq<u8> {
    seq![p] + bytes
}

/// A bit string read from its value octets.
pub open spec fn spec_decode_bit_string_value(raw: Seq<u8>) -> Result<(Seq<u8>, u8), Error> {
    if raw.len() == 0 {
        Err(Error::NoDataForType)
    } else if raw[0] > 7 {
        Err(Error::ConstraintError(PADDING_TOO_LONG))
    } else {
        Ok((pad_last(raw.drop_first(), raw[0]), raw[0]))
    }
}

fn mask_byte(b: u8, p: u8) -> (r: u8)
    requires
        p <= 7,
    ensures
        r == mask_padding(b, p),
{
    b & (0xFFu8 << p)
}

impl BitString {
    pub open spec fn spec_tag() -> Tag {
        Tag::spec_new(BIT_STRING_TAG_NUMBER, TagType::Primitive, TagClass::Universal)
    }

    /// The padding count is at most seven and the padding bits are zero.
    pub open spec fn wf(self) -> bool {
        self.padding_length <= 7 && pad_last(self.bytes@, self.padding_length) == self.bytes@
    }

    pub open spec fn spec_encode(self) -> Seq<u8> {
        spec_frame(BitString::spec_tag(), spec_bit_string_value(self.bytes@, self.padding_length))
    }

    pub open spec fn spec_decode(raw: Seq<u8>) -> Result<(int, (Seq<u8>, u8)), Error> {
        spec_decode_object(raw, BitString::spec_tag(), |v| spec_decode_bit_string_value(v))
    }

    pub fn tag() -> (r: Tag)
        ensures
            r == BitString::spec_tag(),
    {
        Tag::new_primitive_universal(BIT_STRING_TAG_NUMBER)
    }

    /// A bit string of `bytes` whose last `padding_length` bits are unused;
    /// those bits are set to zero.
    pub fn new(bytes: Vec<u8>, padding_length: u8) -> (r: BitString)
        requires
            padding_length <= 7,
        ensures
            r@ == (pad_last(bytes@, padding_length), padding_length),
            r.wf(),
    {
        let mut bytes = bytes;
        let n = bytes.len();
        if n > 0 {
            let orig = bytes[n - 1];
            let last = mask_byte(orig, padding_length);
            bytes.set(n - 1, last);
            proof {
                lemma_mask_padding_twice(orig, padding_length);
            }
        }
        let r = BitString { bytes, padding_length };
        proof {
            lemma_mask_idempotent(r.bytes@, padding_length);
        }
        r
    }

    /// An empty bit string without padding.
    pub fn new_empty() -> (r: BitString)
        ensures
            r@ == (Seq::<u8>::empty(), 0u8),
            r.wf(),
    {
        BitString { bytes: Vec::new(), padding_length: 0 }
    }

    pub fn get_bytes(&self) -> (r: &Vec<u8>)
        ensures
            r@ == self.bytes@,
    {
        &self.bytes
    }

    pub fn get_padding_length(&self) -> (r: u8)
        ensures
            r == self.padding_length,
    {
        self.padding_length
    }

    pub fn encode_value(&self) -> (r: Vec<u8>)
        ensures
            r@ == spec_bit_string_value(self.bytes@, self.padding_length),
    {
        let mut encoded: Vec<u8> = vec![self.padding_length];
        let mut bytes = self.bytes.clone();
        encoded.append(&mut bytes);
        proof {
            assert(encoded@ =~= spec_bit_string_value(self.bytes@, self.padding_length));
        }
        encoded
    }

    pub fn decode_value(raw: &[u8]) -> (r: Result<BitString, Error>)
        ensures
            match (r, spec_decode_bit_string_value(raw@)) {
                (Ok(b), Ok(v)) => b@ == v && b.wf(),
                (Err(e), Err(f)) => e == f,
                _ => false,
            },
    {
        if raw.len() == 0 {
            return Err(Error::NoDataForType);
        }
        if raw[0] > 7 {
            return Err(Error::ConstraintError(PADDING_TOO_LONG));
        }
        let bytes = slice_to_vec(slice_from(raw, 1));
        proof {
            assert(bytes@ =~= raw@.drop_first());
        }
        Ok(BitString::new(bytes, raw[0]))
    }

    /// Tag, length and value octets of this bit string.
    pub fn encode(&self) -> (r: Vec<u8>)
        ensures
            r@ == self.spec_encode(),
    {
        encode_frame(BitString::tag(), self.encode_value())
    }

    /// Reads a bit string at the start of `raw`; gives the octets read and
    /// the value.
    pub fn decode(raw: &[u8]) -> (r: Result<(usize, BitString), Error>)
        ensures
            match (r, BitString::spec_decode(raw@)) {
                (Ok((n, b)), Ok((m, v))) => 2 <= n <= raw.len() && n == m && b@ == v && b.wf(),
                (Err(e), Err(f)) => e == f,
                _ => false,
            },
    {
        let (h, l) = match decode_frame(raw, BitString::tag(), TagClass::Universal) {
            Ok(p) => p,
            Err(e) => return Err(e),
        };
        match BitString::decode_value(slice_range(raw, h, l)) {
            Ok(b) => Ok((h + l, b)),
            Err(e) => Err(e),
        }
    }
}

/// Clearing the padding bits twice clears no more than once.
pub proof fn lemma_mask_idempotent(bytes: Seq<u8>, p: u8)
    requires
        p <= 7,
        bytes.len() > 0 ==> bytes.last() == mask_padding(bytes.last(), p),
    ensures
        pad_last(bytes, p) == bytes,
{
    if bytes.len() > 0 {
        assert(pad_last(bytes, p) =~= bytes);
    }
}

/// Masking an octet a second time changes nothing.
pub proof fn lemma_mask_padding_twice(b: u8, p: u8)
    requires
        p <= 7,
    ensures
        mask_padding(mask_padding(b, p), p) == mask_padding(b, p),
{
    assert((b & (0xFFu8 << p)) & (0xFFu8 << p) == b & (0xFFu8 << p)) by (bit_vector)
        requires
            p <= 7,
    ;
}

impl Default for BitString {
    fn default() -> (r: BitString)
        ensures
            r@ == (Seq::<u8>::empty(), 0u8),
            r.wf(),
    {
        BitString::new_empty()
    }
}

} // verus!
