//! OCTET STRING.

use vstd::prelude::*;

use vstd::slice::slice_to_vec;

use crate::error::Error;
use crate::frame::{decode_frame, encode_frame, slice_range, spec_decode_object, spec_frame};
use crate::tag::{Tag, TagClass, TagType};

verus! {

pub const OCTET_STRING_TAG_NUMBER: u8 = 4;

/// ASN.1 OCTET STRING: raw octets, encoded as they are.
#[derive(Clone, Debug, PartialEq, Eq)]
pub struct OctetString {
    pub value: Vec<u8>,
}

impl View for OctetString {
    type V = Seq<u8>;

    open spec fn view(&self) -> Seq<u8> {
        self.value@
    }
}

/// Octet string value octets never fail to decode.
pub open spec fn spec_decode_octet_string_value(raw: Seq<u8>) -> Result<Seq<u8>, Error> {
    Ok(raw)
}

impl OctetString {
    pub open spec fn spec_tag() -> Tag {
        Tag::spec_new(OCTET_STRING_TAG_NUMBER, TagType::Primitive, TagClass::Universal)
    }

    pub open spec fn spec_encode(self) -> Seq<u8> {
        spec_frame(OctetString::spec_tag(), self@)
    }

    pub open spec fn spec_decode(raw: Seq<u8>) -> Result<(int, Seq<u8>), Error> {
        spec_decode_object(raw, OctetString::spec_tag(), |v| spec_decode_octet_string_value(v))
    }

    pub fn tag() -> (r: Tag)
        ensures
            r == OctetString::spec_tag(),
    {
        Tag::new_primitive_universal(OCTET_STRING_TAG_NUMBER)
    }

    pub fn new(value: Vec<u8>) -> (r: OctetString)
        ensures
            r@ == value@,
    {
        OctetString { value }
    }

    /// An empty octet string.
    pub fn new_empty() -> (r: OctetString)
        ensures
            r@ == Seq::<u8>::empty(),
    {
        OctetString { value: Vec::new() }
    }

    pub fn value(&self) -> (r: &Vec<u8>)
        ensures
            r@ == self@,
    {
        &self.value
    }

    pub fn encode_value(&self) -> (r: Vec<u8>)
        ensures
            r@ == self@,
    {
        self.value.clone()
    }

    pub fn decode_value(raw: &[u8]) -> (r: Result<OctetString, Error>)
        ensures
            match (r, spec_decode_octet_string_value(raw@)) {
                (Ok(s), Ok(v)) => s@ == v,
                (Err(e), Err(f)) => e == f,
                _ => false,
            },
    {
        Ok(OctetString { value: slice_to_vec(raw) })
    }

    /// Tag, length and value octets of this octet string.
    pub fn encode(&self) -> (r: Vec<u8>)
        ensures
            r@ == self.spec_encode(),
    {
        encode_frame(OctetString::tag(), self.encode_value())
    }

    /// Reads an octet string at the start of `raw`; gives the octets read and
    /// the value.
    pub fn decode(raw: &[u8]) -> (r: Result<(usize, OctetString), Error>)
        ensures
            match (r, OctetString::spec_decode(raw@)) {
                (Ok((n, s)), Ok((m, v))) => 2 <= n <= raw.len() && n == m && s@ == v,
                (Err(e), Err(f)) => e == f,
                _ => false,
            },
    {
        let (h, l) = match decode_frame(raw, OctetString::tag(), TagClass::Universal) {
            Ok(p) => p,
            Err(e) => return Err(e),
        };
        match OctetString::decode_value(slice_range(raw, h, l)) {
            Ok(s) => Ok((h + l, s)),
            Err(e) => Err(e),
        }
    }
}

impl From<Vec<u8>> for OctetString {
    fn from(value: Vec<u8>) -> OctetString {
        OctetString { value: value }
    }
}

impl vstd::std_specs::convert::FromSpecImpl<Vec<u8>> for OctetString {
    open spec fn obeys_from_spec() -> bool {
        true
    }

    open spec fn from_spec(v: Vec<u8>) -> OctetString {
        OctetString { value: v }
    }
}

impl Default for OctetString {
    fn default() -> (r: OctetString)
        ensures
            r@ == Seq::<u8>::empty(),
    {
        OctetString { value: Vec::new() }
    }
}

} // verus!
