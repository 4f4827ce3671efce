//! BOOLEAN.

use vstd::prelude::*;

use crate::error::Error;
use crate::frame::{decode_frame, encode_frame, slice_range, spec_decode_object, spec_frame};
use crate::tag::{Tag, TagClass, TagType};

verus! {

pub const BOOLEAN_TAG_NUMBER: u8 = 1;

/// ASN.1 BOOLEAN.
#[derive(Clone, Copy, Debug, PartialEq, Eq, Structural)]
pub struct Boolean {
    pub value: bool,
}

/// Value octets of a boolean: `FF` for true, `00` for false.
pub open spec fn spec_boolean_value(b: bool) -> Seq<u8> {
    if b {
        seq![0xFFu8]
    } else {
        seq![0x00u8]
    }
}

/// A boolean read from its value octets: any nonzero first octet is true.
pub open spec fn spec_decode_boolean_value(raw: Seq<u8>) -> Result<bool, Error> {
    if raw.len() == 0 {
        Err(Error::NoDataForType)
    } else {
        Ok(raw[0] != 0)
    }
}

impl Boolean {
    pub open spec fn spec_tag() -> Tag {
        Tag::spec_new(BOOLEAN_TAG_NUMBER, TagType::Primitive, TagClass::Universal)
    }

    pub open spec fn spec_encode(self) -> Seq<u8> {
        spec_frame(Boolean::spec_tag(), spec_boolean_value(self.value))
    }

    pub open spec fn spec_decode(raw: Seq<u8>) -> Result<(int, bool), Error> {
        spec_decode_object(raw, Boolean::spec_tag(), |v| spec_decode_boolean_value(v))
    }

    pub fn tag() -> (r: Tag)
        ensures
            r == Boolean::spec_tag(),
    {
        Tag::new_primitive_universal(BOOLEAN_TAG_NUMBER)
    }

    pub fn new(value: bool) -> (r: Boolean)
        ensures
            r.value == value,
    {
        Boolean { value }
    }

    pub fn value(&self) -> (r: bool)
        ensures
            r == self.value,
    {
        self.value
    }

    pub fn encode_value(&self) -> (r: Vec<u8>)
        ensures
            r@ == spec_boolean_value(self.value),
    {
        if self.value {
            vec![0xFF]
        } else {
            vec![0x00]
        }
    }

    pub fn decode_value(raw: &[u8]) -> (r: Result<Boolean, Error>)
        ensures
            match (r, spec_decode_boolean_value(raw@)) {
                (Ok(b), Ok(v)) => b.value == v,
                (Err(e), Err(f)) => e == f,
                _ => false,
            },
    {
        if raw.len() == 0 {
            return Err(Error::NoDataForType);
        }
        Ok(Boolean { value: raw[0] != 0 })
    }

    /// Tag, length and value octets of this boolean.
    pub fn encode(&self) -> (r: Vec<u8>)
        ensures
            r@ == self.spec_encode(),
    {
        encode_frame(Boolean::tag(), self.encode_value())
    }

    /// Reads a boolean at the start of `raw`; gives the octets read and the value.
    pub fn decode(raw: &[u8]) -> (r: Result<(usize, Boolean), Error>)
        ensures
            match (r, Boolean::spec_decode(raw@)) {
                (Ok((n, b)), Ok((m, v))) => 2 <= n <= raw.len() && n == m && b.value == v,
                (Err(e), Err(f)) => e == f,
                _ => false,
            },
    {
        let (h, l) = match decode_frame(raw, Boolean::tag(), TagClass::Universal) {
            Ok(p) => p,
            Err(e) => return Err(e),
        };
        match Boolean::decode_value(slice_range(raw, h, l)) {
            Ok(b) => Ok((h + l, b)),
            Err(e) => Err(e),
        }
    }
}

impl From<bool> for Boolean {
    fn from(value: bool) -> Boolean {
        Boolean { value: value }
    }
}

impl vstd::std_specs::convert::FromSpecImpl<bool> for Boolean {
    open spec fn obeys_from_spec() -> bool {
        true
    }

    open spec fn from_spec(v: bool) -> Boolean {
        Boolean { value: v }
    }
}

impl Default for Boolean {
    fn default() -> (r: Boolean)
        ensures
            r.value == false,
    {
        Boolean { value: false }
    }
}

} // verus!
