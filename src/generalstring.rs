//! GeneralString as UTF-8 text.

use vstd::prelude::*;
use vstd::slice::slice_to_vec;
use vstd::utf8::{decode_utf8, encode_utf8, valid_utf8};

use crate::error::Error;
use crate::frame::{decode_frame, encode_frame, slice_range, spec_decode_object, spec_frame};
use crate::tag::{Tag, TagClass, TagType};

verus! {

pub const GENERALSTRING_TAG_NUMBER: u8 = 0x1b;

/// ASN.1 GeneralString, carried as UTF-8 text.
#[derive(Clone, Debug, PartialEq, Eq)]
pub struct GeneralString {
    pub value: String,
}

impl View for GeneralString {
    type V = Seq<char>;

    open spec fn view(&self) -> Seq<char> {
        self.value@
    }
}

/// A general string read from its value octets: they must be UTF-8.
pub open spec fn spec_decode_general_string_value(raw: Seq<u8>) -> Result<Seq<char>, Error> {
    if valid_utf8(raw) {
        Ok(decode_utf8(raw))
    } else {
        Err(Error::Utf8Error)
    }
}

/// Relies on `String::from_utf8`: it accepts exactly the valid UTF-8 octet
/// sequences, and the text holds the characters they encode.
#[verifier::external_body]
fn string_from_utf8(raw: &[u8]) -> (r: Option<String>)
    ensures
        r is Some <==> valid_utf8(raw@),
        r matches Some(s) ==> s@ == decode_utf8(raw@),
{
    String::from_utf8(raw.to_vec()).ok()
}

impl GeneralString {
    pub open spec fn spec_tag() -> Tag {
        Tag::spec_new(GENERALSTRING_TAG_NUMBER, TagType::Primitive, TagClass::Universal)
    }

    pub open spec fn spec_encode(self) -> Seq<u8> {
        spec_frame(GeneralString::spec_tag(), encode_utf8(self@))
    }

    pub open spec fn spec_decode(raw: Seq<u8>) -> Result<(int, Seq<char>), Error> {
        spec_decode_object(
            raw,
            GeneralString::spec_tag(),
            |v| spec_decode_general_string_value(v),
        )
    }

    pub fn tag() -> (r: Tag)
        ensures
            r == GeneralString::spec_tag(),
    {
        Tag::new_primitive_universal(GENERALSTRING_TAG_NUMBER)
    }

    pub fn new(value: String) -> (r: GeneralString)
        ensures
            r@ == value@,
    {
        GeneralString { value }
    }

    pub fn value(&self) -> (r: &String)
        ensures
            r@ == self@,
    {
        &self.value
    }

    /// The UTF-8 octets of the text.
    pub fn encode_value(&self) -> (r: Vec<u8>)
        ensures
            r@ == encode_utf8(self@),
    {
        slice_to_vec(self.value.as_str().as_bytes())
    }

    pub fn decode_value(raw: &[u8]) -> (r: Result<GeneralString, Error>)
        ensures
            match (r, spec_decode_general_string_value(raw@)) {
                (Ok(s), Ok(v)) => s@ == v,
                (Err(e), Err(f)) => e == f,
                _ => false,
            },
    {
        match string_from_utf8(raw) {
            Some(value) => Ok(GeneralString { value }),
            None => Err(Error::Utf8Error),
        }
    }

    /// Tag, length and value octets of this string.
    pub fn encode(&self) -> (r: Vec<u8>)
        ensures
            r@ == self.spec_encode(),
    {
        encode_frame(GeneralString::tag(), self.encode_value())
    }

    /// Reads a general string at the start of `raw`; gives the octets read
    /// and the value.
    pub fn decode(raw: &[u8]) -> (r: Result<(usize, GeneralString), Error>)
        ensures
            match (r, GeneralString::spec_decode(raw@)) {
                (Ok((n, s)), Ok((m, v))) => 2 <= n <= raw.len() && n == m && s@ == v,
                (Err(e), Err(f)) => e == f,
                _ => false,
            },
    {
        let (h, l) = match decode_frame(raw, GeneralString::tag(), TagClass::Universal) {
            Ok(p) => p,
            Err(e) => return Err(e),
        };
        match GeneralString::decode_value(slice_range(raw, h, l)) {
            Ok(s) => Ok((h + l, s)),
            Err(e) => Err(e),
        }
    }
}

impl From<String> for GeneralString {
    fn from(value: String) -> GeneralString {
        GeneralString { value: value }
    }
}

impl vstd::std_specs::convert::FromSpecImpl<String> for GeneralString {
    open spec fn obeys_from_spec() -> bool {
        true
    }

    open spec fn from_spec(v: String) -> GeneralString {
        GeneralString { value: v }
    }
}

impl Default for GeneralString {
    fn default() -> (r: GeneralString)
        ensures
            r@ == Seq::<char>::empty(),
    {
        GeneralString { value: String::new() }
    }
}

} // verus!
